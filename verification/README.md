# rug

Runs terraform or tofu commands across a tree of modules, on two screens or without any.

The library under `src/` is written in Verus: what each function returns or changes is stated in
its contract and proved. The program around it is under `app/`.

- `text`, `util`, `paths`, `pathmap`: text, paths, and maps by path.
- `config`, `discovery`, `module`: settings, and which directories are modules.
- `task`, `runner`, `engine`, `engine_laws`, `plan_cache`, `lock`, `state`: tasks, the life of their
  processes, how they wait for each other, cached plans, locks, and resource addresses.
- `app`: what is shown and selected, the run session, the state explorer, and confirmations.
  `app::laws` and `app::explorer_laws` say what holds across operations.
- `ui`: keys, the mouse, and what is drawn, as styled text in areas of the terminal.
  `ui::key_laws`, `ui::draw_laws` and `ui::pane_laws` say what holds of every key, frame and click.
- `headless`: commands without a screen.

The library does no input or output. The engine leaves what has to be done in its outbox, the
application in its list of requests, and the host hands back events and answers. A frame is a list
of widgets that the host draws.
