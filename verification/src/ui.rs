//! What the screens show, as styled text and geometry.

pub mod clipboard;
pub mod confirm;
pub mod detail_laws;
pub mod draw;
pub mod draw_laws;
pub mod frame;
pub mod frame_laws;
pub mod help;
pub mod json;
pub mod key_laws;
pub mod keybar;
pub mod keys;
pub mod label_laws;
pub mod layout;
pub mod mouse;
pub mod mouse_laws;
pub mod output;
pub mod output_layout;
pub mod pane_laws;
pub mod popup_laws;
pub mod popups;
pub mod run;
pub mod select;
pub mod show_laws;
pub mod state_view;
pub mod style;
pub mod theme;
pub mod widgets;
pub mod wrap;
pub mod wrap_laws;
