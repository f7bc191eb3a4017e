//! Which directories are modules, and in what order they are listed.

use crate::config::Config;
use crate::module::{shown_name, Module, ModuleKind};
use crate::paths::{components, components_of, same_path, stripped_path};
use crate::text::{
    any_is, begins, begins_with, chars_of, comes_before, is_text, lex_lt, lex_total, lex_transitive,
    lines, lines_of, texts, trim, trim_chars,
};
use vstd::prelude::*;

verus! {

/// What discovery sees of a directory.
#[derive(Debug)]
pub struct FoundDir {
    pub path: String,
    /// The contents of its `.tf` files; none for one that cannot be read.
    pub tf_files: Vec<Option<String>>,
    /// It holds a `.terraform.lock.hcl`.
    pub has_lock_file: bool,
    /// It holds a `terraform.tfstate`.
    pub has_state_file: bool,
    /// It holds a `terraform.tfstate.d`.
    pub has_state_dir: bool,
}

/// Whether a line declares a backend.
pub open spec fn declares_backend(line: Seq<char>) -> bool {
    begins(trim(line), "backend "@) || trim(line) == "backend{"@
}

/// Whether a file's content declares a backend.
pub open spec fn content_has_backend(content: Seq<char>) -> bool {
    exists|i: int| 0 <= i < lines(content).len() && declares_backend(#[trigger] lines(content)[i])
}

/// Whether a file declares a backend. One that cannot be read does not.
pub open spec fn file_declares(f: Option<String>) -> bool {
    f is Some && content_has_backend((f->0)@)
}

/// What kind of module a directory is, if it is one.
pub open spec fn kind_of(d: FoundDir) -> Option<ModuleKind> {
    if d.tf_files@.len() == 0 {
        None
    } else if d.has_lock_file || d.has_state_file || d.has_state_dir {
        Some(ModuleKind::Root)
    } else if exists|i: int| 0 <= i < d.tf_files@.len() && file_declares(#[trigger] d.tf_files@[i]) {
        Some(ModuleKind::Root)
    } else {
        Some(ModuleKind::Library)
    }
}

/// Whether the walk does not enter a directory of this name.
pub fn is_ignored(name: &str, config: &Config) -> (r: bool)
    ensures
        r == texts(config.ignore_dirs@).contains(name@),
{
    any_is(&config.ignore_dirs, name)
}

/// Whether a file name has the extension `tf`: a `.tf` at its end, with
/// something before it.
pub fn is_tf_file(name: &str) -> (r: bool)
    ensures
        r == (name@.len() > 3 && name@.skip(name@.len() - 3) == ".tf"@),
{
    proof {
        reveal_strlit(".tf");
    }
    let cs = chars_of(name);
    let n: usize = cs.len();
    if n <= 3 {
        return false;
    }
    let ghost end = name@.skip(n - 3);
    assert(end[0] == cs@[n - 3] && end[1] == cs@[n - 2] && end[2] == cs@[n - 1]);
    let r = cs[n - 3] == '.' && cs[n - 2] == 't' && cs[n - 1] == 'f';
    assert(r ==> end =~= ".tf"@);
    r
}

/// Whether a file's content declares a backend.
pub fn file_has_backend(content: &str) -> (r: bool)
    ensures
        r == content_has_backend(content@),
{
    let all = lines_of(content);
    let ghost views = lines(content@);
    let mut i: usize = 0;
    while i < all.len()
        invariant
            i <= all@.len(),
            views == lines(content@),
            texts(all@) == views,
            forall|j: int| 0 <= j < i ==> !declares_backend(#[trigger] views[j]),
        decreases all@.len() - i,
    {
        assert(views[i as int] == all@[i as int]@);
        let t = trim_chars(chars_of(all[i].as_str()).as_slice());
        if begins_with(t.as_slice(), "backend ") || is_text(t.as_slice(), "backend{") {
            return true;
        }
        i += 1;
    }
    false
}

/// Classifies a directory: none where it holds no `.tf` file; a root module
/// where it has a lock file, state, or a backend; else a library.
pub fn classify_dir(dir: &FoundDir) -> (r: Option<ModuleKind>)
    ensures
        r == kind_of(*dir),
{
    if dir.tf_files.len() == 0 {
        return None;
    }
    if dir.has_lock_file || dir.has_state_file || dir.has_state_dir {
        return Some(ModuleKind::Root);
    }
    let mut i: usize = 0;
    while i < dir.tf_files.len()
        invariant
            i <= dir.tf_files@.len(),
            dir.tf_files@.len() > 0,
            !(dir.has_lock_file || dir.has_state_file || dir.has_state_dir),
            forall|j: int| 0 <= j < i ==> !file_declares(#[trigger] dir.tf_files@[j]),
        decreases dir.tf_files@.len() - i,
    {
        if let Some(content) = &dir.tf_files[i] {
            if file_has_backend(content.as_str()) {
                assert(file_declares(dir.tf_files@[i as int]));
                return Some(ModuleKind::Root);
            }
        }
        i += 1;
    }
    Some(ModuleKind::Library)
}

/// A module as text.
pub struct ModuleView {
    pub path: Seq<char>,
    pub name: Seq<char>,
    pub kind: ModuleKind,
}

impl ModuleView {
    /// The directory, component by component: two modules are the same where
    /// this is the same.
    pub open spec fn place(self) -> Seq<Seq<char>> {
        components(self.path)
    }
}

/// The module as text.
pub open spec fn module_view(m: Module) -> ModuleView {
    ModuleView { path: m.path@, name: m.display_name@, kind: m.kind }
}

/// Modules as text.
pub open spec fn module_views(ms: Seq<Module>) -> Seq<ModuleView> {
    ms.map_values(|m: Module| module_view(m))
}

/// Whether the `n`-th directory was not seen before.
pub open spec fn first_visit(dirs: Seq<FoundDir>, n: int) -> bool {
    forall|i: int|
        0 <= i < n ==> components((#[trigger] dirs[i]).path@) != components(dirs[n].path@)
}

/// The names of the directories from `root` down to `path`, both included.
pub open spec fn names_down_to(root: Seq<char>, path: Seq<char>) -> Seq<Seq<char>> {
    let depth = components(root).len() as int;
    let all = components(path);
    all.skip(
        if depth == 0 {
            0
        } else if depth - 1 <= all.len() {
            depth - 1
        } else {
            all.len() as int
        },
    )
}

/// Whether a directory from `root` down to `path` is named among those to skip.
pub open spec fn is_skipped(root: Seq<char>, path: Seq<char>, ignored: Seq<Seq<char>>) -> bool {
    exists|i: int|
        0 <= i < names_down_to(root, path).len() && ignored.contains(
            #[trigger] names_down_to(root, path)[i],
        )
}

/// What a search goes by.
pub struct SearchView {
    pub root: Seq<char>,
    pub ignored: Seq<Seq<char>>,
    pub show_library: bool,
}

/// The search for modules below `root`.
pub open spec fn search(root: Seq<char>, config: Config) -> SearchView {
    SearchView {
        root,
        ignored: texts(config.ignore_dirs@),
        show_library: config.show_library_modules,
    }
}

/// Whether the `n`-th directory is listed.
pub open spec fn is_listed(dirs: Seq<FoundDir>, n: int, s: SearchView) -> bool {
    &&& first_visit(dirs, n)
    &&& !is_skipped(s.root, dirs[n].path@, s.ignored)
    &&& kind_of(dirs[n]) is Some
    &&& kind_of(dirs[n])->0 == ModuleKind::Root || s.show_library
}

/// The module that a directory is.
pub open spec fn module_at(dir: FoundDir, root: Seq<char>) -> ModuleView {
    ModuleView {
        path: dir.path@,
        name: shown_name(dir.path@, stripped_path(dir.path@, root)),
        kind: kind_of(dir)->0,
    }
}

/// The modules of the first `n` directories, in the order in which they were
/// found.
pub open spec fn listed(dirs: Seq<FoundDir>, n: int, s: SearchView) -> Seq<ModuleView>
    decreases n,
{
    if n <= 0 {
        Seq::empty()
    } else {
        let before = listed(dirs, n - 1, s);
        if is_listed(dirs, n - 1, s) {
            before.push(module_at(dirs[n - 1], s.root))
        } else {
            before
        }
    }
}

/// Where `m` goes among `sorted`: behind everything that does not come after it.
pub open spec fn place_of(sorted: Seq<ModuleView>, m: ModuleView) -> int
    decreases sorted.len(),
{
    if sorted.len() == 0 || !lex_lt(m.name, sorted.last().name) {
        sorted.len() as int
    } else {
        place_of(sorted.drop_last(), m)
    }
}

/// Modules ordered by name; those of the same name stay as they were.
pub open spec fn by_name(ms: Seq<ModuleView>) -> Seq<ModuleView>
    decreases ms.len(),
{
    if ms.len() == 0 {
        ms
    } else {
        let before = by_name(ms.drop_last());
        before.insert(place_of(before, ms.last()), ms.last())
    }
}

proof fn place_bounds(sorted: Seq<ModuleView>, m: ModuleView)
    ensures
        0 <= place_of(sorted, m) <= sorted.len(),
        forall|i: int|
            place_of(sorted, m) <= i < sorted.len() ==> lex_lt(m.name, (#[trigger] sorted[i]).name),
        place_of(sorted, m) > 0 ==> !lex_lt(m.name, sorted[place_of(sorted, m) - 1].name),
    decreases sorted.len(),
{
    if sorted.len() > 0 && lex_lt(m.name, sorted.last().name) {
        let front = sorted.drop_last();
        place_bounds(front, m);
        assert forall|i: int| place_of(sorted, m) <= i < sorted.len() implies lex_lt(
            m.name,
            (#[trigger] sorted[i]).name,
        ) by {
            if i < front.len() {
                assert(front[i] == sorted[i]);
            }
        }
    }
}

/// Ordering modules by name puts no module before one that it comes after.
pub proof fn by_name_is_ordered(ms: Seq<ModuleView>, i: int, j: int)
    requires
        0 <= i < j < ms.len(),
    ensures
        by_name(ms).len() == ms.len(),
        !lex_lt(by_name(ms)[j].name, by_name(ms)[i].name),
    decreases ms.len(),
{
    by_name_ordered(ms);
}

proof fn by_name_ordered(ms: Seq<ModuleView>)
    ensures
        by_name(ms).len() == ms.len(),
        forall|i: int, j: int|
            0 <= i < j < ms.len() ==> !lex_lt(
                (#[trigger] by_name(ms)[j]).name,
                (#[trigger] by_name(ms)[i]).name,
            ),
    decreases ms.len(),
{
    if ms.len() > 0 {
        let before = by_name(ms.drop_last());
        let m = ms.last();
        by_name_ordered(ms.drop_last());
        place_bounds(before, m);
        let p = place_of(before, m);
        let after = by_name(ms);
        assert(after == before.insert(p, m));
        assert forall|i: int, j: int| 0 <= i < j < ms.len() implies !lex_lt(
            (#[trigger] after[j]).name,
            (#[trigger] after[i]).name,
        ) by {
            if j == p {
                if i < p - 1 {
                    if lex_lt(m.name, before[i].name) {
                        let l = before[p - 1].name;
                        assert(!lex_lt(l, before[i].name));
                        lex_total(l, before[i].name);
                        if lex_lt(before[i].name, l) {
                            lex_transitive(m.name, before[i].name, l);
                        }
                    }
                }
            } else if i == p {
                assert(after[j] == before[j - 1]);
                assert(lex_lt(m.name, before[j - 1].name));
                if lex_lt(before[j - 1].name, m.name) {
                    lex_transitive(m.name, before[j - 1].name, m.name);
                    crate::text::lex_irreflexive(m.name);
                }
            } else {
                let i0 = if i < p {
                    i
                } else {
                    i - 1
                };
                let j0 = if j < p {
                    j
                } else {
                    j - 1
                };
                assert(after[i] == before[i0]);
                assert(after[j] == before[j0]);
            }
        }
    }
}

/// Ordering modules by name neither drops nor adds one.
pub proof fn by_name_keeps_all(ms: Seq<ModuleView>)
    ensures
        by_name(ms).to_multiset() == ms.to_multiset(),
    decreases ms.len(),
{
    if ms.len() > 0 {
        let before = by_name(ms.drop_last());
        let m = ms.last();
        by_name_keeps_all(ms.drop_last());
        place_bounds(before, m);
        vstd::seq_lib::to_multiset_insert(before, place_of(before, m), m);
        assert(ms =~= ms.drop_last().push(m));
        vstd::seq_lib::to_multiset_build(ms.drop_last(), m);
    } else {
        assert(by_name(ms) == ms);
    }
}

/// The modules among the directories that a walk from `root` found, ordered by
/// name. Neither an ignored directory nor anything below it is a module. Library
/// modules are left out unless the configuration shows them, and no directory
/// counts twice.
pub fn discover(root: &str, config: &Config, dirs: &Vec<FoundDir>) -> (r: Vec<Module>)
    ensures
        module_views(r@) == by_name(listed(dirs@, dirs@.len() as int, search(root@, *config))),
{
    let show = config.show_library_modules;
    let ghost s = search(root@, *config);
    let mut out: Vec<Module> = Vec::new();
    let mut n: usize = 0;
    assert(module_views(out@) =~= by_name(listed(dirs@, 0, s)));
    while n < dirs.len()
        invariant
            n <= dirs@.len(),
            show == config.show_library_modules,
            s == search(root@, *config),
            module_views(out@) == by_name(listed(dirs@, n as int, s)),
        decreases dirs@.len() - n,
    {
        if is_first_visit(dirs, n) && !is_below_ignored(root, dirs[n].path.as_str(), config) {
            if let Some(kind) = classify_dir(&dirs[n]) {
                if kind == ModuleKind::Root || show {
                    let m = Module::new(dirs[n].path.clone(), root, kind);
                    let ghost before = listed(dirs@, n as int, s);
                    let ghost mv = module_view(m);
                    assert(listed(dirs@, n + 1, s) == before.push(mv));
                    assert(before.push(mv).drop_last() =~= before);
                    insert_by_name(&mut out, m);
                }
            }
        }
        n += 1;
    }
    out
}

/// Whether `path`, or a directory on the way to it from `root`, is ignored.
fn is_below_ignored(root: &str, path: &str, config: &Config) -> (r: bool)
    ensures
        r == is_skipped(root@, path@, texts(config.ignore_dirs@)),
{
    let depth = components_of(root).len();
    let all = components_of(path);
    let ghost names = names_down_to(root@, path@);
    assert(texts(all@).len() == all@.len());
    let from: usize = if depth == 0 {
        0
    } else if depth - 1 <= all.len() {
        depth - 1
    } else {
        all.len()
    };
    let mut i: usize = from;
    while i < all.len()
        invariant
            from <= i <= all@.len(),
            texts(all@) == components(path@),
            names == names_down_to(root@, path@),
            names == components(path@).skip(from as int),
            forall|j: int|
                0 <= j < i - from ==> !texts(config.ignore_dirs@).contains(#[trigger] names[j]),
        decreases all@.len() - i,
    {
        assert(texts(all@)[i as int] == all@[i as int]@);
        assert(names[i - from] == all@[i as int]@);
        if is_ignored(all[i].as_str(), config) {
            return true;
        }
        i += 1;
    }
    false
}

proof fn listed_are(dirs: Seq<FoundDir>, n: int, s: SearchView)
    requires
        0 <= n <= dirs.len(),
    ensures
        forall|m: ModuleView| #[trigger]
            listed(dirs, n, s).contains(m) <==> exists|i: int|
                0 <= i < n && #[trigger] is_listed(dirs, i, s) && m == module_at(dirs[i], s.root),
        forall|i: int, j: int|
            0 <= i < j < listed(dirs, n, s).len() ==> (#[trigger] listed(dirs, n, s)[i]).place() != (
            #[trigger] listed(dirs, n, s)[j]).place(),
    decreases n,
{
    if n > 0 {
        listed_are(dirs, n - 1, s);
        let before = listed(dirs, n - 1, s);
        let after = listed(dirs, n, s);
        if is_listed(dirs, n - 1, s) {
            let x = module_at(dirs[n - 1], s.root);
            assert(after == before.push(x));
            assert forall|m: ModuleView| #[trigger] after.contains(m) <==> exists|i: int|
                0 <= i < n && #[trigger] is_listed(dirs, i, s) && m == module_at(
                    dirs[i],
                    s.root,
                ) by {
                if before.contains(m) {
                    let k = choose|k: int| 0 <= k < before.len() && before[k] == m;
                    assert(after[k] == m);
                }
                if m == x {
                    assert(after[before.len() as int] == m);
                }
                if after.contains(m) {
                    let k = choose|k: int| 0 <= k < after.len() && after[k] == m;
                    if k < before.len() {
                        assert(before[k] == m);
                        assert(before.contains(m));
                    } else {
                        assert(is_listed(dirs, n - 1, s));
                    }
                }
            }
            assert forall|i: int| 0 <= i < before.len() implies (#[trigger] before[i]).place()
                != x.place() by {
                assert(before.contains(before[i]));
                let k = choose|k: int|
                    0 <= k < n - 1 && #[trigger] is_listed(dirs, k, s) && before[i] == module_at(
                        dirs[k],
                        s.root,
                    );
                assert(components(dirs[k].path@) != components(dirs[n - 1].path@));
            }
            assert forall|i: int, j: int| 0 <= i < j < after.len() implies (
            #[trigger] after[i]).place() != (#[trigger] after[j]).place() by {
                assert(after[i] == before[i]);
                if j < before.len() {
                    assert(after[j] == before[j]);
                }
            }
        } else {
            assert(after == before);
        }
    }
}

/// A search finds exactly the directories that are modules, leaving out those at
/// or below an ignored one, and library modules unless they are shown.
pub proof fn modules_are_the_listed_directories(dirs: Seq<FoundDir>, s: SearchView, m: ModuleView)
    ensures
        by_name(listed(dirs, dirs.len() as int, s)).contains(m) <==> exists|i: int|
            0 <= i < dirs.len() && #[trigger] is_listed(dirs, i, s) && m == module_at(
                dirs[i],
                s.root,
            ),
{
    let found = listed(dirs, dirs.len() as int, s);
    listed_are(dirs, dirs.len() as int, s);
    by_name_keeps_all(found);
    found.to_multiset_ensures();
    by_name(found).to_multiset_ensures();
    assert(found.contains(m) <==> found.to_multiset().count(m) > 0);
    assert(by_name(found).contains(m) <==> by_name(found).to_multiset().count(m) > 0);
}

/// A search finds no directory twice.
pub proof fn no_directory_is_found_twice(dirs: Seq<FoundDir>, s: SearchView, i: int, j: int)
    requires
        0 <= i < j < by_name(listed(dirs, dirs.len() as int, s)).len(),
    ensures
        ({
            let r = by_name(listed(dirs, dirs.len() as int, s));
            r[i].place() != r[j].place()
        }),
{
    listed_are(dirs, dirs.len() as int, s);
    paths_stay_apart(listed(dirs, dirs.len() as int, s));
}

proof fn ordered_comes_from(ms: Seq<ModuleView>, i: int) -> (k: int)
    requires
        0 <= i < by_name(ms).len(),
    ensures
        0 <= k < ms.len(),
        ms[k] == by_name(ms)[i],
{
    let m = by_name(ms)[i];
    by_name_keeps_all(ms);
    ms.to_multiset_ensures();
    by_name(ms).to_multiset_ensures();
    assert(by_name(ms).contains(m));
    assert(by_name(ms).to_multiset().count(m) > 0);
    assert(ms.contains(m));
    choose|k: int| 0 <= k < ms.len() && ms[k] == m
}

proof fn paths_stay_apart(ms: Seq<ModuleView>)
    requires
        forall|i: int, j: int|
            0 <= i < j < ms.len() ==> (#[trigger] ms[i]).place() != (#[trigger] ms[j]).place(),
    ensures
        forall|i: int, j: int|
            0 <= i < j < by_name(ms).len() ==> (#[trigger] by_name(ms)[i]).place() != (
            #[trigger] by_name(ms)[j]).place(),
    decreases ms.len(),
{
    if ms.len() > 0 {
        let front = ms.drop_last();
        let before = by_name(front);
        let m = ms.last();
        assert forall|i: int, j: int| 0 <= i < j < front.len() implies (
        #[trigger] front[i]).place() != (#[trigger] front[j]).place() by {
            assert(front[i] == ms[i] && front[j] == ms[j]);
        }
        paths_stay_apart(front);
        place_bounds(before, m);
        let p = place_of(before, m);
        let after = by_name(ms);
        assert(after == before.insert(p, m));
        assert forall|i: int| 0 <= i < before.len() implies (#[trigger] before[i]).place()
            != m.place() by {
            let k = ordered_comes_from(front, i);
            assert(front[k] == ms[k]);
            assert(ms[k].place() != ms[ms.len() - 1].place());
        }
        assert forall|i: int, j: int| 0 <= i < j < after.len() implies (#[trigger] after[i]).place()
            != (#[trigger] after[j]).place() by {
            let i0 = if i < p {
                i
            } else {
                i - 1
            };
            let j0 = if j < p {
                j
            } else {
                j - 1
            };
            if i != p {
                assert(after[i] == before[i0]);
            }
            if j != p {
                assert(after[j] == before[j0]);
            }
        }
    }
}

fn is_first_visit(dirs: &Vec<FoundDir>, n: usize) -> (r: bool)
    requires
        n < dirs@.len(),
    ensures
        r == first_visit(dirs@, n as int),
{
    let mut i: usize = 0;
    while i < n
        invariant
            i <= n < dirs@.len(),
            forall|j: int|
                0 <= j < i ==> components((#[trigger] dirs@[j]).path@) != components(
                    dirs@[n as int].path@,
                ),
        decreases n - i,
    {
        if same_path(dirs[i].path.as_str(), dirs[n].path.as_str()) {
            return false;
        }
        i += 1;
    }
    true
}

fn insert_by_name(sorted: &mut Vec<Module>, m: Module)
    ensures
        module_views(final(sorted)@) == module_views(old(sorted)@).insert(
            place_of(module_views(old(sorted)@), module_view(m)),
            module_view(m),
        ),
{
    let ghost all = module_views(sorted@);
    let ghost mv = module_view(m);
    let mut p: usize = sorted.len();
    assert(all.take(p as int) =~= all);
    while p > 0 && comes_before(m.display_name.as_str(), sorted[p - 1].display_name.as_str())
        invariant
            p <= sorted@.len(),
            all == module_views(sorted@),
            mv == module_view(m),
            place_of(all, mv) == place_of(all.take(p as int), mv),
        decreases p,
    {
        assert(all.take(p as int).drop_last() =~= all.take(p - 1));
        assert(all[p - 1] == module_view(sorted@[p - 1]));
        p -= 1;
    }
    assert(p > 0 ==> all[p - 1] == module_view(sorted@[p - 1]));
    sorted.insert(p, m);
    assert(module_views(sorted@) =~= all.insert(p as int, mv));
}

} // verus!
