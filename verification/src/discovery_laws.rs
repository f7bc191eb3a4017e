//! Which directories are found, told by what stands in them.

use crate::discovery::{
    by_name, content_has_backend, declares_backend, file_declares, is_listed, is_skipped, kind_of,
    listed, module_at, modules_are_the_listed_directories, names_down_to, FoundDir, SearchView,
};
use crate::module::ModuleKind;
use crate::paths::components;
use crate::text::{begins, holds, lines, stands_at, trim};
use crate::text_laws::{
    a_line_is_found, holding_is_transitive, is_blank, is_tight, lacks, lines_stand_in_the_text,
    trimmed_text_stands_in_the_text, trimming_keeps_the_text,
};
use vstd::prelude::*;

verus! {

/// The line that opens a backend block, whatever the backend is called.
pub open spec fn backend_line(name: Seq<char>) -> Seq<char> {
    "backend \""@ + name + "\" {"@
}

/// Whether a file is readable and has a line that opens a backend block, with
/// nothing but white space around it.
pub open spec fn opens_backend(
    content: Seq<char>,
    before: Seq<char>,
    indent: Seq<char>,
    name: Seq<char>,
    trail: Seq<char>,
    after: Seq<char>,
) -> bool {
    &&& content == before + (indent + backend_line(name) + trail) + after
    &&& before.len() == 0 || before.last() == '\n'
    &&& after.len() == 0 || after[0] == '\n'
    &&& is_blank(indent)
    &&& is_blank(trail)
    &&& lacks(indent, '\n')
    &&& lacks(name, '\n')
    &&& lacks(trail, '\n')
}

/// A file with a line that opens a backend block makes its directory a root
/// module: whatever the backend is called, and wherever in the file the line is.
pub proof fn any_backend_makes_a_root_module(
    d: FoundDir,
    f: int,
    before: Seq<char>,
    indent: Seq<char>,
    name: Seq<char>,
    trail: Seq<char>,
    after: Seq<char>,
)
    requires
        0 <= f < d.tf_files@.len(),
        d.tf_files@[f] is Some,
        opens_backend((d.tf_files@[f]->0)@, before, indent, name, trail, after),
    ensures
        content_has_backend((d.tf_files@[f]->0)@),
        kind_of(d) == Some(ModuleKind::Root),
{
    let content = (d.tf_files@[f]->0)@;
    let core = backend_line(name);
    let l = indent + core + trail;
    reveal_strlit("backend \"");
    reveal_strlit("\" {");
    reveal_strlit("backend ");
    assert(is_tight(core)) by {
        assert(core[0] == 'b');
        assert(core.last() == '{');
    }
    assert(lacks(l, '\n')) by {
        assert forall|i: int| 0 <= i < l.len() implies (#[trigger] l[i]) != '\n' by {
            if i < indent.len() {
                assert(l[i] == indent[i]);
            } else if i < indent.len() + core.len() {
                let j = i - indent.len();
                assert(l[i] == core[j]);
                if 9 <= j < 9 + name.len() {
                    assert(core[j] == name[j - 9]);
                }
            } else {
                assert(l[i] == trail[i - indent.len() - core.len()]);
            }
        }
    }
    let i = a_line_is_found(before, l, after);
    let found = lines(content)[i];
    trimming_keeps_the_text(indent, core, trail);
    if found != l {
        if trail.len() == 0 {
            assert(l.last() == core.last());
        } else {
            let short = trail.drop_last();
            assert forall|j: int| 0 <= j < short.len() implies crate::text::is_white_space(
                #[trigger] short[j],
            ) by {
                assert(short[j] == trail[j]);
            }
            assert(l.drop_last() =~= indent + core + short);
            trimming_keeps_the_text(indent, core, short);
        }
    }
    assert(trim(found) == core);
    assert(core.take(8) =~= "backend "@);
    assert(declares_backend(lines(content)[i]));
    assert(content_has_backend(content));
    assert(file_declares(d.tf_files@[f]));
}

/// A directory with terraform files and a lock file, a state file or a state
/// directory is a root module, whatever the files say.
pub proof fn a_signal_makes_a_root_module(d: FoundDir)
    requires
        d.tf_files@.len() > 0,
        d.has_lock_file || d.has_state_file || d.has_state_dir,
    ensures
        kind_of(d) == Some(ModuleKind::Root),
{
}

/// A directory without terraform files is no module, whatever else is in it.
pub proof fn no_files_no_module(d: FoundDir)
    requires
        d.tf_files@.len() == 0,
    ensures
        kind_of(d) is None,
{
}

/// A directory with terraform files, but with no lock file, no state, and no
/// word of a backend in any file that can be read, is a library.
pub proof fn nothing_but_files_makes_a_library(d: FoundDir)
    requires
        d.tf_files@.len() > 0,
        !d.has_lock_file,
        !d.has_state_file,
        !d.has_state_dir,
        forall|f: int|
            0 <= f < d.tf_files@.len() && (#[trigger] d.tf_files@[f]) is Some ==> !holds(
                (d.tf_files@[f]->0)@,
                "backend"@,
            ),
    ensures
        kind_of(d) == Some(ModuleKind::Library),
{
    assert forall|f: int| 0 <= f < d.tf_files@.len() implies !file_declares(
        #[trigger] d.tf_files@[f],
    ) by {
        if file_declares(d.tf_files@[f]) {
            backends_are_named((d.tf_files@[f]->0)@);
        }
    }
}

proof fn backends_are_named(content: Seq<char>)
    requires
        content_has_backend(content),
    ensures
        holds(content, "backend"@),
{
    reveal_strlit("backend");
    reveal_strlit("backend ");
    reveal_strlit("backend{");
    let i = choose|i: int|
        0 <= i < lines(content).len() && declares_backend(#[trigger] lines(content)[i]);
    let l = lines(content)[i];
    let t = trim(l);
    assert(t.len() >= 7 && t.subrange(0, 7) =~= "backend"@) by {
        if begins(t, "backend "@) {
            assert(t.subrange(0, 7) =~= t.take(8).take(7));
            assert("backend "@.take(7) =~= "backend"@);
        } else {
            assert("backend{"@.take(7) =~= "backend"@);
            assert(t.subrange(0, 7) =~= t.take(7));
        }
    }
    assert(stands_at(t, "backend"@, 0));
    lines_stand_in_the_text(content, i);
    trimmed_text_stands_in_the_text(l);
    holding_is_transitive(content, l, t);
    holding_is_transitive(content, t, "backend"@);
}

/// Whether some module of a search has this path.
pub open spec fn finds(dirs: Seq<FoundDir>, s: SearchView, path: Seq<char>, kind: ModuleKind) -> bool {
    exists|k: int|
        0 <= k < by_name(listed(dirs, dirs.len() as int, s)).len() && (
        #[trigger] by_name(listed(dirs, dirs.len() as int, s))[k]).path == path && by_name(
            listed(dirs, dirs.len() as int, s),
        )[k].kind == kind
}

/// A directory that is a root module is found, and one that is a library is found
/// exactly where libraries are shown: if no directory on its path is to be
/// skipped, and it was not seen before.
pub proof fn a_module_directory_is_found(dirs: Seq<FoundDir>, s: SearchView, i: int)
    requires
        0 <= i < dirs.len(),
        forall|j: int| 0 <= j < i ==> components((#[trigger] dirs[j]).path@) != components(dirs[i].path@),
        forall|k: int|
            0 <= k < components(dirs[i].path@).len() ==> !s.ignored.contains(
                #[trigger] components(dirs[i].path@)[k],
            ),
    ensures
        kind_of(dirs[i]) == Some(ModuleKind::Root) ==> finds(
            dirs,
            s,
            dirs[i].path@,
            ModuleKind::Root,
        ),
        kind_of(dirs[i]) == Some(ModuleKind::Library) && s.show_library ==> finds(
            dirs,
            s,
            dirs[i].path@,
            ModuleKind::Library,
        ),
{
    let path = dirs[i].path@;
    let names = names_down_to(s.root, path);
    let all = components(path);
    assert(!is_skipped(s.root, path, s.ignored)) by {
        assert forall|k: int| 0 <= k < names.len() implies !s.ignored.contains(
            #[trigger] names[k],
        ) by {
            let at = k + all.len() - names.len();
            assert(names[k] == all[at]);
            assert(!s.ignored.contains(all[at]));
        }
    }
    if kind_of(dirs[i]) is Some && (kind_of(dirs[i])->0 == ModuleKind::Root || s.show_library) {
        let m = module_at(dirs[i], s.root);
        assert(is_listed(dirs, i, s));
        modules_are_the_listed_directories(dirs, s, m);
        let r = by_name(listed(dirs, dirs.len() as int, s));
        let k = choose|k: int| 0 <= k < r.len() && r[k] == m;
        assert(r[k].path == path);
    }
}

/// Nothing is found that no directory of the search is: every module found has
/// the path of a directory with terraform files, and it is a root module unless
/// libraries are shown. No directory is found from which an ignored name leads
/// up to the root, both included.
pub proof fn only_module_directories_are_found(dirs: Seq<FoundDir>, s: SearchView, k: int)
    requires
        0 <= k < by_name(listed(dirs, dirs.len() as int, s)).len(),
    ensures
        ({
            let m = by_name(listed(dirs, dirs.len() as int, s))[k];
            &&& exists|i: int|
                0 <= i < dirs.len() && (#[trigger] dirs[i]).path@ == m.path
                    && dirs[i].tf_files@.len() > 0 && kind_of(dirs[i]) == Some(m.kind)
            &&& m.kind == ModuleKind::Library ==> s.show_library
            &&& forall|j: int|
                components(s.root).len() - 1 <= j < components(m.path).len() && 0 <= j
                    ==> !s.ignored.contains(#[trigger] components(m.path)[j])
        }),
{
    let r = by_name(listed(dirs, dirs.len() as int, s));
    let m = r[k];
    assert(r.contains(m));
    modules_are_the_listed_directories(dirs, s, m);
    let i = choose|i: int|
        0 <= i < dirs.len() && #[trigger] is_listed(dirs, i, s) && m == module_at(dirs[i], s.root);
    assert(dirs[i].path@ == m.path);
    let all = components(m.path);
    let names = names_down_to(s.root, m.path);
    assert forall|j: int|
        components(s.root).len() - 1 <= j < all.len() && 0 <= j implies !s.ignored.contains(
        #[trigger] all[j],
    ) by {
        let from = all.len() - names.len();
        assert(names[j - from] == all[j]);
    }
}

} // verus!
