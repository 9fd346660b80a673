//! The policy that decides which request paths may be looked up at all, and
//! the names that a path is looked up by.

use vstd::prelude::*;
use vstd::slice::{slice_subrange, slice_to_vec};
use vstd::string::StringSliceAdditionalSpecFns;
use crate::bytes::{
    contains,
    find,
    find_bytes,
    lemma_find_sound,
    lemma_occurrence_has_first,
    occurs_at,
};

verus! {

/// A path that is refused for its looks alone: one that does not begin
/// with a slash, or holds two slashes in a row, or a backslash.
pub open spec fn refused_outright(path: Seq<u8>) -> bool {
    ||| path.len() == 0
    ||| path[0] != 47
    ||| contains(path, seq![47u8, 47u8])
    ||| contains(path, seq![92u8])
}

/// A path that names a directory: one that ends in a slash.
pub open spec fn directory_style(path: Seq<u8>) -> bool {
    path.len() > 0 && path.last() == 47
}

/// A path without the slash at its start and the slash at its end.
pub open spec fn inner(path: Seq<u8>) -> Seq<u8> {
    if path.len() > 1 && directory_style(path) {
        path.subrange(1, path.len() - 1)
    } else {
        path.subrange(1, path.len() as int)
    }
}

/// The parts of `text` between its slashes.
pub open spec fn components(text: Seq<u8>) -> Seq<Seq<u8>>
    decreases text.len(),
    via components_decreases
{
    match find(text, seq![47u8]) {
        Some(at) => seq![text.subrange(0, at)] + components(
            text.subrange(at + 1, text.len() as int),
        ),
        None => seq![text],
    }
}

#[via_fn]
proof fn components_decreases(text: Seq<u8>) {
    lemma_find_sound(text, seq![47u8]);
    match find(text, seq![47u8]) {
        Some(at) => {
            assert(occurs_at(text, seq![47u8], at));
        },
        None => {},
    }
}

/// A name that is never looked up: the empty name, and any name that begins
/// with a dot, which covers `.`, `..` and every hidden file or directory.
pub open spec fn hidden(name: Seq<u8>) -> bool {
    name.len() == 0 || name[0] == 46
}

/// One of `names` is never looked up.
pub open spec fn any_hidden(names: Seq<Seq<u8>>) -> bool {
    exists|i: int| 0 <= i < names.len() && hidden(#[trigger] names[i])
}

/// The names that a path is looked up by.
pub struct Plan {
    /// The directories to descend, from the root.
    pub dirs: Vec<Vec<u8>>,
    /// The file to serve from the last of them.
    pub file: Vec<u8>,
    /// Whether the path named a directory.
    pub is_dir: bool,
}

/// A plan as contracts see it.
pub struct PlanView {
    pub dirs: Seq<Seq<u8>>,
    pub file: Seq<u8>,
    pub is_dir: bool,
}

/// The byte strings that `names` hold.
pub open spec fn names_view(names: Seq<Vec<u8>>) -> Seq<Seq<u8>> {
    Seq::new(names.len(), |i: int| names[i]@)
}

impl View for Plan {
    type V = PlanView;

    open spec fn view(&self) -> PlanView {
        PlanView { dirs: names_view(self.dirs@), file: self.file@, is_dir: self.is_dir }
    }
}

/// The names that `path` is looked up by, unless it is refused: outright,
/// or for a hidden name among its components. A path that names a
/// directory stands for the `index.html` in it.
pub open spec fn planned(path: Seq<u8>) -> Option<PlanView> {
    if refused_outright(path) {
        None
    } else if inner(path).len() == 0 {
        Some(
            PlanView {
                dirs: Seq::empty(),
                file: "index.html".spec_bytes(),
                is_dir: directory_style(path),
            },
        )
    } else if any_hidden(components(inner(path))) {
        None
    } else if directory_style(path) {
        Some(
            PlanView {
                dirs: components(inner(path)),
                file: "index.html".spec_bytes(),
                is_dir: true,
            },
        )
    } else {
        Some(
            PlanView {
                dirs: components(inner(path)).drop_last(),
                file: components(inner(path)).last(),
                is_dir: false,
            },
        )
    }
}

/// Whether `path` is refused for its looks alone.
pub fn refused(path: &[u8]) -> (refused: bool)
    ensures
        refused == refused_outright(path@),
{
    if path.len() == 0 || path[0] != 47 {
        return true;
    }
    let slashes: [u8; 2] = [47, 47];
    let backslash: [u8; 1] = [92];
    assert(slashes@ =~= seq![47u8, 47u8]);
    assert(backslash@ =~= seq![92u8]);
    proof {
        lemma_find_sound(path@, slashes@);
        lemma_find_sound(path@, backslash@);
    }
    find_bytes(path, slashes.as_slice()).is_some() || find_bytes(
        path,
        backslash.as_slice(),
    ).is_some()
}

fn is_hidden(name: &[u8]) -> (is: bool)
    ensures
        is == hidden(name@),
{
    name.len() == 0 || name[0] == 46
}

/// The names that `path` is looked up by, unless it is refused.
pub fn plan(path: &[u8]) -> (plan: Option<Plan>)
    ensures
        match plan {
            Some(plan) => planned(path@) == Some(plan@),
            None => planned(path@) is None,
        },
{
    if refused(path) {
        return None;
    }
    let len = path.len();
    let is_dir = path[len - 1] == 47;
    let text = if len > 1 && is_dir {
        slice_subrange(path, 1, len - 1)
    } else {
        slice_subrange(path, 1, len)
    };
    if text.len() == 0 {
        let plan = Plan { dirs: Vec::new(), file: slice_to_vec("index.html".as_bytes()), is_dir };
        assert(plan@.dirs =~= Seq::<Seq<u8>>::empty());
        return Some(plan);
    }
    let slash: [u8; 1] = [47];
    assert(slash@ =~= seq![47u8]);
    let mut dirs: Vec<Vec<u8>> = Vec::new();
    let mut rest = text;
    assert(names_view(dirs@) =~= Seq::<Seq<u8>>::empty());
    loop
        invariant_except_break
            components(text@) == names_view(dirs@) + components(rest@),
        invariant
            slash@ == seq![47u8],
            !refused_outright(path@),
            text@ == inner(path@),
            text@.len() > 0,
            !any_hidden(names_view(dirs@)),
        ensures
            components(text@) == names_view(dirs@),
            dirs@.len() > 0,
            !any_hidden(names_view(dirs@)),
        decreases rest@.len(),
    {
        let ghost before = names_view(dirs@);
        match find_bytes(rest, slash.as_slice()) {
            Some(at) => {
                proof {
                    lemma_find_sound(rest@, slash@);
                    assert(occurs_at(rest@, slash@, at as int));
                    assert(slash@.len() == 1);
                }
                let name = slice_subrange(rest, 0, at);
                if is_hidden(name) {
                    proof {
                        let all = components(text@);
                        assert(all[before.len() as int] == name@);
                        assert(hidden(all[before.len() as int]));
                    }
                    return None;
                }
                dirs.push(slice_to_vec(name));
                let end = rest.len();
                rest = slice_subrange(rest, at + 1, end);
                proof {
                    assert(names_view(dirs@) =~= before.push(name@));
                    assert(before.push(name@) + components(rest@) =~= before + (seq![name@]
                        + components(rest@)));
                    lemma_none_hidden_push(before, name@);
                }
            },
            None => {
                if is_hidden(rest) {
                    proof {
                        let all = components(text@);
                        assert(all[before.len() as int] == rest@);
                        assert(hidden(all[before.len() as int]));
                    }
                    return None;
                }
                dirs.push(slice_to_vec(rest));
                proof {
                    assert(names_view(dirs@) =~= before.push(rest@));
                    assert(before.push(rest@) =~= before + seq![rest@]);
                    lemma_none_hidden_push(before, rest@);
                }
                break ;
            },
        }
    }
    if is_dir {
        Some(Plan { dirs, file: slice_to_vec("index.html".as_bytes()), is_dir })
    } else {
        let ghost all = names_view(dirs@);
        let file = dirs.pop().unwrap();
        assert(names_view(dirs@) =~= all.drop_last());
        Some(Plan { dirs, file, is_dir })
    }
}

proof fn lemma_none_hidden_push(names: Seq<Seq<u8>>, name: Seq<u8>)
    requires
        !any_hidden(names),
        !hidden(name),
    ensures
        !any_hidden(names.push(name)),
{
    if any_hidden(names.push(name)) {
        let longer = names.push(name);
        let i = choose|i: int| 0 <= i < longer.len() && hidden(#[trigger] longer[i]);
        if i < names.len() {
            assert(hidden(names[i]));
        }
    }
}

/// A text that begins with a dot has a hidden component: its first.
proof fn lemma_leading_dot_hidden(text: Seq<u8>)
    requires
        text.len() > 0,
        text[0] == 46,
    ensures
        any_hidden(components(text)),
{
    lemma_find_sound(text, seq![47u8]);
    let names = components(text);
    match find(text, seq![47u8]) {
        Some(at) => {
            assert(occurs_at(text, seq![47u8], at));
            assert(text.subrange(at, at + 1)[0] == 47);
            assert(names[0] == text.subrange(0, at));
            assert(hidden(names[0]));
        },
        None => {
            assert(hidden(names[0]));
        },
    }
}

/// A text in which a dot follows a slash has a hidden component: the one
/// that begins with that dot.
proof fn lemma_slash_dot_hidden(text: Seq<u8>, at: int)
    requires
        occurs_at(text, seq![47u8, 46u8], at),
    ensures
        any_hidden(components(text)),
    decreases text.len(),
{
    let pair = seq![47u8, 46u8];
    let slash = seq![47u8];
    assert(text.subrange(at, at + 2)[0] == 47 && text.subrange(at, at + 2)[1] == 46);
    assert(text.subrange(at, at + 1) =~= slash);
    lemma_occurrence_has_first(text, slash, at);
    let first = find(text, slash)->0;
    let rest = text.subrange(first + 1, text.len() as int);
    let names = components(text);
    assert(names == seq![text.subrange(0, first)] + components(rest));
    if first == at {
        lemma_leading_dot_hidden(rest);
    } else {
        assert(rest.subrange(at - first - 1, at - first + 1) =~= text.subrange(at, at + 2));
        lemma_slash_dot_hidden(rest, at - first - 1);
    }
    let others = components(rest);
    let i = choose|i: int| 0 <= i < others.len() && hidden(#[trigger] others[i]);
    assert(names[i + 1] == others[i]);
    assert(hidden(names[i + 1]));
}

/// A path in which a component begins with a dot, as `.`, `..` and the
/// names of hidden files and directories do, is refused; and so is a path
/// that does not begin with a slash, one with two slashes in a row, and
/// one with a backslash.
pub proof fn lemma_unsafe_path_refused(path: Seq<u8>)
    requires
        ({
            ||| contains(path, seq![47u8, 46u8])
            ||| contains(path, seq![47u8, 47u8])
            ||| contains(path, seq![92u8])
            ||| path.len() == 0
            ||| path[0] != 47
        }),
    ensures
        planned(path) is None,
{
    let pair = seq![47u8, 46u8];
    if !refused_outright(path) {
        let at = choose|at: int| occurs_at(path, pair, at);
        assert(path.subrange(at, at + 2)[0] == 47 && path.subrange(at, at + 2)[1] == 46);
        let text = inner(path);
        if at == 0 {
            lemma_leading_dot_hidden(text);
        } else {
            assert(text.subrange(at - 1, at + 1) =~= path.subrange(at, at + 2));
            lemma_slash_dot_hidden(text, at - 1);
        }
    }
}

} // verus!
