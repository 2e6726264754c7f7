//! Paths as text: joining, taking apart and naming files, with `/` between components.
use vstd::prelude::*;

use crate::lists::{lemma_filter_step, lemma_no_items};
use crate::text::{
    chars_of, ends_with, find_last, join, same_text, split_on, starts_with, text_of,
};
use crate::text::{joined, last_index, opt_view, pieces_of, views};

verus! {

/// Whether a path begins at the root.
pub open spec fn absolute(path: Seq<char>) -> bool {
    path.len() > 0 && path[0] == '/'
}

/// A path below another one; an absolute path stands for itself.
pub open spec fn path_below(base: Seq<char>, part: Seq<char>) -> Seq<char> {
    if absolute(part) {
        part
    } else if base.len() == 0 || base.last() == '/' {
        base + part
    } else {
        base.push('/') + part
    }
}

/// Whether a path begins at the root.
pub fn is_absolute(path: &str) -> (r: bool)
    ensures
        r == absolute(path@),
{
    proof {
        reveal_strlit("/");
        assert("/"@ =~= seq!['/']);
        if path@.len() > 0 {
            assert(path@.take(1) =~= seq![path@[0]]);
        }
    }
    if starts_with(path, "/") {
        proof {
            assert(path@.take(1)[0] == '/');
        }
        true
    } else {
        false
    }
}

/// A path below another one; an absolute path stands for itself.
pub fn join_path(base: &str, part: &str) -> (r: String)
    ensures
        r@ == path_below(base@, part@),
{
    if is_absolute(part) {
        return part.to_owned();
    }
    let mut out = base.to_owned();
    proof {
        reveal_strlit("/");
        assert("/"@ =~= seq!['/']);
        if base@.len() > 0 {
            assert(base@.skip(base@.len() - 1) =~= seq![base@.last()]);
        }
    }
    if base.is_empty() {
        out.push_str(part);
        return out;
    }
    if ends_with(base, "/") {
        proof {
            assert(base@.skip(base@.len() - 1)[0] == '/');
        }
        out.push_str(part);
        return out;
    }
    out.push('/');
    out.push_str(part);
    out
}

/// Whether a piece between two separators is a component of its own.
pub open spec fn is_component(piece: Seq<char>) -> bool {
    piece.len() > 0 && piece != "."@
}

/// The components of a path: the root, if it begins there, and the names between separators.
/// A dot is one only at the beginning.
pub open spec fn components_of(path: Seq<char>) -> Seq<Seq<char>> {
    let pieces = pieces_of(path, '/');
    let names = pieces.filter(|piece: Seq<char>| is_component(piece));
    if absolute(path) {
        seq!["/"@] + names
    } else if pieces.len() > 0 && pieces[0] == "."@ {
        seq!["."@] + names
    } else {
        names
    }
}

/// The components of a path.
pub fn components(path: &str) -> (r: Vec<String>)
    ensures
        views(r@) == components_of(path@),
{
    let pieces = split_on(path, '/');
    let ghost all = views(pieces@);
    let ghost pred = |piece: Seq<char>| is_component(piece);
    let mut out: Vec<String> = Vec::new();
    if is_absolute(path) {
        out.push("/".to_owned());
        proof {
            assert(views(out@) =~= seq!["/"@]);
        }
    } else if pieces.len() > 0 && same_text(pieces[0].as_str(), ".") {
        proof {
            assert(all[0] == pieces@[0]@);
        }
        out.push(".".to_owned());
        proof {
            assert(views(out@) =~= seq!["."@]);
        }
    } else {
        proof {
            if all.len() > 0 {
                assert(all[0] == pieces@[0]@);
            }
            assert(views(out@) =~= Seq::<Seq<char>>::empty());
        }
    }
    let ghost head = views(out@);
    let mut i: usize = 0;
    proof {
        lemma_no_items(all);
        assert(head + Seq::<Seq<char>>::empty() =~= head);
    }
    while i < pieces.len()
        invariant
            all == views(pieces@),
            i <= pieces@.len(),
            pred == (|piece: Seq<char>| is_component(piece)),
            views(out@) == head + all.take(i as int).filter(pred),
        decreases pieces@.len() - i,
    {
        proof {
            assert(all[i as int] == pieces@[i as int]@);
            lemma_filter_step(all, i as int, pred);
        }
        let ghost before = views(out@);
        if !pieces[i].as_str().is_empty() && !same_text(pieces[i].as_str(), ".") {
            out.push(pieces[i].clone());
            proof {
                assert(views(out@) =~= before.push(all[i as int]));
                assert(views(out@) =~= head + all.take(i + 1).filter(pred));
            }
        }
        i += 1;
    }
    proof {
        assert(head + all.filter(pred) =~= components_of(path@));
    }
    out
}

/// What leads from a base to a path below it, as names between separators; `None` where the
/// path is not below the base.
pub open spec fn path_from(path: Seq<char>, base: Seq<char>) -> Option<Seq<char>> {
    let whole = components_of(path);
    let start = components_of(base);
    if start.len() <= whole.len() && whole.take(start.len() as int) == start {
        Some(joined(whole.skip(start.len() as int), seq!['/']))
    } else {
        None
    }
}

/// What leads from a base to a path below it.
pub fn relative_to(path: &str, base: &str) -> (r: Option<String>)
    ensures
        opt_view(r) == path_from(path@, base@),
{
    let whole = components(path);
    let start = components(base);
    let ghost all = components_of(path@);
    let ghost prefix = components_of(base@);
    proof {
        assert(all.len() == whole@.len());
        assert(prefix.len() == start@.len());
    }
    if start.len() > whole.len() {
        return None;
    }
    let mut i: usize = 0;
    while i < start.len()
        invariant
            views(whole@) == all,
            views(start@) == prefix,
            all == components_of(path@),
            prefix == components_of(base@),
            i <= start@.len() <= whole@.len(),
            forall|j: int| 0 <= j < i ==> all[j] == prefix[j],
        ensures
            i == start@.len(),
            forall|j: int| 0 <= j < i ==> all[j] == prefix[j],
        decreases start@.len() - i,
    {
        proof {
            assert(all[i as int] == whole@[i as int]@);
            assert(prefix[i as int] == start@[i as int]@);
        }
        if !same_text(whole[i].as_str(), start[i].as_str()) {
            proof {
                assert(prefix.len() == start@.len());
                assert(all.take(prefix.len() as int)[i as int] != prefix[i as int]);
            }
            return None;
        }
        i += 1;
    }
    proof {
        assert(all.take(prefix.len() as int) =~= prefix);
        reveal_strlit("/");
        assert("/"@ =~= seq!['/']);
    }
    let mut rest: Vec<String> = Vec::new();
    while i < whole.len()
        invariant
            views(whole@) == all,
            start@.len() <= i <= whole@.len(),
            views(rest@) == all.subrange(start@.len() as int, i as int),
        decreases whole@.len() - i,
    {
        let ghost before = views(rest@);
        rest.push(whole[i].clone());
        proof {
            assert(all[i as int] == whole@[i as int]@);
            assert(views(rest@) =~= before.push(all[i as int]));
            assert(views(rest@) =~= all.subrange(start@.len() as int, i + 1));
        }
        i += 1;
    }
    proof {
        assert(all.subrange(start@.len() as int, all.len() as int) =~= all.skip(
            start@.len() as int,
        ));
    }
    Some(join(&rest, "/"))
}

/// The name of the file that a path leads to: its last component, where that is a name.
pub open spec fn name_of(path: Seq<char>) -> Option<Seq<char>> {
    let parts = components_of(path);
    if parts.len() == 0 || parts.last() == "/"@ || parts.last() == "."@ || parts.last() == ".."@ {
        None
    } else {
        Some(parts.last())
    }
}

/// The name of the file that a path leads to.
pub fn file_name(path: &str) -> (r: Option<String>)
    ensures
        opt_view(r) == name_of(path@),
{
    let parts = components(path);
    let n: usize = parts.len();
    if n == 0 {
        return None;
    }
    proof {
        assert(components_of(path@).last() == parts@[n - 1]@);
    }
    let last = parts[n - 1].as_str();
    if same_text(last, "/") || same_text(last, ".") || same_text(last, "..") {
        None
    } else {
        Some(parts[n - 1].clone())
    }
}

/// The extension of a file name: what follows its last dot, where something stands before it.
pub open spec fn extension_of(name: Seq<char>) -> Option<Seq<char>> {
    match last_index(name, '.') {
        Some(i) => if i > 0 && name != ".."@ {
            Some(name.skip(i as int + 1))
        } else {
            None
        },
        None => None,
    }
}

/// A file name without its extension.
pub open spec fn stem_of(name: Seq<char>) -> Seq<char> {
    match extension_of(name) {
        Some(extension) => name.take(name.len() - extension.len() - 1),
        None => name,
    }
}

/// A file name in two parts: without its extension, and the extension where it has one.
pub fn split_extension(name: &str) -> (r: (String, Option<String>))
    ensures
        r.0@ == stem_of(name@),
        opt_view(r.1) == extension_of(name@),
{
    let chars = chars_of(name);
    let total: usize = chars.len();
    if !same_text(name, "..") {
        if let Some(i) = find_last(&chars, '.') {
            if i > 0 {
                proof {
                    assert(i < chars@.len());
                    assert(chars@.subrange(0, i as int) =~= name@.take(i as int));
                    assert(chars@.subrange(i + 1, chars@.len() as int) =~= name@.skip(i + 1));
                }
                return (text_of(&chars, 0, i), Some(text_of(&chars, i + 1, total)));
            }
        }
    }
    (name.to_owned(), None)
}

/// Where a copy of a file goes inside a backup directory: to the place that it has below the
/// home directory, or else under its own name.
pub open spec fn backup_place(
    path: Seq<char>,
    home: Seq<char>,
    backup_dir: Seq<char>,
    fallback: Seq<char>,
) -> Seq<char> {
    let place = match path_from(path, home) {
        Some(below) => below,
        None => match name_of(path) {
            Some(name) => name,
            None => fallback,
        },
    };
    path_below(backup_dir, place)
}

/// Where a copy of a file goes inside a backup directory.
pub fn backup_path(path: &str, home: &str, backup_dir: &str, fallback: &str) -> (r: String)
    ensures
        r@ == backup_place(path@, home@, backup_dir@, fallback@),
{
    let place = match relative_to(path, home) {
        Some(below) => below,
        None => match file_name(path) {
            Some(name) => name,
            None => fallback.to_owned(),
        },
    };
    join_path(backup_dir, place.as_str())
}

} // verus!
