//! The names of the files that the compiler reads and writes.
use vstd::prelude::*;
use crate::text::{split, split_on, views};

verus! {

/// The file name of a path: its last `/`-separated piece.
pub open spec fn spec_get_name(file: Seq<char>) -> Seq<char> {
    split_on(file, "/"@).last()
}

/// The file name of a path (see `spec_get_name`).
pub fn get_name(file: &String) -> (r: String)
    ensures
        r@ == spec_get_name(file@),
{
    proof {
        reveal_strlit("/");
    }
    let parts = split(file.as_str(), "/");
    assert(views(parts@).len() == parts@.len());
    assert(split_on(file@, "/"@).len() >= 1);
    let last = parts.len() - 1;
    assert(views(parts@)[last as int] == parts@[last as int]@);
    parts[last].clone()
}

/// The extension of a path: the second `.`-separated piece of its file name;
/// none when the file name holds no `.`.
pub open spec fn spec_get_ext(file: Seq<char>) -> Option<Seq<char>> {
    let pieces = split_on(spec_get_name(file), "."@);
    if pieces.len() == 1 {
        None
    } else {
        Some(pieces[1])
    }
}

/// The extension of a path (see `spec_get_ext`).
pub fn get_ext(file: &String) -> (r: Option<String>)
    ensures
        match r {
            Some(e) => spec_get_ext(file@) == Some(e@),
            None => spec_get_ext(file@) is None,
        },
{
    let name = get_name(file);
    proof {
        reveal_strlit(".");
    }
    let pieces = split(name.as_str(), ".");
    assert(views(pieces@).len() == pieces@.len());
    if pieces.len() == 1 {
        return None;
    }
    assert(split_on(name@, "."@).len() >= 1);
    assert(views(pieces@)[1] == pieces@[1]@);
    Some(pieces[1].clone())
}

/// The name of the linked program: the part of the file name before its first `.`.
pub open spec fn spec_bin_name(name: Seq<char>) -> Seq<char> {
    split_on(name, "."@)[0]
}

/// The name of the linked program (see `spec_bin_name`).
pub fn bin_name(name: &String) -> (r: String)
    ensures
        r@ == spec_bin_name(name@),
{
    proof {
        reveal_strlit(".");
    }
    let pieces = split(name.as_str(), ".");
    assert(split_on(name@, "."@).len() >= 1);
    assert(views(pieces@)[0] == pieces@[0]@);
    pieces[0].clone()
}

} // verus!
