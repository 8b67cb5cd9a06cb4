//! Paths as text: joining a relative part onto a directory the way
//! `Path::join` does on Unix.

use vstd::prelude::*;
use crate::text::{chars_of, copy_string, ends_with, ends_with_exec, lit, starts_with, starts_with_exec};

verus! {

/// `base` joined with `part`: an absolute part replaces the base; otherwise
/// a `/` separates the two unless the base is empty or already ends in one.
pub open spec fn join_path(base: Seq<char>, part: Seq<char>) -> Seq<char> {
    if starts_with(part, "/"@) {
        part
    } else if base.len() == 0 || ends_with(base, "/"@) {
        base + part
    } else {
        base + "/"@ + part
    }
}

/// `base` joined with `part` (see `join_path`).
pub fn join_path_exec(base: &str, part: &str) -> (r: String)
    ensures
        r@ == join_path(base@, part@),
{
    let slash = lit("/");
    let b = chars_of(base);
    if starts_with_exec(&chars_of(part), &slash) {
        return String::from_str(part);
    }
    let mut s = String::from_str(base);
    if !(b.len() == 0 || ends_with_exec(&b, &slash)) {
        s.append("/");
    }
    s.append(part);
    s
}

} // verus!
