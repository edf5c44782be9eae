//! Storage paths below the destination root.

use vstd::prelude::*;
use crate::error::ArchiveError;
use crate::text::{chars_from, is_prefix, push_char, starts_with};

verus! {

/// `path` lies below `root`: it starts with `root` followed by `/`.
pub open spec fn under_root(root: Seq<char>, path: Seq<char>) -> bool {
    is_prefix(root.push('/'), path)
}

/// The part of `path` after `root/`.
pub open spec fn path_below_root(root: Seq<char>, path: Seq<char>) -> Seq<char> {
    path.subrange(root.len() + 1int, path.len() as int)
}

/// The part of `path` after `root/`; an error when `path` does not start with `root/`.
pub fn ensure_relative_to_root(root: &str, path: &str) -> (r: Result<String, ArchiveError>)
    ensures
        match r {
            Ok(rel) => under_root(root@, path@) && rel@ == path_below_root(root@, path@),
            Err(e) => !under_root(root@, path@) && (e matches ArchiveError::PathOutsideRoot {
                path: p,
                root: q,
            } && p@ == path@ && q@ == root@),
        },
{
    let mut prefix = root.to_owned();
    push_char(&mut prefix, '/');
    if starts_with(path, prefix.as_str()) {
        Ok(chars_from(path, prefix.as_str().unicode_len()))
    } else {
        Err(ArchiveError::PathOutsideRoot { path: path.to_owned(), root: root.to_owned() })
    }
}

} // verus!
