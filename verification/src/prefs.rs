//! Validation of user preferences: the export directory name.

use vstd::prelude::*;

use crate::scenario_node::str_eq;

verus! {

/// A usable export directory name: non-empty, not a relative alias, and
/// a single path component.
pub open spec fn valid_export_dir_name_spec(s: Seq<char>) -> bool {
    &&& s.len() != 0
    &&& s != "."@
    &&& s != ".."@
    &&& !s.contains('/')
}

/// May `path_str` name the directory exported images go to?  Refuses
/// the empty name, the `.` and `..` aliases, and anything spanning more
/// than one path component.
pub fn valid_export_dir_name(path_str: &str) -> (r: bool)
    ensures
        r == valid_export_dir_name_spec(path_str@),
{
    let n = path_str.unicode_len();
    if n == 0 {
        return false;
    }
    if str_eq(path_str, ".") || str_eq(path_str, "..") {
        return false;
    }
    let mut i: usize = 0;
    while i < n
        invariant
            n == path_str@.len(),
            i <= n,
            forall|j: int| 0 <= j < i ==> path_str@[j] != '/',
        decreases n - i,
    {
        if path_str.get_char(i) == '/' {
            return false;
        }
        i = i + 1;
    }
    proof {
        assert(!path_str@.contains('/')) by {
            if path_str@.contains('/') {
                let j = choose|j: int| 0 <= j < path_str@.len() && path_str@[j] == '/';
            }
        }
    }
    true
}

} // verus!
