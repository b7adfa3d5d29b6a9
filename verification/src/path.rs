//! Paths of files, with `/` between their parts.
use crate::text::{self, chars_index_of, chars_of, chars_skip, chars_take, concat, concat3, same};
use vstd::prelude::*;

verus! {

/// A path below another one. A path that begins at the root stands for itself.
pub open spec fn joined(base: Seq<char>, part: Seq<char>) -> Seq<char> {
    if part.len() > 0 && part[0] == '/' {
        part
    } else if base.len() == 0 || base.last() == '/' {
        base + part
    } else {
        base + "/"@ + part
    }
}

/// A path below another one.
pub fn join_path(base: &str, part: &str) -> (result: String)
    ensures
        result@ == joined(base@, part@),
{
    let base_chars = chars_of(base);
    let part_chars = chars_of(part);
    if part_chars.len() > 0 && part_chars[0] == '/' {
        return text::copy_str(part);
    }
    if base_chars.len() == 0 || base_chars[base_chars.len() - 1] == '/' {
        concat(base, part)
    } else {
        concat3(base, "/", part)
    }
}

/// Whether a path goes nowhere: nothing but separators, and `.` between them.
pub open spec fn goes_nowhere(path: Seq<char>) -> bool
    decreases path.len(),
{
    if path.len() == 0 {
        true
    } else if path[0] == '/' {
        goes_nowhere(path.drop_first())
    } else {
        path[0] == '.' && (path.len() == 1 || path[1] == '/') && goes_nowhere(path.drop_first())
    }
}

/// Whether a path is the name of something in the directory where it begins:
/// one name, and nothing after it that leads anywhere.
pub open spec fn is_simple_name(path: Seq<char>) -> bool {
    let first = path.take(text::index_of(path, '/'));
    &&& first.len() > 0
    &&& first != "."@
    &&& first != ".."@
    &&& goes_nowhere(path.skip(first.len() as int))
}

fn chars_go_nowhere(path: &[char]) -> (result: bool)
    ensures
        result == goes_nowhere(path@),
{
    let mut i: usize = 0;
    let ghost all = path@;
    assert(all.skip(0) =~= all);
    while i < path.len()
        invariant
            i <= path@.len(),
            all == path@,
            goes_nowhere(all) == goes_nowhere(all.skip(i as int)),
        decreases path@.len() - i,
    {
        let ghost rest = all.skip(i as int);
        assert(rest.drop_first() =~= all.skip(i + 1));
        assert(rest[0] == path@[i as int]);
        if path[i] != '/' {
            if path[i] != '.' {
                return false;
            }
            if i + 1 < path.len() {
                assert(rest[1] == path@[i + 1]);
                if path[i + 1] != '/' {
                    return false;
                }
            }
        }
        i += 1;
    }
    true
}

/// Whether a path is one name.
pub fn names_one_thing(path: &str) -> (result: bool)
    ensures
        result == is_simple_name(path@),
{
    let chars = chars_of(path);
    proof {
        text::lemma_index_of(chars@, '/');
    }
    let end = chars_index_of(chars.as_slice(), '/');
    let first = text::string_of(chars_take(chars.as_slice(), end));
    end > 0 && !same(first.as_str(), ".") && !same(first.as_str(), "..") && chars_go_nowhere(
        chars_skip(chars.as_slice(), end),
    )
}

} // verus!
