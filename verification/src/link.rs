//! Links to content-addressed files, of the form `/ipfs/` and a hash.

use vstd::prelude::*;
use vstd::string::StrSliceExecFns;

verus! {

/// The number of characters in the prefix `/ipfs/`.
pub const PREFIX_LEN: usize = 6;

/// The prefix that every link starts with: `/ipfs/`.
pub open spec fn ipfs_prefix() -> Seq<char> {
    seq!['/', 'i', 'p', 'f', 's', '/']
}

/// Whether the prefix stands in `link` at the position `at`.
pub open spec fn prefix_at(link: Seq<char>, at: int) -> bool {
    0 <= at && at + PREFIX_LEN <= link.len() && link.subrange(at, at + PREFIX_LEN)
        == ipfs_prefix()
}

/// What is left of `link` once the prefix was taken from its start as often
/// as it stands there.
pub open spec fn without_prefixes(link: Seq<char>) -> Seq<char>
    decreases link.len(),
{
    if prefix_at(link, 0) {
        without_prefixes(link.subrange(PREFIX_LEN as int, link.len() as int))
    } else {
        link
    }
}

/// Whether the prefix stands in `link`, which has `len` characters, at the
/// position `at`.
fn has_prefix_at(link: &str, len: usize, at: usize) -> (found: bool)
    requires
        len == link@.len(),
        at <= len,
    ensures
        found == prefix_at(link@, at as int),
{
    if len - at < PREFIX_LEN {
        false
    } else {
        let found = link.get_char(at) == '/' && link.get_char(at + 1) == 'i' && link.get_char(
            at + 2,
        ) == 'p' && link.get_char(at + 3) == 'f' && link.get_char(at + 4) == 's' && link.get_char(
            at + 5,
        ) == '/';
        proof {
            let part = link@.subrange(at as int, at + PREFIX_LEN);
            assert(part[0] == link@[at as int]);
            assert(part[1] == link@[at + 1]);
            assert(part[2] == link@[at + 2]);
            assert(part[3] == link@[at + 3]);
            assert(part[4] == link@[at + 4]);
            assert(part[5] == link@[at + 5]);
            if found {
                assert(part =~= ipfs_prefix());
            }
        }
        found
    }
}

/// The path of the file that `link` names: the link without the prefix
/// `/ipfs/`, which is taken from its start as often as it stands there.
/// There is none where the link does not start with the prefix.
pub fn ipfs_path(link: &str) -> (path: Option<&str>)
    ensures
        path is Some <==> prefix_at(link@, 0),
        path matches Some(rest) ==> rest@ == without_prefixes(link@),
{
    let len = link.unicode_len();
    if !has_prefix_at(link, len, 0) {
        return None;
    }
    let mut from: usize = 0;
    assert(link@.subrange(0, len as int) =~= link@);
    while has_prefix_at(link, len, from)
        invariant
            len == link@.len(),
            from <= len,
            without_prefixes(link@.subrange(from as int, len as int)) == without_prefixes(link@),
        decreases len - from,
    {
        proof {
            let rest = link@.subrange(from as int, len as int);
            assert(rest.subrange(0, PREFIX_LEN as int) =~= link@.subrange(
                from as int,
                from + PREFIX_LEN,
            ));
            assert(rest.subrange(PREFIX_LEN as int, rest.len() as int) =~= link@.subrange(
                from + PREFIX_LEN,
                len as int,
            ));
        }
        from = from + PREFIX_LEN;
    }
    proof {
        let rest = link@.subrange(from as int, len as int);
        if prefix_at(rest, 0) {
            assert(rest.subrange(0, PREFIX_LEN as int) =~= link@.subrange(
                from as int,
                from + PREFIX_LEN,
            ));
        }
    }
    Some(link.substring_char(from, len))
}

} // verus!
