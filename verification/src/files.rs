//! Decisions about files on disk that the app makes around its I/O: the path
//! handed to the platform's viewer, and whether a bundled sample file needs
//! copying again.
use vstd::prelude::*;

use crate::library::result_view;
use crate::text::{chars_of, concat2, starts_with_chars, string_from_chars};

verus! {

/// The prefix of a canonical Windows path to a network share: `\\?\UNC\`.
pub open spec fn unc_prefix() -> Seq<char> {
    "\\\\?\\UNC\\"@
}

/// The prefix of any other canonical (verbatim) Windows path: `\\?\`.
pub open spec fn verbatim_prefix() -> Seq<char> {
    "\\\\?\\"@
}

/// The path to open, from the canonical form of an item's path (or the error
/// that resolving it gave). On Windows the verbatim prefix that
/// canonicalisation adds is taken off again: `\\?\UNC\server\share` becomes
/// `\\server\share`, and `\\?\C:\x` becomes `C:\x`. Elsewhere the canonical
/// path is used as it is.
pub open spec fn native_open_path(canonical: Result<Seq<char>, Seq<char>>, windows: bool) -> Result<
    Seq<char>,
    Seq<char>,
> {
    match canonical {
        Err(e) => Err("failed to resolve media path: "@ + e),
        Ok(p) => if windows && unc_prefix().is_prefix_of(p) {
            Ok("\\\\"@ + p.skip(unc_prefix().len() as int))
        } else if windows && verbatim_prefix().is_prefix_of(p) {
            Ok(p.skip(verbatim_prefix().len() as int))
        } else {
            Ok(p)
        },
    }
}

/// The characters of `cs` from position `n` on.
fn skip_chars(cs: &Vec<char>, n: usize) -> (r: Vec<char>)
    requires
        n <= cs@.len(),
    ensures
        r@ == cs@.skip(n as int),
{
    let mut r: Vec<char> = Vec::new();
    let mut i: usize = n;
    while i < cs.len()
        invariant
            n <= i <= cs@.len(),
            r@ == cs@.subrange(n as int, i as int),
        decreases cs.len() - i,
    {
        r.push(cs[i]);
        assert(cs@.subrange(n as int, i + 1) == cs@.subrange(n as int, i as int).push(cs@[i as int]));
        i = i + 1;
    }
    assert(cs@.subrange(n as int, cs@.len() as int) == cs@.skip(n as int));
    r
}

/// The path to hand to the platform's viewer (see `native_open_path`).
pub fn normalize_for_native_open(canonical: Result<String, String>, windows: bool) -> (r: Result<
    String,
    String,
>)
    ensures
        result_view(r) == native_open_path(result_view(canonical), windows),
{
    match canonical {
        Err(e) => Err(concat2("failed to resolve media path: ", e.as_str())),
        Ok(p) => {
            if windows {
                let cs = chars_of(p.as_str());
                let unc = chars_of("\\\\?\\UNC\\");
                if starts_with_chars(&cs, &unc) {
                    assert(unc_prefix().is_prefix_of(p@));
                    let rest = string_from_chars(&skip_chars(&cs, unc.len()));
                    return Ok(concat2("\\\\", rest.as_str()));
                }
                assert(!unc_prefix().is_prefix_of(p@)) by {
                    if unc_prefix().is_prefix_of(p@) {
                        assert(cs@.take(unc@.len() as int) =~= unc@);
                    }
                }
                let verbatim = chars_of("\\\\?\\");
                if starts_with_chars(&cs, &verbatim) {
                    assert(verbatim_prefix().is_prefix_of(p@));
                    return Ok(string_from_chars(&skip_chars(&cs, verbatim.len())));
                }
                assert(!verbatim_prefix().is_prefix_of(p@)) by {
                    if verbatim_prefix().is_prefix_of(p@) {
                        assert(cs@.take(verbatim@.len() as int) =~= verbatim@);
                    }
                }
            }
            Ok(p)
        },
    }
}

/// `Option` order on modification times: a time is later than none, and none
/// is later than nothing.
pub open spec fn modified_later(source: Option<i128>, destination: Option<i128>) -> bool {
    match (source, destination) {
        (Some(s), Some(d)) => s > d,
        (Some(_), None) => true,
        (None, _) => false,
    }
}

/// Whether a sample file is copied over its destination: always when the
/// destination cannot be inspected (`None`); else when the sizes differ or the
/// source was modified later. Times are nanoseconds from the Unix epoch
/// (negative before it), `None` where the platform gives none.
pub open spec fn should_copy(
    destination: Option<(u64, Option<i128>)>,
    source_len: u64,
    source_modified: Option<i128>,
) -> bool {
    match destination {
        None => true,
        Some((len, modified)) => len != source_len || modified_later(source_modified, modified),
    }
}

/// Whether a sample file needs copying (see `should_copy`).
pub fn should_copy_sample(
    destination: Option<(u64, Option<i128>)>,
    source_len: u64,
    source_modified: Option<i128>,
) -> (r: bool)
    ensures
        r == should_copy(destination, source_len, source_modified),
{
    match destination {
        None => true,
        Some((len, modified)) => {
            if len != source_len {
                return true;
            }
            match (source_modified, modified) {
                (Some(s), Some(d)) => s > d,
                (Some(_), None) => true,
                (None, _) => false,
            }
        },
    }
}

} // verus!
