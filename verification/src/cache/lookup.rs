//! Lookups in the cache: the version of a binary, and a binary of a version.

use vstd::prelude::*;

use crate::cache::read_cache::{cache_view, opt_version_view, Cache};
use crate::cache::{same_version, TypstVersion, VersionView};

verus! {

/// The version recorded for the first entry whose path is `bin`.
pub open spec fn version_for_path(c: Seq<(Seq<char>, VersionView)>, bin: Seq<char>) -> Option<VersionView>
    decreases c.len(),
{
    if c.len() == 0 {
        None
    } else if c[0].0 == bin {
        Some(c[0].1)
    } else {
        version_for_path(c.drop_first(), bin)
    }
}

/// The path of the first entry whose version is the same version as `v`.
pub open spec fn path_for_version(c: Seq<(Seq<char>, VersionView)>, v: VersionView) -> Option<Seq<char>>
    decreases c.len(),
{
    if c.len() == 0 {
        None
    } else if same_version(c[0].1, v) {
        Some(c[0].0)
    } else {
        path_for_version(c.drop_first(), v)
    }
}

/// The version of the binary at `binary`, taken from the first cache entry with exactly
/// that path. Cache paths are canonical, so `binary` should be canonical too.
pub fn version(binary: &str, cache: &Cache) -> (r: Option<TypstVersion>)
    ensures
        opt_version_view(r) == version_for_path(cache_view(cache@), binary@),
{
    let ghost c = cache_view(cache@);
    let wanted = binary.to_owned();
    let mut k: usize = 0;
    assert(c.skip(0) == c);
    while k < cache.len()
        invariant
            k <= cache@.len(),
            c == cache_view(cache@),
            wanted@ == binary@,
            version_for_path(c, binary@) == version_for_path(c.skip(k as int), binary@),
        decreases cache@.len() - k,
    {
        assert(c.skip(k as int)[0] == c[k as int]);
        if cache[k].0 == wanted {
            return Some(cache[k].1.duplicate());
        }
        assert(c.skip(k as int).drop_first() == c.skip(k + 1));
        k = k + 1;
    }
    assert(c.skip(k as int).len() == 0);
    None
}

/// The path of the first cache entry whose version is the same version as `version`.
pub fn binary(version: &TypstVersion, cache: &Cache) -> (r: Option<String>)
    ensures
        match r {
            Some(p) => path_for_version(cache_view(cache@), version@) == Some(p@),
            None => path_for_version(cache_view(cache@), version@) is None,
        },
{
    let ghost c = cache_view(cache@);
    let mut k: usize = 0;
    assert(c.skip(0) == c);
    while k < cache.len()
        invariant
            k <= cache@.len(),
            c == cache_view(cache@),
            path_for_version(c, version@) == path_for_version(c.skip(k as int), version@),
        decreases cache@.len() - k,
    {
        assert(c.skip(k as int)[0] == c[k as int]);
        if cache[k].1.same_as(version) {
            return Some(cache[k].0.clone());
        }
        assert(c.skip(k as int).drop_first() == c.skip(k + 1));
        k = k + 1;
    }
    assert(c.skip(k as int).len() == 0);
    None
}

} // verus!
