//! The cache of discovered binaries and its file format.
//!
//! The file is a sequence of NUL-terminated fields taken two at a time: the version
//! (its prefix tag followed by its text) and then the path of the binary.

use vstd::prelude::*;
use vstd::string::StringSliceAdditionalSpecFns;
use vstd::utf8::*;

use crate::text::{chars_of, lemma_decoded_chars, string_from_chars, utf8_str};
use crate::cache::{
    lemma_triplet_text_reads_back, triplet_text,
    prefix_of, prefix_symbol, raw_view, triplet_at, triplet_result_view, triplet_view,
    version_text, TypstVersion, VersionView,
};

verus! {

/// Discovered binaries: each path with the version it reported.
pub type Cache = Vec<(String, TypstVersion)>;

/// A cache as a sequence of (path, version) values.
pub open spec fn cache_view(c: Seq<(String, TypstVersion)>) -> Seq<(Seq<char>, VersionView)> {
    c.map_values(|e: (String, TypstVersion)| (e.0@, e.1@))
}

/// An optional version as a value.
pub open spec fn opt_version_view(v: Option<TypstVersion>) -> Option<VersionView> {
    match v {
        Some(x) => Some(x@),
        None => None,
    }
}

/// The position of the first NUL byte at or after `i`, or the end of `b`.
pub open spec fn nul_from(b: Seq<u8>, i: int) -> int
    decreases b.len() - i,
{
    if 0 <= i < b.len() && b[i] != 0 {
        nul_from(b, i + 1)
    } else {
        i
    }
}

/// `nul_from` stays within the bytes and finds a NUL when it stops early.
pub proof fn lemma_nul_from(b: Seq<u8>, i: int)
    requires
        0 <= i <= b.len(),
    ensures
        i <= nul_from(b, i) <= b.len(),
        nul_from(b, i) < b.len() ==> b[nul_from(b, i)] == 0,
        forall|k: int| i <= k < nul_from(b, i) ==> b[k] != 0,
    decreases b.len() - i,
{
    if i < b.len() && b[i] != 0 {
        lemma_nul_from(b, i + 1);
    }
}

/// One field read from position `i` (which must be before the end): the bytes up to
/// the next NUL and the position after that NUL. When no NUL follows, the field runs to
/// the end, its last byte is dropped, and the position is the end.
pub open spec fn field_at(b: Seq<u8>, i: int) -> (Seq<u8>, int) {
    let j = nul_from(b, i);
    if j < b.len() {
        (b.subrange(i, j), j + 1)
    } else {
        (b.subrange(i, b.len() - 1), b.len() as int)
    }
}

/// The version written in a version field: `r` and a raw name, or `v` and a triplet
/// (anything after the triplet is ignored).
pub open spec fn version_of_chars(s: Seq<char>) -> Option<VersionView> {
    if s.len() > 0 && s[0] == 'r' {
        Some(raw_view(s.drop_first()))
    } else if s.len() > 0 && s[0] == 'v' {
        match triplet_at(s, 1) {
            Ok((a, b, c, _)) => Some(triplet_view(a, b, c)),
            Err(_) => None,
        }
    } else {
        None
    }
}

/// The version held by a field's bytes; invalid UTF-8 holds none.
pub open spec fn version_of_field(b: Seq<u8>) -> Option<VersionView> {
    if valid_utf8(b) {
        version_of_chars(decode_utf8(b))
    } else {
        None
    }
}

/// The path held by a field's bytes; invalid UTF-8 holds none.
pub open spec fn path_of_field(b: Seq<u8>) -> Option<Seq<char>> {
    if valid_utf8(b) {
        Some(decode_utf8(b))
    } else {
        None
    }
}

/// The entries read from position `i` on: a version field then a path field, as long
/// as a path field can be started; a pair is kept when both of its fields can be read.
pub open spec fn cache_entries(b: Seq<u8>, i: int) -> Seq<(Seq<char>, VersionView)>
    decreases b.len() - i,
{
    if i < 0 || i >= b.len() {
        seq![]
    } else {
        let (vb, i2) = field_at(b, i);
        proof {
            lemma_nul_from(b, i);
        }
        if i2 >= b.len() {
            seq![]
        } else {
            let (pb, i3) = field_at(b, i2);
            proof {
                lemma_nul_from(b, i2);
            }
            let rest = cache_entries(b, i3);
            match (version_of_field(vb), path_of_field(pb)) {
                (Some(v), Some(p)) => seq![(p, v)] + rest,
                _ => rest,
            }
        }
    }
}

/// The bytes of one entry: tag and version text, NUL, path, NUL.
pub open spec fn entry_bytes(path: Seq<char>, v: VersionView) -> Seq<u8> {
    encode_utf8(seq![prefix_symbol(prefix_of(v))] + version_text(v)) + seq![0u8] + encode_utf8(
        path,
    ) + seq![0u8]
}

/// The bytes of a whole cache, entry after entry.
pub open spec fn cache_bytes(c: Seq<(Seq<char>, VersionView)>) -> Seq<u8>
    decreases c.len(),
{
    if c.len() == 0 {
        seq![]
    } else {
        entry_bytes(c[0].0, c[0].1) + cache_bytes(c.drop_first())
    }
}

/// Cache bytes of a concatenation are the concatenated cache bytes.
pub proof fn lemma_cache_bytes_append(a: Seq<(Seq<char>, VersionView)>, b: Seq<(Seq<char>, VersionView)>)
    ensures
        cache_bytes(a + b) == cache_bytes(a) + cache_bytes(b),
    decreases a.len(),
{
    if a.len() == 0 {
        assert(a + b == b);
    } else {
        lemma_cache_bytes_append(a.drop_first(), b);
        assert((a + b).drop_first() == a.drop_first() + b);
    }
}

/// The next field from `i`: its start and end, and the position after it.
fn next_field(b: &[u8], i: usize) -> (r: (usize, usize, usize))
    requires
        i < b@.len(),
    ensures
        field_at(b@, i as int).0 == b@.subrange(r.0 as int, r.1 as int),
        field_at(b@, i as int).1 == r.2 as int,
        r.0 == i,
        i <= r.1 <= b@.len(),
        i < r.2 <= b@.len(),
{
    proof {
        lemma_nul_from(b@, i as int);
    }
    let mut j = i;
    while j < b.len() && b[j] != 0
        invariant
            i <= j <= b@.len(),
            nul_from(b@, i as int) == nul_from(b@, j as int),
        decreases b@.len() - j,
    {
        j = j + 1;
    }
    if j < b.len() {
        (i, j, j + 1)
    } else {
        (i, b.len() - 1, b.len())
    }
}

/// Reads the version held by a version field of the cache.
pub fn scan_cache_version(buf: &[u8]) -> (r: Option<TypstVersion>)
    ensures
        opt_version_view(r) == version_of_field(buf@),
{
    let s = match utf8_str(buf) {
        Some(s) => s,
        None => return None,
    };
    proof {
        lemma_decoded_chars(s, buf@);
    }
    let cs = chars_of(s);
    if cs.len() > 0 && cs[0] == 'r' {
        let name = string_from_chars(cs.as_slice(), 1, cs.len());
        assert(cs@.subrange(1, cs@.len() as int) == cs@.drop_first());
        Some(TypstVersion::raw(name))
    } else if cs.len() > 0 && cs[0] == 'v' {
        let t = TypstVersion::parse_triplet(cs.as_slice(), 1);
        match t {
            Ok((a, b, c, _)) => Some(TypstVersion::new(a, b, c)),
            Err(_) => None,
        }
    } else {
        None
    }
}

/// Reads the path held by a path field of the cache.
fn scan_path(buf: &[u8]) -> (r: Option<String>)
    ensures
        match r {
            Some(p) => path_of_field(buf@) == Some(p@),
            None => path_of_field(buf@) is None,
        },
{
    match utf8_str(buf) {
        Some(s) => {
            proof {
                lemma_decoded_chars(s, buf@);
            }
            Some(s.to_owned())
        },
        None => None,
    }
}

/// Reads the cache from the bytes of the cache file.
pub fn decode_cache(bytes: &[u8]) -> (c: Cache)
    ensures
        cache_view(c@) == cache_entries(bytes@, 0),
{
    let mut out: Cache = Vec::new();
    let mut i: usize = 0;
    while i < bytes.len()
        invariant
            i <= bytes@.len(),
            cache_view(out@) + cache_entries(bytes@, i as int) == cache_entries(bytes@, 0),
        decreases bytes@.len() - i,
    {
        let (s1, e1, i2) = next_field(bytes, i);
        if i2 >= bytes.len() {
            assert(cache_entries(bytes@, i as int) == Seq::<(Seq<char>, VersionView)>::empty());
            assert(cache_view(out@) + Seq::<(Seq<char>, VersionView)>::empty() == cache_view(
                out@,
            ));
            return out;
        }
        let (s2, e2, i3) = next_field(bytes, i2);
        let vb = vstd::slice::slice_subrange(bytes, s1, e1);
        let pb = vstd::slice::slice_subrange(bytes, s2, e2);
        let version = scan_cache_version(vb);
        let path = scan_path(pb);
        let ghost before = cache_view(out@);
        match (version, path) {
            (Some(v), Some(p)) => {
                out.push((p, v));
                assert(cache_view(out@) == before.push((p@, v@)));
                assert(before.push((p@, v@)) + cache_entries(bytes@, i3 as int) == before + (seq![
                    (p@, v@),
                ] + cache_entries(bytes@, i3 as int)));
            },
            _ => {},
        }
        i = i3;
    }
    assert(cache_entries(bytes@, i as int) == Seq::<(Seq<char>, VersionView)>::empty());
    assert(cache_view(out@) + Seq::<(Seq<char>, VersionView)>::empty() == cache_view(out@));
    out
}

/// Appends bytes.
fn append_bytes(out: &mut Vec<u8>, b: &[u8])
    ensures
        final(out)@ == old(out)@ + b@,
{
    let mut k: usize = 0;
    while k < b.len()
        invariant
            k <= b@.len(),
            out@ == old(out)@ + b@.take(k as int),
        decreases b@.len() - k,
    {
        out.push(b[k]);
        assert(b@.take(k + 1) == b@.take(k as int).push(b@[k as int]));
        k = k + 1;
    }
    assert(b@.take(k as int) == b@);
}

/// The bytes of the cache file that holds `entries`, in order.
pub fn encode_cache(entries: &[(String, TypstVersion)]) -> (b: Vec<u8>)
    ensures
        b@ == cache_bytes(cache_view(entries@)),
{
    let mut out: Vec<u8> = Vec::new();
    let mut k: usize = 0;
    while k < entries.len()
        invariant
            k <= entries@.len(),
            out@ == cache_bytes(cache_view(entries@).take(k as int)),
        decreases entries@.len() - k,
    {
        let (path, version) = &entries[k];
        let mut field = String::new();
        crate::text::push_char(&mut field, version.get_prefix().symbol());
        let text = version.get_string();
        field.append(text.as_str());
        append_bytes(&mut out, field.as_str().as_bytes());
        out.push(0u8);
        append_bytes(&mut out, path.as_str().as_bytes());
        out.push(0u8);
        proof {
            let cv = cache_view(entries@);
            let one = seq![cv[k as int]];
            lemma_cache_bytes_append(cv.take(k as int), one);
            assert(cv.take(k + 1) == cv.take(k as int) + one);
            assert(one.drop_first() == Seq::<(Seq<char>, VersionView)>::empty());
            assert(cache_bytes(one) == entry_bytes(path@, version@) + cache_bytes(
                Seq::<(Seq<char>, VersionView)>::empty(),
            ));
        }
        k = k + 1;
    }
    assert(cache_view(entries@).take(k as int) == cache_view(entries@));
    out
}


/// No byte of the encoding of a character other than NUL is zero.
proof fn lemma_scalar_no_nul(c: char)
    requires
        c != '\0',
    ensures
        forall|k: int| 0 <= k < encode_scalar(c as u32).len() ==> #[trigger] encode_scalar(c as u32)[k] != 0,
{
    let v = c as u32;
    assert(v != 0);
    assert(forall|x: u32| 1 <= x <= 0x7F ==> ((x & 0x7F) as u8) != 0u8) by (bit_vector);
    assert(forall|y: u8| (0xC0u8 | y) != 0u8) by (bit_vector);
    assert(forall|y: u8| (0xE0u8 | y) != 0u8) by (bit_vector);
    assert(forall|y: u8| (0xF0u8 | y) != 0u8) by (bit_vector);
    assert(forall|y: u8| (0x80u8 | y) != 0u8) by (bit_vector);
}

/// Text without NUL characters encodes to bytes without zero bytes.
proof fn lemma_encode_no_nul(s: Seq<char>)
    requires
        !s.contains('\0'),
    ensures
        forall|k: int| 0 <= k < encode_utf8(s).len() ==> encode_utf8(s)[k] != 0,
    decreases s.len(),
{
    if s.len() > 0 {
        assert(s[0] != '\0') by {
            if s[0] == '\0' {
                assert(s.contains('\0'));
            }
        }
        lemma_scalar_no_nul(s[0]);
        assert(!s.drop_first().contains('\0')) by {
            if s.drop_first().contains('\0') {
                let k = choose|k: int| 0 <= k < s.drop_first().len() && s.drop_first()[k] == '\0';
                assert(s[k + 1] == '\0');
            }
        }
        lemma_encode_no_nul(s.drop_first());
        let e = encode_scalar(s[0] as u32);
        let r = encode_utf8(s.drop_first());
        assert(encode_utf8(s) == e + r);
        assert forall|k: int| 0 <= k < encode_utf8(s).len() implies encode_utf8(s)[k] != 0 by {
            if k < e.len() {
                assert(encode_utf8(s)[k] == e[k]);
            } else {
                assert(encode_utf8(s)[k] == r[k - e.len()]);
            }
        }
    }
}

/// The first NUL from `i` is at `j` when the bytes in between are not NUL.
proof fn lemma_nul_at(b: Seq<u8>, i: int, j: int)
    requires
        0 <= i <= j < b.len(),
        b[j] == 0,
        forall|k: int| i <= k < j ==> b[k] != 0,
    ensures
        nul_from(b, i) == j,
    decreases j - i,
{
    if i < j {
        lemma_nul_from(b, i + 1);
        lemma_nul_at(b, i + 1, j);
    }
}

/// Searching for NUL in a suffix of `p + q` is searching in `q`.
proof fn lemma_nul_from_shift(p: Seq<u8>, q: Seq<u8>, i: int)
    requires
        0 <= i <= q.len(),
    ensures
        nul_from(p + q, p.len() + i) == p.len() + nul_from(q, i),
    decreases q.len() - i,
{
    if i < q.len() {
        assert((p + q)[p.len() + i] == q[i]);
        if q[i] != 0 {
            lemma_nul_from_shift(p, q, i + 1);
        }
    }
}

/// Reading entries from a suffix of `p + q` is reading them from `q`.
proof fn lemma_entries_shift(p: Seq<u8>, q: Seq<u8>, i: int)
    requires
        0 <= i,
    ensures
        cache_entries(p + q, p.len() + i) == cache_entries(q, i),
    decreases q.len() - i,
{
    let b = p + q;
    if i < q.len() {
        lemma_nul_from(q, i);
        lemma_nul_from_shift(p, q, i);
        let (vq, i2) = field_at(q, i);
        let (vb, j2) = field_at(b, p.len() + i);
        assert(vb == vq) by {
            let j = nul_from(q, i);
            if j < q.len() {
                assert(b.subrange(p.len() + i, p.len() + j) == q.subrange(i, j));
            } else {
                assert(b.subrange(p.len() + i, b.len() - 1) == q.subrange(i, q.len() - 1));
            }
        }
        assert(j2 == p.len() + i2);
        if i2 < q.len() {
            lemma_nul_from(q, i2);
            lemma_nul_from_shift(p, q, i2);
            let (pq, i3) = field_at(q, i2);
            let (pb, j3) = field_at(b, p.len() + i2);
            assert(pb == pq) by {
                let j = nul_from(q, i2);
                if j < q.len() {
                    assert(b.subrange(p.len() + i2, p.len() + j) == q.subrange(i2, j));
                } else {
                    assert(b.subrange(p.len() + i2, b.len() - 1) == q.subrange(i2, q.len() - 1));
                }
            }
            assert(j3 == p.len() + i3);
            lemma_entries_shift(p, q, i3);
        }
    }
}


/// What a version becomes once written to the cache and read back: its raw name alone,
/// or its triplet alone; the commit is not written.
pub open spec fn as_stored(v: VersionView) -> VersionView {
    match v.raw {
        Some(x) => raw_view(x),
        None => triplet_view(v.major, v.minor, v.patch),
    }
}

/// Entries as they come back from the cache file.
pub open spec fn stored_entries(c: Seq<(Seq<char>, VersionView)>) -> Seq<(Seq<char>, VersionView)> {
    c.map_values(|e: (Seq<char>, VersionView)| (e.0, as_stored(e.1)))
}

/// Entries that the cache file can hold: no NUL in a path or in a version's text.
pub open spec fn storable(c: Seq<(Seq<char>, VersionView)>) -> bool {
    forall|i: int|
        0 <= i < c.len() ==> !(#[trigger] c[i]).0.contains('\0') && !version_text(
            c[i].1,
        ).contains('\0')
}

/// Reading the cache file gives back what writing it stored: every entry, in order, with
/// its path and its raw name or triplet (commits are not stored), provided that no path
/// and no raw name contains a NUL character.
pub proof fn law_cache_read_back(c: Seq<(Seq<char>, VersionView)>)
    requires
        storable(c),
    ensures
        cache_entries(cache_bytes(c), 0) == stored_entries(c),
    decreases c.len(),
{
    if c.len() > 0 {
        let rest = c.drop_first();
        assert(storable(rest)) by {
            assert forall|i: int| 0 <= i < rest.len() implies !(#[trigger] rest[i]).0.contains(
                '\0',
            ) && !version_text(rest[i].1).contains('\0') by {
                assert(rest[i] == c[i + 1]);
            }
        }
        law_cache_read_back(rest);
        let path = c[0].0;
        let v = c[0].1;
        assert(storable(c) ==> !c[0].0.contains('\0') && !version_text(c[0].1).contains('\0'));
        let t = seq![prefix_symbol(prefix_of(v))] + version_text(v);
        assert(!t.contains('\0')) by {
            if t.contains('\0') {
                let k = choose|k: int| 0 <= k < t.len() && t[k] == '\0';
                if k > 0 {
                    assert(version_text(v)[k - 1] == '\0');
                    assert(version_text(v).contains('\0'));
                }
            }
        }
        let e1 = encode_utf8(t);
        let e2 = encode_utf8(path);
        lemma_encode_no_nul(t);
        lemma_encode_no_nul(path);
        let e = entry_bytes(path, v);
        let rb = cache_bytes(rest);
        let b = e + rb;
        assert(b == cache_bytes(c));
        let n1 = e1.len() as int;
        let n2 = e2.len() as int;
        assert(b[n1] == 0);
        assert forall|k: int| 0 <= k < n1 implies b[k] != 0 by {
            assert(b[k] == e1[k]);
        }
        lemma_nul_at(b, 0, n1);
        assert(b.subrange(0, n1) == e1);
        assert(b[n1 + 1 + n2] == 0);
        assert forall|k: int| n1 + 1 <= k < n1 + 1 + n2 implies b[k] != 0 by {
            assert(b[k] == e2[k - n1 - 1]);
        }
        lemma_nul_at(b, n1 + 1, n1 + 1 + n2);
        assert(b.subrange(n1 + 1, n1 + 1 + n2) == e2);
        assert(e.len() == n1 + 1 + n2 + 1);
        lemma_entries_shift(e, rb, 0);
        encode_utf8_valid_utf8(t);
        encode_utf8_decode_utf8(t);
        encode_utf8_valid_utf8(path);
        encode_utf8_decode_utf8(path);
        assert(version_of_field(e1) == Some(as_stored(v))) by {
            match v.raw {
                Some(x) => {
                    assert(t.drop_first() == x);
                },
                None => {
                    lemma_triplet_text_reads_back(seq!['v'], v.major, v.minor, v.patch);
                    assert(t == seq!['v'] + triplet_text(v.major, v.minor, v.patch));
                },
            }
        }
        assert(path_of_field(e2) == Some(path));
        assert(cache_entries(b, 0) == seq![(path, as_stored(v))] + cache_entries(b, e.len() as int));
        assert(stored_entries(c) == seq![(path, as_stored(v))] + stored_entries(rest));
    }
}

} // verus!
