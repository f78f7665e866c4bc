//! The report of `list`: the default binary, the raw-named binaries and the numbered
//! versions from newest to oldest.

use vstd::prelude::*;
use vstd::string::StringSliceAdditionalSpecFns;
use vstd::utf8::encode_utf8;

use crate::cache::read_cache::{cache_view, Cache};
use crate::text::{chars_of, push_char};
use crate::cache::{version_text, VersionView};

verus! {

/// The raw-named entries, in cache order.
pub open spec fn named_entries(c: Seq<(Seq<char>, VersionView)>) -> Seq<(Seq<char>, VersionView)> {
    c.filter(|e: (Seq<char>, VersionView)| e.1.raw is Some)
}

/// The numbered entries, in cache order.
pub open spec fn numbered_entries(c: Seq<(Seq<char>, VersionView)>) -> Seq<(Seq<char>, VersionView)> {
    c.filter(|e: (Seq<char>, VersionView)| e.1.raw is None)
}

/// The length of a text in UTF-8 bytes, as `str::len` gives it.
pub open spec fn byte_len(s: Seq<char>) -> nat {
    (encode_utf8(s).len() as usize) as nat
}

/// The widest name, counted in UTF-8 bytes.
pub open spec fn name_width(named: Seq<(Seq<char>, VersionView)>) -> nat
    decreases named.len(),
{
    if named.len() == 0 {
        0
    } else {
        let w = name_width(named.drop_last());
        let n = byte_len(version_text(named.last().1));
        if n > w {
            n
        } else {
            w
        }
    }
}

/// The names of raw-named binaries are padded to the widest of them: no name is wider,
/// and some name is exactly that wide (the width is 0 when there are none).
pub proof fn law_name_width(named: Seq<(Seq<char>, VersionView)>)
    ensures
        forall|i: int| 0 <= i < named.len() ==> byte_len(version_text(#[trigger] named[i].1)) <= name_width(named),
        named.len() == 0 ==> name_width(named) == 0,
        named.len() > 0 ==> exists|i: int| 0 <= i < named.len() && name_width(named) == byte_len(version_text(#[trigger] named[i].1)),
    decreases named.len(),
{
    if named.len() > 0 {
        let init = named.drop_last();
        law_name_width(init);
        assert forall|i: int| 0 <= i < init.len() implies named[i] == init[i] by {}
        if init.len() > 0 && name_width(init) >= byte_len(version_text(named.last().1)) {
            let i = choose|i: int| 0 <= i < init.len() && name_width(init) == byte_len(version_text(#[trigger] init[i].1));
            assert(named[i] == init[i]);
        } else {
            assert(named[named.len() - 1] == named.last());
        }
    }
}

/// `s` padded with spaces on the right to `width` characters.
pub open spec fn padded(s: Seq<char>, width: nat) -> Seq<char> {
    if s.len() < width {
        s + Seq::new((width - s.len()) as nat, |i: int| ' ')
    } else {
        s
    }
}

/// One line of the listing: two spaces, a text, and the path in parentheses.
pub open spec fn listing_line(text: Seq<char>, path: Seq<char>) -> Seq<char> {
    seq![' ', ' '] + text + seq![' ', '('] + path + seq![')', '\n']
}

/// Lines joined.
pub open spec fn joined(lines: Seq<Seq<char>>) -> Seq<char>
    decreases lines.len(),
{
    if lines.len() == 0 {
        seq![]
    } else {
        joined(lines.drop_last()) + lines.last()
    }
}

/// The lines of the raw-named binaries, names padded to `width`.
pub open spec fn named_lines(named: Seq<(Seq<char>, VersionView)>, width: nat) -> Seq<Seq<char>> {
    named.map_values(
        |e: (Seq<char>, VersionView)| listing_line(padded(version_text(e.1), width), e.0),
    )
}

/// The triplet of `a` is higher than that of `b`.
pub open spec fn triplet_gt(a: VersionView, b: VersionView) -> bool {
    ||| a.major > b.major
    ||| (a.major == b.major && a.minor > b.minor)
    ||| (a.major == b.major && a.minor == b.minor && a.patch > b.patch)
}

/// The triplets are equal.
pub open spec fn triplet_eq(a: VersionView, b: VersionView) -> bool {
    a.major == b.major && a.minor == b.minor && a.patch == b.patch
}

/// Entry `i` of `v` is listed before entry `j`: a higher triplet first, and equal
/// triplets in cache order.
pub open spec fn listed_before(v: Seq<(Seq<char>, VersionView)>, i: int, j: int) -> bool {
    triplet_gt(v[i].1, v[j].1) || (triplet_eq(v[i].1, v[j].1) && i < j)
}

/// `order` lists every index of `v` once, newest triplet first and, among equal
/// triplets, in cache order; this is the stable sort by descending triplet.
pub open spec fn newest_first(v: Seq<(Seq<char>, VersionView)>, order: Seq<int>) -> bool {
    &&& order.len() == v.len()
    &&& order.no_duplicates()
    &&& forall|p: int| 0 <= p < order.len() ==> 0 <= #[trigger] order[p] < v.len()
    &&& forall|p: int, q: int|
        0 <= p < q < order.len() ==> listed_before(v, #[trigger] order[p], #[trigger] order[q])
}

/// In `order`, each entry of `v` comes before the later ones when its version is at least
/// as high, compared by major number, then minor number, then patch number.
pub open spec fn descending(v: Seq<(Seq<char>, VersionView)>, order: Seq<int>) -> bool {
    forall|p: int, q: int|
        #![trigger order[p], order[q]]
        0 <= p < q < order.len() ==> {
            let a = v[order[p]].1;
            let b = v[order[q]].1;
            ||| a.major > b.major
            ||| a.major == b.major && a.minor > b.minor
            ||| a.major == b.major && a.minor == b.minor && a.patch >= b.patch
        }
}

/// The numbered versions are listed from the highest down: of two listed entries, the
/// earlier has a higher major number, or the same major number and a higher minor
/// number, or the same major and minor numbers and a patch number at least as high.
pub proof fn law_listed_newest_first(v: Seq<(Seq<char>, VersionView)>, order: Seq<int>)
    requires
        newest_first(v, order),
    ensures
        descending(v, order),
{
    assert forall|p: int, q: int|
        #![trigger order[p], order[q]]
        0 <= p < q < order.len() implies listed_before(v, order[p], order[q]) by {}
}

/// The order in which the numbered entries are listed (the one order that is
/// `newest_first`).
pub open spec fn listing_order(v: Seq<(Seq<char>, VersionView)>) -> Seq<int> {
    choose|o: Seq<int>| newest_first(v, o)
}

/// The lines of the numbered binaries, in the given order.
pub open spec fn numbered_lines(v: Seq<(Seq<char>, VersionView)>, order: Seq<int>) -> Seq<Seq<char>> {
    order.map_values(|i: int| listing_line(version_text(v[i].1), v[i].0))
}

/// The full report for a default binary shown as `default` and the cache `c`, with the
/// numbered versions in the order `order`.
pub open spec fn listing(default: Seq<char>, c: Seq<(Seq<char>, VersionView)>, order: Seq<int>) -> Seq<char> {
    let named = named_entries(c);
    let numbered = numbered_entries(c);
    "Default: "@ + default + seq!['\n', '\n'] + (if named.len() > 0 {
        "Named:\n"@
    } else {
        seq![]
    }) + joined(named_lines(named, name_width(named))) + (if numbered.len() > 0 {
        "\nVersioned:\n"@
    } else {
        seq![]
    }) + joined(numbered_lines(numbered, order))
}


/// Indices as integers.
pub open spec fn idx_view(o: Seq<usize>) -> Seq<int> {
    o.map_values(|u: usize| u as int)
}

/// The entries of the cache that are raw-named (`named` true) or numbered, in order.
fn entries_where(cache: &Cache, named: bool) -> (r: Cache)
    ensures
        cache_view(r@) == if named {
            named_entries(cache_view(cache@))
        } else {
            numbered_entries(cache_view(cache@))
        },
{
    let ghost c = cache_view(cache@);
    let ghost f = |e: (Seq<char>, VersionView)| (e.1.raw is Some) == named;
    let mut r: Cache = Vec::new();
    let mut k: usize = 0;
    while k < cache.len()
        invariant
            k <= cache@.len(),
            c == cache_view(cache@),
            f == (|e: (Seq<char>, VersionView)| (e.1.raw is Some) == named),
            cache_view(r@) == c.take(k as int).filter(f),
        decreases cache@.len() - k,
    {
        assert(c.take(k + 1).drop_last() == c.take(k as int));
        reveal_with_fuel(Seq::<_>::filter, 1);
        let ghost prev = r@;
        if cache[k].1.raw.is_some() == named {
            r.push((cache[k].0.clone(), cache[k].1.duplicate()));
            assert(cache_view(r@) =~= cache_view(prev).push(c[k as int]));
        }
        k = k + 1;
    }
    assert(c.take(k as int) == c);
    if named {
        assert(c.filter(f) =~= named_entries(c)) by {
            assert(f == |e: (Seq<char>, VersionView)| e.1.raw is Some);
        }
    } else {
        assert(c.filter(f) =~= numbered_entries(c)) by {
            assert(f =~= |e: (Seq<char>, VersionView)| e.1.raw is None);
        }
    }
    r
}


/// Whether the triplet of `a` is higher than that of `b`.
fn higher(a: &crate::cache::TypstVersion, b: &crate::cache::TypstVersion) -> (r: bool)
    ensures
        r == triplet_gt(a@, b@),
{
    a.major > b.major || (a.major == b.major && a.minor > b.minor) || (a.major == b.major
        && a.minor == b.minor && a.patch > b.patch)
}

/// The order in which numbered entries are listed (see `newest_first`).
fn newest_first_order(v: &Cache) -> (o: Vec<usize>)
    ensures
        newest_first(cache_view(v@), idx_view(o@)),
{
    let ghost c = cache_view(v@);
    let mut o: Vec<usize> = Vec::new();
    let mut k: usize = 0;
    while k < v.len()
        invariant
            k <= v@.len(),
            c == cache_view(v@),
            o@.len() == k,
            idx_view(o@).no_duplicates(),
            forall|p: int| 0 <= p < o@.len() ==> (#[trigger] o@[p]) < k,
            forall|p: int, q: int|
                0 <= p < q < o@.len() ==> listed_before(c, #[trigger] o@[p] as int, #[trigger] o@[q] as int),
        decreases v@.len() - k,
    {
        let mut pos: usize = 0;
        while pos < o.len() && !higher(&v[k].1, &v[o[pos]].1)
            invariant
                k < v@.len(),
                c == cache_view(v@),
                o@.len() == k,
                pos <= o@.len(),
                forall|p: int| 0 <= p < o@.len() ==> (#[trigger] o@[p]) < k,
                forall|p: int| 0 <= p < pos ==> !triplet_gt(c[k as int].1, c[#[trigger] o@[p] as int].1),
            decreases o@.len() - pos,
        {
            pos = pos + 1;
        }
        let ghost old_o = o@;
        o.insert(pos, k);
        proof {
            assert forall|p: int, q: int| 0 <= p < q < o@.len() implies listed_before(
                c,
                #[trigger] o@[p] as int,
                #[trigger] o@[q] as int,
            ) by {
                if q < pos {
                    assert(o@[p] == old_o[p] && o@[q] == old_o[q]);
                } else if q == pos {
                    assert(o@[p] == old_o[p]);
                } else if p == pos {
                    assert(o@[q] == old_o[q - 1]);
                    if q - 1 > pos {
                        assert(listed_before(c, old_o[pos as int] as int, old_o[q - 1] as int));
                    }
                } else if p < pos {
                    assert(o@[p] == old_o[p] && o@[q] == old_o[q - 1]);
                } else {
                    assert(o@[p] == old_o[p - 1] && o@[q] == old_o[q - 1]);
                }
            }
            assert forall|p: int| 0 <= p < o@.len() implies (#[trigger] o@[p]) < k + 1 by {
                if p < pos {
                    assert(o@[p] == old_o[p]);
                } else if p > pos {
                    assert(o@[p] == old_o[p - 1]);
                }
            }
            assert(idx_view(o@).no_duplicates()) by {
                assert forall|p: int, q: int| 0 <= p < q < o@.len() implies idx_view(o@)[p]
                    != idx_view(o@)[q] by {
                    assert(listed_before(c, o@[p] as int, o@[q] as int));
                }
            }
        }
        k = k + 1;
    }
    assert forall|p: int| 0 <= p < idx_view(o@).len() implies 0 <= #[trigger] idx_view(o@)[p] < c.len() by {
        assert(o@[p] < k);
    }
    o
}

/// The widest name among raw-named entries, in UTF-8 bytes.
fn widest_name(named: &Cache) -> (w: usize)
    ensures
        w == name_width(cache_view(named@)),
{
    let ghost c = cache_view(named@);
    let mut w: usize = 0;
    let mut k: usize = 0;
    while k < named.len()
        invariant
            k <= named@.len(),
            c == cache_view(named@),
            w == name_width(c.take(k as int)),
        decreases named@.len() - k,
    {
        let text = named[k].1.get_string();
        let n = text.as_str().len();
        assert(c.take(k + 1).drop_last() == c.take(k as int));
        assert(c.take(k + 1).last() == c[k as int]);
        if n > w {
            w = n;
        }
        k = k + 1;
    }
    assert(c.take(k as int) == c);
    w
}


/// Appends a listing line for `text`, padded to `width` characters, and `path`.
fn push_line(out: &mut String, text: &String, width: usize, path: &String)
    ensures
        final(out)@ == old(out)@ + listing_line(padded(text@, width as nat), path@),
{
    let ghost start = out@;
    push_char(out, ' ');
    push_char(out, ' ');
    out.append(text.as_str());
    let n = chars_of(text.as_str()).len();
    let ghost before_pad = out@;
    let mut m: usize = n;
    while m < width
        invariant
            n <= m <= width || (width < n && m == n),
            n == text@.len(),
            out@ == before_pad + Seq::new((m - n) as nat, |i: int| ' '),
        decreases width - m,
    {
        push_char(out, ' ');
        assert(Seq::new((m + 1 - n) as nat, |i: int| ' ') =~= Seq::new((m - n) as nat, |i: int| ' ').push(' '));
        m = m + 1;
    }
    let ghost after_pad = out@;
    push_char(out, ' ');
    push_char(out, '(');
    out.append(path.as_str());
    push_char(out, ')');
    push_char(out, '\n');
    assert(out@ =~= start + listing_line(padded(text@, width as nat), path@)) by {
        if text@.len() < width {
            assert(after_pad =~= start + seq![' ', ' '] + padded(text@, width as nat));
        } else {
            assert(Seq::new((m - n) as nat, |i: int| ' ') =~= Seq::<char>::empty());
            assert(after_pad =~= start + seq![' ', ' '] + padded(text@, width as nat));
        }
    }
}

/// The report that `list` prints for the default binary (shown as `default`) and the
/// cache: the default; the raw-named binaries in cache order with names padded to the
/// widest name; and the numbered binaries newest first, equal triplets in cache order.
pub fn list_report(default: &str, cache: &Cache) -> (r: String)
    ensures
        r@ == listing(default@, cache_view(cache@), listing_order(numbered_entries(cache_view(cache@)))),
        newest_first(numbered_entries(cache_view(cache@)), listing_order(numbered_entries(cache_view(cache@)))),
        descending(numbered_entries(cache_view(cache@)), listing_order(numbered_entries(cache_view(cache@)))),
{
    let ghost c = cache_view(cache@);
    let mut out = "Default: ".to_owned();
    out.append(default);
    push_char(&mut out, '\n');
    push_char(&mut out, '\n');
    let named = entries_where(cache, true);
    let numbered = entries_where(cache, false);
    let ghost nv = cache_view(named@);
    let ghost mv = cache_view(numbered@);
    if named.len() > 0 {
        out.append("Named:\n");
    }
    let ghost head = out@;
    let w = widest_name(&named);
    let ghost lines = named_lines(nv, w as nat);
    let mut k: usize = 0;
    while k < named.len()
        invariant
            k <= named@.len(),
            nv == cache_view(named@),
            lines == named_lines(nv, w as nat),
            out@ == head + joined(lines.take(k as int)),
        decreases named@.len() - k,
    {
        let text = named[k].1.get_string();
        push_line(&mut out, &text, w, &named[k].0);
        assert(lines.take(k + 1).drop_last() == lines.take(k as int));
        assert(lines.take(k + 1).last() == lines[k as int]);
        k = k + 1;
    }
    assert(lines.take(k as int) == lines);
    if numbered.len() > 0 {
        out.append("\nVersioned:\n");
    }
    let ghost head2 = out@;
    let order = newest_first_order(&numbered);
    let ghost ov = idx_view(order@);
    let ghost lines2 = numbered_lines(mv, ov);
    let mut p: usize = 0;
    while p < order.len()
        invariant
            p <= order@.len(),
            mv == cache_view(numbered@),
            ov == idx_view(order@),
            newest_first(mv, ov),
            lines2 == numbered_lines(mv, ov),
            out@ == head2 + joined(lines2.take(p as int)),
        decreases order@.len() - p,
    {
        let i = order[p];
        assert(0 <= ov[p as int] < mv.len());
        let text = numbered[i].1.get_string();
        push_line(&mut out, &text, 0, &numbered[i].0);
        assert(padded(text@, 0) == text@);
        assert(lines2.take(p + 1).drop_last() == lines2.take(p as int));
        assert(lines2.take(p + 1).last() == lines2[p as int]);
        p = p + 1;
    }
    assert(lines2.take(p as int) == lines2);
    assert(out@ =~= listing(default@, c, ov));
    proof {
        law_newest_first_unique(mv, ov, listing_order(mv));
        law_listed_newest_first(mv, ov);
    }
    out
}


/// An order that lists every index once lists each of them somewhere.
proof fn lemma_order_covers(v: Seq<(Seq<char>, VersionView)>, o: Seq<int>)
    requires
        newest_first(v, o),
    ensures
        forall|i: int| 0 <= i < v.len() ==> o.contains(i),
{
    o.unique_seq_to_set();
    vstd::set_lib::lemma_int_range(0, v.len() as int);
    let r = vstd::set_lib::set_int_range(0, v.len() as int);
    assert(o.to_set().subset_of(r)) by {
        assert forall|i: int| o.to_set().contains(i) implies r.contains(i) by {
            let p = choose|p: int| 0 <= p < o.len() && o[p] == i;
        }
    }
    vstd::set_lib::lemma_subset_equality(o.to_set(), r);
    assert forall|i: int| 0 <= i < v.len() implies o.contains(i) by {
        assert(r.contains(i));
        assert(o.to_set().contains(i));
    }
}

/// Two orders that both list the entries newest first agree up to position `p`.
proof fn lemma_orders_agree(v: Seq<(Seq<char>, VersionView)>, o1: Seq<int>, o2: Seq<int>, p: int)
    requires
        newest_first(v, o1),
        newest_first(v, o2),
        0 <= p < o1.len(),
    ensures
        forall|q: int| 0 <= q <= p ==> o1[q] == o2[q],
    decreases p,
{
    if p > 0 {
        lemma_orders_agree(v, o1, o2, p - 1);
    }
    let x = o1[p];
    let y = o2[p];
    if x != y {
        lemma_order_covers(v, o1);
        lemma_order_covers(v, o2);
        assert(0 <= o1[p] < v.len());
        assert(0 <= o2[p] < v.len());
        assert(o2.contains(x));
        assert(o1.contains(y));
        if listed_before(v, x, y) {
            let q = choose|q: int| 0 <= q < o2.len() && o2[q] == x;
            if q < p {
                assert(o1[q] == x);
            } else {
                assert(listed_before(v, o2[p], o2[q]));
            }
        } else {
            let q = choose|q: int| 0 <= q < o1.len() && o1[q] == y;
            if q < p {
                assert(o2[q] == y);
                assert(o1[q] == o2[q]);
            } else {
                assert(listed_before(v, o1[p], o1[q]));
            }
        }
    }
}

/// There is exactly one order that lists the numbered entries newest first with equal
/// triplets in cache order, so the report of `list` is determined.
pub proof fn law_newest_first_unique(v: Seq<(Seq<char>, VersionView)>, o1: Seq<int>, o2: Seq<int>)
    requires
        newest_first(v, o1),
        newest_first(v, o2),
    ensures
        o1 == o2,
{
    if o1.len() > 0 {
        lemma_orders_agree(v, o1, o2, o1.len() - 1);
    }
    assert(o1 =~= o2);
}

} // verus!
