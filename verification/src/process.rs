//! What a Typst process is started with: the environment a version asks for, and the
//! arguments and environment handed to `execve`.

use vstd::prelude::*;

use crate::config::{env_view, options_view, Opt};
use crate::text::{chars_of, parse_u32, parse_u32_spec, push_char};
use crate::cache::{raw_view, same_version, triplet_view, TypstVersion, VersionView};

verus! {

/// The first position at or after `i` that holds `c`, or the end.
pub open spec fn find_char(s: Seq<char>, i: int, c: char) -> int
    decreases s.len() - i,
{
    if 0 <= i < s.len() && s[i] != c {
        find_char(s, i + 1, c)
    } else {
        i
    }
}

/// The version a configuration key names: when the first two dot-separated parts of the
/// key are numbers, the numbered version `a.b.0`; otherwise the key as a raw name.
pub open spec fn key_version(k: Seq<char>) -> VersionView {
    let d1 = find_char(k, 0, '.');
    let first = parse_u32_spec(k.subrange(0, d1));
    if d1 < k.len() {
        let d2 = find_char(k, d1 + 1, '.');
        match (first, parse_u32_spec(k.subrange(d1 + 1, d2))) {
            (Some(a), Some(b)) => triplet_view(a, b, 0),
            _ => raw_view(k),
        }
    } else {
        raw_view(k)
    }
}

/// The version a configuration key is compared with: the same raw version, or the
/// numbered version with its patch number set to zero.
pub open spec fn lookup_version(v: VersionView) -> VersionView {
    match v.raw {
        Some(_) => v,
        None => triplet_view(v.major, v.minor, 0),
    }
}

/// `name=value` lines of an environment, in order.
pub open spec fn env_lines(env: Seq<(Seq<char>, Seq<char>)>) -> Seq<Seq<char>> {
    env.map_values(|e: (Seq<char>, Seq<char>)| e.0 + seq!['='] + e.1)
}

/// The environment lines of the first options entry whose key names the version `v`
/// is looked up as; none when no key does.
pub open spec fn resolved_env(opt: Seq<(Seq<char>, Seq<(Seq<char>, Seq<char>)>)>, v: VersionView) -> Seq<Seq<char>>
    decreases opt.len(),
{
    if opt.len() == 0 {
        seq![]
    } else if same_version(key_version(opt[0].0), lookup_version(v)) {
        env_lines(opt[0].1)
    } else {
        resolved_env(opt.drop_first(), v)
    }
}

/// Texts of a vector of strings.
pub open spec fn strings_view(v: Seq<String>) -> Seq<Seq<char>> {
    v.map_values(|s: String| s@)
}

/// The position of the first `c` at or after `i` in `s`, or the end.
fn find(s: &[char], i: usize, c: char) -> (r: usize)
    requires
        i <= s@.len(),
    ensures
        r == find_char(s@, i as int, c),
        i <= r <= s@.len(),
{
    let mut j = i;
    while j < s.len() && s[j] != c
        invariant
            i <= j <= s@.len(),
            find_char(s@, i as int, c) == find_char(s@, j as int, c),
        decreases s@.len() - j,
    {
        j = j + 1;
    }
    j
}

/// The version that a configuration key names (see `key_version`).
pub fn version_of_key(key: &String) -> (v: TypstVersion)
    ensures
        v@ == key_version(key@),
{
    let cs = chars_of(key.as_str());
    let d1 = find(cs.as_slice(), 0, '.');
    let first = parse_u32(cs.as_slice(), 0, d1);
    if d1 < cs.len() {
        let d2 = find(cs.as_slice(), d1 + 1, '.');
        match (first, parse_u32(cs.as_slice(), d1 + 1, d2)) {
            (Some(a), Some(b)) => TypstVersion::new(a, b, 0),
            _ => TypstVersion::raw(key.clone()),
        }
    } else {
        TypstVersion::raw(key.clone())
    }
}

/// `name=value`.
fn env_line(name: &String, value: &String) -> (l: String)
    ensures
        l@ == name@ + seq!['='] + value@,
{
    let mut l = name.clone();
    push_char(&mut l, '=');
    l.append(value.as_str());
    l
}

/// The extra environment for running `version`: the `name=value` lines of the first
/// configuration entry whose key names the same version, where a numbered version is
/// looked up without its patch number; nothing when no key matches.
pub fn resolve_env(config: &Opt, version: &TypstVersion) -> (env: Vec<String>)
    ensures
        strings_view(env@) == resolved_env(options_view(config@), version@),
{
    let check_ver = match version.get_prefix() {
        crate::cache::VersionPrefix::Raw => version.duplicate(),
        crate::cache::VersionPrefix::Versioned => TypstVersion::new(
            version.major,
            version.minor,
            0,
        ),
    };
    let ghost o = options_view(config@);
    let mut k: usize = 0;
    assert(o.skip(0) == o);
    while k < config.len()
        invariant
            k <= config@.len(),
            o == options_view(config@),
            check_ver@ == lookup_version(version@),
            resolved_env(o, version@) == resolved_env(o.skip(k as int), version@),
        decreases config@.len() - k,
    {
        assert(o.skip(k as int)[0] == o[k as int]);
        let kv = version_of_key(&config[k].0);
        if kv.same_as(&check_ver) {
            let env = &config[k].1.env;
            let mut lines: Vec<String> = Vec::new();
            let mut m: usize = 0;
            while m < env.len()
                invariant
                    m <= env@.len(),
                    strings_view(lines@) == env_lines(env_view(env@).take(m as int)),
                decreases env@.len() - m,
            {
                let ghost prev = lines@;
                lines.push(env_line(&env[m].0, &env[m].1));
                let ghost ev = env_view(env@);
                assert(ev.take(m + 1) == ev.take(m as int).push(ev[m as int]));
                assert(strings_view(lines@) =~= strings_view(prev).push(lines@[m as int]@));
                assert(env_lines(ev.take(m + 1)) =~= env_lines(ev.take(m as int)).push(
                    ev[m as int].0 + seq!['='] + ev[m as int].1,
                ));
                m = m + 1;
            }
            assert(env_view(env@).take(m as int) == env_view(env@));
            return lines;
        }
        assert(o.skip(k as int).drop_first() == o.skip(k + 1));
        k = k + 1;
    }
    assert(o.skip(k as int).len() == 0);
    Vec::new()
}

/// Whether a text is free of NUL characters, as a C string must be.
pub open spec fn nul_free(s: Seq<char>) -> bool {
    !s.contains('\0')
}

/// Texts in order, without those that hold a NUL character.
pub open spec fn without_nul(v: Seq<Seq<char>>) -> Seq<Seq<char>> {
    v.filter(|s: Seq<char>| nul_free(s))
}

/// Leaving out the texts with NUL keeps only texts without NUL, and keeps every text of
/// a sequence that has none.
pub proof fn law_without_nul(v: Seq<Seq<char>>)
    ensures
        forall|i: int| 0 <= i < without_nul(v).len() ==> nul_free(#[trigger] without_nul(v)[i]),
        (forall|i: int| 0 <= i < v.len() ==> nul_free(#[trigger] v[i])) ==> without_nul(v) == v,
    decreases v.len(),
{
    reveal_with_fuel(Seq::<_>::filter, 1);
    if v.len() > 0 {
        let init = v.drop_last();
        law_without_nul(init);
        assert forall|i: int| 0 <= i < init.len() implies init[i] == v[i] by {}
        if forall|i: int| 0 <= i < v.len() ==> nul_free(#[trigger] v[i]) {
            assert(nul_free(v[v.len() - 1]));
            assert(init.push(v.last()) =~= v);
        }
    } else {
        assert(without_nul(v) =~= v);
    }
}

/// Whether a string holds a NUL character.
fn has_nul(s: &String) -> (r: bool)
    ensures
        r == !nul_free(s@),
{
    let cs = chars_of(s.as_str());
    let mut k: usize = 0;
    while k < cs.len()
        invariant
            k <= cs@.len(),
            cs@ == s@,
            forall|j: int| 0 <= j < k ==> cs@[j] != '\0',
        decreases cs@.len() - k,
    {
        if cs[k] == '\0' {
            return true;
        }
        k = k + 1;
    }
    false
}

/// Keeps the strings that can become C strings: those without NUL, in order.
pub fn keep_nul_free(strings: Vec<String>) -> (r: Vec<String>)
    ensures
        strings_view(r@) == without_nul(strings_view(strings@)),
{
    let ghost sv = strings_view(strings@);
    let mut r: Vec<String> = Vec::new();
    let mut k: usize = 0;
    while k < strings.len()
        invariant
            k <= strings@.len(),
            sv == strings_view(strings@),
            strings_view(r@) == without_nul(sv.take(k as int)),
        decreases strings@.len() - k,
    {
        let s = &strings[k];
        assert(sv.take(k + 1).drop_last() == sv.take(k as int));
        reveal_with_fuel(Seq::<_>::filter, 1);
        if !has_nul(s) {
            r.push(s.clone());
        }
        k = k + 1;
    }
    assert(sv.take(k as int) == sv);
    r
}

/// The environment of the started process: the current variables as `name=value`
/// followed by the extra lines, leaving out any line that holds a NUL character.
pub fn launch_env(current: &Vec<(String, String)>, extra: Vec<String>) -> (r: Vec<String>)
    ensures
        strings_view(r@) == without_nul(
            env_lines(env_view(current@)) + strings_view(extra@),
        ),
        forall|i: int| 0 <= i < r@.len() ==> nul_free(#[trigger] r@[i]@),
        (forall|i: int|
            0 <= i < (env_lines(env_view(current@)) + strings_view(extra@)).len() ==> nul_free(
                #[trigger] (env_lines(env_view(current@)) + strings_view(extra@))[i],
            )) ==> strings_view(r@) == env_lines(env_view(current@)) + strings_view(extra@),
{
    let mut all: Vec<String> = Vec::new();
    let mut m: usize = 0;
    while m < current.len()
        invariant
            m <= current@.len(),
            strings_view(all@) == env_lines(env_view(current@).take(m as int)),
        decreases current@.len() - m,
    {
        let ghost prev = all@;
        all.push(env_line(&current[m].0, &current[m].1));
        let ghost ev = env_view(current@);
        assert(ev.take(m + 1) == ev.take(m as int).push(ev[m as int]));
        assert(strings_view(all@) =~= strings_view(prev).push(all@[m as int]@));
        assert(env_lines(ev.take(m + 1)) =~= env_lines(ev.take(m as int)).push(
            ev[m as int].0 + seq!['='] + ev[m as int].1,
        ));
        m = m + 1;
    }
    assert(env_view(current@).take(m as int) == env_view(current@));
    let mut k: usize = 0;
    let ghost base = strings_view(all@);
    while k < extra.len()
        invariant
            k <= extra@.len(),
            strings_view(all@) == base + strings_view(extra@).take(k as int),
        decreases extra@.len() - k,
    {
        let ghost prev = all@;
        all.push(extra[k].clone());
        assert(strings_view(all@) =~= strings_view(prev).push(extra@[k as int]@));
        assert(strings_view(extra@).take(k + 1) == strings_view(extra@).take(k as int).push(
            extra@[k as int]@,
        ));
        k = k + 1;
    }
    assert(strings_view(extra@).take(k as int) == strings_view(extra@));
    let r = keep_nul_free(all);
    proof {
        law_without_nul(env_lines(env_view(current@)) + strings_view(extra@));
        assert forall|i: int| 0 <= i < r@.len() implies nul_free(#[trigger] r@[i]@) by {
            assert(strings_view(r@)[i] == r@[i]@);
        }
    }
    r
}

} // verus!
