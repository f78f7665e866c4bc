//! Typst versions: either a numbered `major.minor.patch` triplet or a raw name
//! that some binary was given in the configuration.

use vstd::prelude::*;

pub mod discover;
pub mod lookup;
pub mod read_cache;

pub use read_cache::Cache;

use crate::text::{
    lemma_decimal, lemma_parse_decimal, lemma_run_end_block,
    chars_of, decimal, parse_u32, parse_u32_spec, push_char, push_decimal, run_end, scan_run,
    CharClass,
};

verus! {

/// Which of the two shapes a version has; in the cache file it is written as the
/// one-character tag `r` or `v` in front of the version text.
#[derive(Debug, Clone, Copy, PartialEq, Eq, Structural)]
pub enum VersionPrefix {
    Raw,
    Versioned,
}

/// The tag character of a prefix.
pub open spec fn prefix_symbol(p: VersionPrefix) -> char {
    match p {
        VersionPrefix::Raw => 'r',
        VersionPrefix::Versioned => 'v',
    }
}

/// The prefix whose tag is exactly the text `s`, if any.
pub open spec fn prefix_from_text(s: Seq<char>) -> Option<VersionPrefix> {
    if s == seq!['r'] {
        Some(VersionPrefix::Raw)
    } else if s == seq!['v'] {
        Some(VersionPrefix::Versioned)
    } else {
        None
    }
}

impl VersionPrefix {
    /// The tag character: `r` for raw names, `v` for numbered versions.
    pub fn symbol(&self) -> (c: char)
        ensures
            c == prefix_symbol(*self),
    {
        match self {
            VersionPrefix::Raw => 'r',
            VersionPrefix::Versioned => 'v',
        }
    }

    /// Reads a tag: `"r"` and `"v"` are the only texts that name a prefix.
    pub fn from_tag(s: &str) -> (r: Result<VersionPrefix, ()>)
        ensures
            r matches Ok(p) ==> prefix_from_text(s@) == Some(p),
            r is Err <==> prefix_from_text(s@) is None,
    {
        let cs = chars_of(s);
        if cs.len() == 1 && cs[0] == 'r' {
            assert(s@ == seq!['r']);
            Ok(VersionPrefix::Raw)
        } else if cs.len() == 1 && cs[0] == 'v' {
            assert(s@ == seq!['v']);
            Ok(VersionPrefix::Versioned)
        } else {
            assert(s@ != seq!['r'] && s@ != seq!['v']) by {
                if s@.len() == 1 {
                    assert(s@[0] == seq!['r'][0] ==> s@ == seq!['r']);
                }
            }
            Err(())
        }
    }
}

/// A version as a mathematical value.
pub struct VersionView {
    pub major: u32,
    pub minor: u32,
    pub patch: u32,
    pub raw: Option<Seq<char>>,
    pub commit: Option<Seq<char>>,
}

/// A Typst version: a numbered triplet, or a raw name (`raw` is `Some`), optionally
/// with the commit hash that `typst --version` printed.
#[derive(Debug)]
pub struct TypstVersion {
    /// Typst major version number.
    pub major: u32,
    /// Typst minor version number.
    pub minor: u32,
    /// Typst patch version number.
    pub patch: u32,
    /// Raw, unmodified version string.
    pub raw: Option<String>,
    /// The raw commit hash.
    pub commit: Option<String>,
}

/// The view of an optional string.
pub open spec fn opt_view(s: Option<String>) -> Option<Seq<char>> {
    match s {
        Some(t) => Some(t@),
        None => None,
    }
}

impl View for TypstVersion {
    type V = VersionView;

    open spec fn view(&self) -> VersionView {
        VersionView {
            major: self.major,
            minor: self.minor,
            patch: self.patch,
            raw: opt_view(self.raw),
            commit: opt_view(self.commit),
        }
    }
}

/// A numbered version without raw name or commit.
pub open spec fn triplet_view(major: u32, minor: u32, patch: u32) -> VersionView {
    VersionView { major, minor, patch, raw: None, commit: None }
}

/// A raw-named version: numbers zero, no commit.
pub open spec fn raw_view(name: Seq<char>) -> VersionView {
    VersionView { major: 0, minor: 0, patch: 0, raw: Some(name), commit: None }
}

/// The shape of a version: raw exactly when it carries a raw name.
pub open spec fn prefix_of(v: VersionView) -> VersionPrefix {
    match v.raw {
        Some(_) => VersionPrefix::Raw,
        None => VersionPrefix::Versioned,
    }
}

/// When two versions are the same: two numbered versions with equal triplets, or two
/// raw versions with equal names. A raw and a numbered version are never the same,
/// and commits play no part.
pub open spec fn same_version(a: VersionView, b: VersionView) -> bool {
    match (a.raw, b.raw) {
        (None, None) => a.major == b.major && a.minor == b.minor && a.patch == b.patch,
        (Some(x), Some(y)) => x == y,
        _ => false,
    }
}

/// What distinguishes versions: the raw name, or else the triplet.
pub open spec fn key_of(v: VersionView) -> (Option<Seq<char>>, u32, u32, u32) {
    match v.raw {
        Some(x) => (Some(x), 0, 0, 0),
        None => (None, v.major, v.minor, v.patch),
    }
}

/// `a.b.c` in decimal.
pub open spec fn triplet_text(major: u32, minor: u32, patch: u32) -> Seq<char> {
    decimal(major as nat) + seq!['.'] + decimal(minor as nat) + seq!['.'] + decimal(patch as nat)
}

/// The text of a version: its raw name, or its triplet in decimal.
pub open spec fn version_text(v: VersionView) -> Seq<char> {
    match v.raw {
        Some(x) => x,
        None => triplet_text(v.major, v.minor, v.patch),
    }
}

/// Why a `major.minor.patch` triplet could not be read.
#[derive(Debug, Clone, Copy, PartialEq, Eq, Structural)]
pub enum TripletError {
    /// The major number is missing or does not fit in 32 bits.
    Major,
    /// No dot after the major version.
    MissingMajorDot,
    /// The minor number is missing or does not fit in 32 bits.
    Minor,
    /// No dot after the minor version.
    MissingMinorDot,
    /// The patch number is missing or does not fit in 32 bits.
    Patch,
}

/// Whether `s[i]` exists and is `c`.
pub open spec fn char_at_is(s: Seq<char>, i: int, c: char) -> bool {
    0 <= i < s.len() && s[i] == c
}

/// A triplet read at position `i` of `s`: a run of digits for each number, separated by
/// single dots; what follows the patch number is not looked at. On success the position
/// just past the patch digits comes with the numbers.
pub open spec fn triplet_at(s: Seq<char>, i: int) -> Result<(u32, u32, u32, int), TripletError> {
    let e1 = run_end(s, i, CharClass::Digit);
    match parse_u32_spec(s.subrange(i, e1)) {
        None => Err(TripletError::Major),
        Some(major) => if !char_at_is(s, e1, '.') {
            Err(TripletError::MissingMajorDot)
        } else {
            let e2 = run_end(s, e1 + 1, CharClass::Digit);
            match parse_u32_spec(s.subrange(e1 + 1, e2)) {
                None => Err(TripletError::Minor),
                Some(minor) => if !char_at_is(s, e2, '.') {
                    Err(TripletError::MissingMinorDot)
                } else {
                    let e3 = run_end(s, e2 + 1, CharClass::Digit);
                    match parse_u32_spec(s.subrange(e2 + 1, e3)) {
                        None => Err(TripletError::Patch),
                        Some(patch) => Ok((major, minor, patch, e3)),
                    }
                },
            }
        },
    }
}

/// The version that a text denotes: a numbered version when the text starts with a
/// triplet, and otherwise the text itself as a raw name.
pub open spec fn version_from_text(s: Seq<char>) -> VersionView {
    match triplet_at(s, 0) {
        Ok((a, b, c, _)) => triplet_view(a, b, c),
        Err(_) => raw_view(s),
    }
}

/// The triplet text of three numbers, after any prefix, reads back as those numbers and
/// ends where the text ends.
pub proof fn lemma_triplet_text_reads_back(pre: Seq<char>, a: u32, b: u32, c: u32)
    ensures
        triplet_at(pre + triplet_text(a, b, c), pre.len() as int) == Ok::<
            (u32, u32, u32, int),
            TripletError,
        >((a, b, c, (pre + triplet_text(a, b, c)).len() as int)),
{
    lemma_triplet_text_then(pre, a, b, c, Seq::<char>::empty());
    assert(pre + triplet_text(a, b, c) + Seq::<char>::empty() == pre + triplet_text(a, b, c));
}

/// The triplet text of three numbers, after any prefix and before anything that does
/// not start with a digit, reads back as those numbers and ends where the text ends.
pub proof fn lemma_triplet_text_then(pre: Seq<char>, a: u32, b: u32, c: u32, tail: Seq<char>)
    requires
        tail.len() > 0 ==> !is_digit_class(tail[0]),
    ensures
        triplet_at(pre + triplet_text(a, b, c) + tail, pre.len() as int) == Ok::<
            (u32, u32, u32, int),
            TripletError,
        >((a, b, c, (pre + triplet_text(a, b, c)).len() as int)),
{
    let d1 = decimal(a as nat);
    let d2 = decimal(b as nat);
    let d3 = decimal(c as nat);
    lemma_decimal(a as nat);
    lemma_decimal(b as nat);
    lemma_decimal(c as nat);
    lemma_parse_decimal(a);
    lemma_parse_decimal(b);
    lemma_parse_decimal(c);
    let s = pre + triplet_text(a, b, c) + tail;
    assert(s == pre + d1 + seq!['.'] + d2 + seq!['.'] + d3 + tail);
    let i = pre.len() as int;
    let e1 = i + d1.len();
    let e2 = e1 + 1 + d2.len();
    let e3 = e2 + 1 + d3.len();
    assert((pre + triplet_text(a, b, c)).len() == e3);
    assert forall|k: int| i <= k < e1 implies is_digit_class(#[trigger] s[k]) by {
        assert(s[k] == d1[k - i]);
    }
    assert(s[e1] == '.');
    lemma_run_end_block(s, i, d1.len() as int, CharClass::Digit);
    assert(s.subrange(i, e1) == d1);
    assert forall|k: int| e1 + 1 <= k < e2 implies is_digit_class(#[trigger] s[k]) by {
        assert(s[k] == d2[k - e1 - 1]);
    }
    assert(s[e2] == '.');
    lemma_run_end_block(s, e1 + 1, d2.len() as int, CharClass::Digit);
    assert(s.subrange(e1 + 1, e2) == d2);
    assert forall|k: int| e2 + 1 <= k < e3 implies is_digit_class(#[trigger] s[k]) by {
        assert(s[k] == d3[k - e2 - 1]);
    }
    if tail.len() > 0 {
        assert(s[e3] == tail[0]);
    }
    lemma_run_end_block(s, e2 + 1, d3.len() as int, CharClass::Digit);
    assert(s.subrange(e2 + 1, e3) == d3);
}

/// A decimal text starts with a digit.
pub proof fn lemma_decimal_starts_with_digit(n: u32)
    ensures
        decimal(n as nat).len() > 0,
        is_digit_class(decimal(n as nat)[0]),
{
    lemma_decimal(n as nat);
}

/// Membership in the digit class.
pub open spec fn is_digit_class(c: char) -> bool {
    crate::text::in_class(CharClass::Digit, c)
}

/// A run of digits followed by a dot, read as a number.
fn number_then(s: &[char], i: usize) -> (r: (Option<u32>, usize))
    requires
        i <= s@.len(),
    ensures
        r.1 == run_end(s@, i as int, CharClass::Digit),
        r.0 == parse_u32_spec(s@.subrange(i as int, r.1 as int)),
        i <= r.1 <= s@.len(),
{
    let e = scan_run(s, i, CharClass::Digit);
    (parse_u32(s, i, e), e)
}

/// The result of an exec triplet read, seen as positions in `int`.
pub open spec fn triplet_result_view(r: Result<(u32, u32, u32, usize), TripletError>) -> Result<(u32, u32, u32, int), TripletError> {
    match r {
        Ok((a, b, c, e)) => Ok((a, b, c, e as int)),
        Err(x) => Err(x),
    }
}

impl TypstVersion {
    /// A numbered version.
    pub fn new(major: u32, minor: u32, patch: u32) -> (v: Self)
        ensures
            v@ == triplet_view(major, minor, patch),
    {
        TypstVersion { major, minor, patch, raw: None, commit: None }
    }

    /// A raw-named version.
    pub fn raw(v: String) -> (r: Self)
        ensures
            r@ == raw_view(v@),
    {
        TypstVersion { major: 0, minor: 0, patch: 0, raw: Some(v), commit: None }
    }

    /// Raw when a raw name is present, numbered otherwise.
    pub fn get_prefix(&self) -> (p: VersionPrefix)
        ensures
            p == prefix_of(self@),
    {
        match self.raw {
            Some(_) => VersionPrefix::Raw,
            None => VersionPrefix::Versioned,
        }
    }

    /// The raw name, or `major.minor.patch` in decimal.
    pub fn get_string(&self) -> (s: String)
        ensures
            s@ == version_text(self@),
    {
        match &self.raw {
            Some(r) => r.clone(),
            None => {
                let mut s = String::new();
                push_decimal(&mut s, self.major);
                push_char(&mut s, '.');
                push_decimal(&mut s, self.minor);
                push_char(&mut s, '.');
                push_decimal(&mut s, self.patch);
                s
            },
        }
    }

    /// Reads `major.minor.patch` from `s` at position `pos`, and gives the numbers and
    /// the position just past the patch digits.
    pub fn parse_triplet(s: &[char], pos: usize) -> (r: Result<(u32, u32, u32, usize), TripletError>)
        requires
            pos <= s@.len(),
        ensures
            triplet_result_view(r) == triplet_at(s@, pos as int),
            r matches Ok((_, _, _, e)) ==> pos <= e <= s@.len(),
    {
        let (major, e1) = number_then(s, pos);
        let major = match major {
            Some(m) => m,
            None => return Err(TripletError::Major),
        };
        if !(e1 < s.len() && s[e1] == '.') {
            return Err(TripletError::MissingMajorDot);
        }
        let (minor, e2) = number_then(s, e1 + 1);
        let minor = match minor {
            Some(m) => m,
            None => return Err(TripletError::Minor),
        };
        if !(e2 < s.len() && s[e2] == '.') {
            return Err(TripletError::MissingMinorDot);
        }
        let (patch, e3) = number_then(s, e2 + 1);
        match patch {
            Some(p) => Ok((major, minor, p, e3)),
            None => Err(TripletError::Patch),
        }
    }

    /// The version a text denotes: numbered if it starts with a triplet, raw otherwise.
    pub fn parse_str(value: &str) -> (v: Self)
        ensures
            v@ == version_from_text(value@),
    {
        let cs = chars_of(value);
        match Self::parse_triplet(cs.as_slice(), 0) {
            Ok((a, b, c, _)) => Self::new(a, b, c),
            Err(_) => Self::raw(value.to_owned()),
        }
    }

    /// Whether two versions are the same version (see `same_version`).
    pub fn same_as(&self, other: &Self) -> (r: bool)
        ensures
            r == same_version(self@, other@),
    {
        match (&self.raw, &other.raw) {
            (None, None) => self.major == other.major && self.minor == other.minor && self.patch
                == other.patch,
            (Some(a), Some(b)) => *a == *b,
            _ => false,
        }
    }

    /// What a hash of the version covers: the raw name, or else the triplet.
    pub fn hash_key(&self) -> (k: (Option<String>, u32, u32, u32))
        ensures
            (opt_view(k.0), k.1, k.2, k.3) == key_of(self@),
    {
        match &self.raw {
            Some(r) => (Some(r.clone()), 0, 0, 0),
            None => (None, self.major, self.minor, self.patch),
        }
    }

    /// A copy with the same view.
    pub fn duplicate(&self) -> (v: Self)
        ensures
            v@ == self@,
    {
        let raw = match &self.raw {
            Some(r) => Some(r.clone()),
            None => None,
        };
        let commit = match &self.commit {
            Some(c) => Some(c.clone()),
            None => None,
        };
        TypstVersion { major: self.major, minor: self.minor, patch: self.patch, raw, commit }
    }
}


impl PartialEq for TypstVersion {
    fn eq(&self, other: &Self) -> (r: bool) {
        self.same_as(other)
    }
}

impl vstd::std_specs::cmp::PartialEqSpecImpl for TypstVersion {
    open spec fn obeys_eq_spec() -> bool {
        true
    }

    open spec fn eq_spec(&self, other: &Self) -> bool {
        same_version(self@, other@)
    }
}

/// `Hash::hash` of an optional string.
#[verifier::external_body]
fn hash_opt_string<H: core::hash::Hasher>(r: &Option<String>, state: &mut H) {
    core::hash::Hash::hash(r, state)
}

/// `Hash::hash` of a `u32`.
#[verifier::external_body]
fn hash_u32<H: core::hash::Hasher>(x: u32, state: &mut H) {
    core::hash::Hash::hash(&x, state)
}

impl core::hash::Hash for TypstVersion {
    /// Hashes the raw name of a raw version, and the three numbers of a numbered one:
    /// the parts that equality compares (see `key_of`).
    fn hash<H: core::hash::Hasher>(&self, state: &mut H) {
        match self.get_prefix() {
            VersionPrefix::Raw => hash_opt_string(&self.raw, state),
            VersionPrefix::Versioned => {
                hash_u32(self.major, state);
                hash_u32(self.minor, state);
                hash_u32(self.patch, state);
            },
        }
    }
}

impl Clone for TypstVersion {
    fn clone(&self) -> (v: Self)
        ensures
            v@ == self@,
    {
        self.duplicate()
    }
}

impl core::str::FromStr for TypstVersion {
    type Err = core::convert::Infallible;

    fn from_str(value: &str) -> (r: Result<Self, Self::Err>)
        ensures
            r matches Ok(v) && v@ == version_from_text(value@),
    {
        Ok(Self::parse_str(value))
    }
}

impl core::str::FromStr for VersionPrefix {
    type Err = ();

    fn from_str(s: &str) -> (r: Result<Self, Self::Err>)
        ensures
            r matches Ok(p) ==> prefix_from_text(s@) == Some(p),
            r is Err <==> prefix_from_text(s@) is None,
    {
        Self::from_tag(s)
    }
}

} // verus!
