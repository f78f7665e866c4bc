//! Recognising Typst binaries and the version they report.

use vstd::prelude::*;

use crate::text::{chars_of, lemma_decoded_chars, run_end, scan_run, utf8_str, CharClass};
use crate::cache::{
    char_at_is, lemma_triplet_text_then, triplet_at, triplet_text, TripletError, TypstVersion,
    VersionView,
};
use crate::text::{in_class, lemma_run_end_block};

verus! {

/// The word every Typst version report starts with.
pub open spec fn typst_word() -> Seq<char> {
    seq!['t', 'y', 'p', 's', 't']
}

/// Whether `s` starts with `typst`.
pub open spec fn starts_with_typst(s: Seq<char>) -> bool {
    s.len() >= 5 && s.subrange(0, 5) == typst_word()
}

/// Why a version report was not understood.
#[derive(Debug, Clone, Copy, PartialEq, Eq, Structural)]
pub enum ReportError {
    /// The report does not start with `typst`.
    NotTypst,
    /// No `major.minor.patch` triplet follows.
    Triplet(TripletError),
    /// No commit hash in parentheses follows the triplet.
    NoCommit,
}

/// What `typst --version` printed, read as a version: `typst`, optional whitespace, a
/// triplet, optional whitespace, and a hexadecimal commit hash in parentheses. Anything
/// after the closing parenthesis is ignored.
pub open spec fn report_version(s: Seq<char>) -> Result<VersionView, ReportError> {
    if !starts_with_typst(s) {
        Err(ReportError::NotTypst)
    } else {
        let i = run_end(s, 5, CharClass::Whitespace);
        match triplet_at(s, i) {
            Err(e) => Err(ReportError::Triplet(e)),
            Ok((a, b, c, e3)) => {
                let j = run_end(s, e3, CharClass::Whitespace);
                if char_at_is(s, j, '(') {
                    let h = run_end(s, j + 1, CharClass::HexDigit);
                    if char_at_is(s, h, ')') {
                        Ok(
                            VersionView {
                                major: a,
                                minor: b,
                                patch: c,
                                raw: None,
                                commit: Some(s.subrange(j + 1, h)),
                            },
                        )
                    } else {
                        Err(ReportError::NoCommit)
                    }
                } else {
                    Err(ReportError::NoCommit)
                }
            },
        }
    }
}

/// The report `typst a.b.c (hash)`, with a hexadecimal hash and whatever follows the
/// closing parenthesis, reads as the numbered version `a.b.c` with that commit.
pub proof fn law_report_reads_version(a: u32, b: u32, c: u32, hash: Seq<char>, rest: Seq<char>)
    requires
        forall|k: int| 0 <= k < hash.len() ==> in_class(CharClass::HexDigit, #[trigger] hash[k]),
    ensures
        report_version(
            typst_word() + seq![' '] + triplet_text(a, b, c) + seq![' ', '('] + hash + seq![')']
                + rest,
        ) == Ok::<VersionView, ReportError>(
            VersionView { major: a, minor: b, patch: c, raw: None, commit: Some(hash) },
        ),
{
    let pre = typst_word() + seq![' '];
    let t = triplet_text(a, b, c);
    let tail = seq![' ', '('] + hash + seq![')'] + rest;
    let s = pre + t + tail;
    assert(s =~= typst_word() + seq![' '] + triplet_text(a, b, c) + seq![' ', '('] + hash + seq![')']
        + rest);
    assert(s.subrange(0, 5) =~= typst_word());
    assert(s[5] == ' ');
    crate::cache::lemma_decimal_starts_with_digit(a);
    assert(s[6] == t[0]);
    lemma_run_end_block(s, 5, 1, CharClass::Whitespace);
    assert(tail[0] == ' ');
    lemma_triplet_text_then(pre, a, b, c, tail);
    let e3 = (pre + t).len() as int;
    assert(s[e3] == ' ');
    assert(s[e3 + 1] == '(');
    lemma_run_end_block(s, e3, 1, CharClass::Whitespace);
    assert forall|k: int| e3 + 2 <= k < e3 + 2 + hash.len() implies in_class(CharClass::HexDigit, #[trigger] s[k]) by {
        assert(s[k] == hash[k - e3 - 2]);
    }
    assert(s[e3 + 2 + hash.len()] == ')');
    lemma_run_end_block(s, e3 + 2, hash.len() as int, CharClass::HexDigit);
    assert(s.subrange(e3 + 2, e3 + 2 + hash.len()) =~= hash);
}

/// Reads the version report of a Typst binary (see `report_version`).
pub fn typst_cli_version(value: &str) -> (r: Result<TypstVersion, ReportError>)
    ensures
        match r {
            Ok(v) => report_version(value@) == Ok::<VersionView, ReportError>(v@),
            Err(e) => report_version(value@) == Err::<VersionView, ReportError>(e),
        },
{
    let cs = chars_of(value);
    let s = cs.as_slice();
    if !(cs.len() >= 5 && cs[0] == 't' && cs[1] == 'y' && cs[2] == 'p' && cs[3] == 's' && cs[4]
        == 't') {
        assert(!starts_with_typst(value@)) by {
            if starts_with_typst(value@) {
                assert(value@.subrange(0, 5)[1] == 'y');
            }
        }
        return Err(ReportError::NotTypst);
    }
    assert(value@.subrange(0, 5) == typst_word());
    let i = scan_run(s, 5, CharClass::Whitespace);
    let (a, b, c, e3) = match TypstVersion::parse_triplet(s, i) {
        Ok(t) => t,
        Err(e) => return Err(ReportError::Triplet(e)),
    };
    let j = scan_run(s, e3, CharClass::Whitespace);
    if j < cs.len() && cs[j] == '(' {
        let h = scan_run(s, j + 1, CharClass::HexDigit);
        if h < cs.len() && cs[h] == ')' {
            let hash = crate::text::string_from_chars(s, j + 1, h);
            return Ok(
                TypstVersion { major: a, minor: b, patch: c, raw: None, commit: Some(hash) },
            );
        }
    }
    Err(ReportError::NoCommit)
}

/// The version a binary reported, from its exit status and what it wrote to standard
/// output: only a run that exited with status 0 and printed a readable report counts.
pub open spec fn reported_version(status: Option<i32>, stdout: Seq<u8>) -> Option<VersionView> {
    if status == Some(0i32) && vstd::utf8::valid_utf8(stdout) {
        match report_version(vstd::utf8::decode_utf8(stdout)) {
            Ok(v) => Some(v),
            Err(_) => None,
        }
    } else {
        None
    }
}

/// The version that running `<binary> --version` yields (see `reported_version`).
pub fn version_from_output(status: Option<i32>, stdout: &[u8]) -> (r: Option<TypstVersion>)
    ensures
        crate::cache::read_cache::opt_version_view(r) == reported_version(status, stdout@),
{
    match status {
        Some(0) => {},
        _ => return None,
    }
    let s = match utf8_str(stdout) {
        Some(s) => s,
        None => return None,
    };
    proof {
        lemma_decoded_chars(s, stdout@);
    }
    match typst_cli_version(s) {
        Ok(v) => Some(v),
        Err(_) => None,
    }
}

/// The version a discovered binary gets: the name the configuration gives it, if any,
/// as a raw version; otherwise what its `--version` run reported.
pub open spec fn discovered_version_spec(named: Option<Seq<char>>, status: Option<i32>, stdout: Seq<u8>) -> Option<VersionView> {
    match named {
        Some(n) => Some(crate::cache::raw_view(n)),
        None => reported_version(status, stdout),
    }
}

/// Decides the version of a discovered binary (see `discovered_version_spec`). When a
/// name is given, the status and output are not looked at, so the binary need not have
/// been run.
pub fn discovered_version(named: Option<String>, status: Option<i32>, stdout: &[u8]) -> (r: Option<TypstVersion>)
    ensures
        crate::cache::read_cache::opt_version_view(r) == discovered_version_spec(
            match named {
                Some(n) => Some(n@),
                None => None,
            },
            status,
            stdout@,
        ),
{
    match named {
        Some(n) => Some(TypstVersion::raw(n)),
        None => version_from_output(status, stdout),
    }
}

/// Whether a directory entry may be a Typst binary: a file whose name without
/// extension starts with `typst`.
pub open spec fn may_be_typst_spec(is_file: bool, file_stem: Option<Seq<char>>) -> bool {
    is_file && match file_stem {
        Some(stem) => starts_with_typst(stem),
        None => false,
    }
}

/// Decides whether a candidate may be Typst from whether it is a file and from its file
/// stem (lossily converted to text).
pub fn may_be_typst(is_file: bool, file_stem: Option<&str>) -> (r: bool)
    ensures
        r == may_be_typst_spec(
            is_file,
            match file_stem {
                Some(s) => Some(s@),
                None => None,
            },
        ),
{
    if !is_file {
        return false;
    }
    match file_stem {
        Some(stem) => {
            let cs = chars_of(stem);
            let r = cs.len() >= 5 && cs[0] == 't' && cs[1] == 'y' && cs[2] == 'p' && cs[3] == 's'
                && cs[4] == 't';
            assert(r == starts_with_typst(stem@)) by {
                if cs.len() >= 5 {
                    assert(stem@.subrange(0, 5)[0] == stem@[0]);
                    assert(stem@.subrange(0, 5)[1] == stem@[1]);
                    assert(stem@.subrange(0, 5)[2] == stem@[2]);
                    assert(stem@.subrange(0, 5)[3] == stem@[3]);
                    assert(stem@.subrange(0, 5)[4] == stem@[4]);
                    if r {
                        assert(stem@.subrange(0, 5) == typst_word());
                    }
                }
            }
            r
        },
        None => false,
    }
}

} // verus!
