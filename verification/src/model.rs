//! The mathematical model of the two conversions: spec functions over
//! `Seq<char>` that the executable engine is proved against.

use vstd::prelude::*;

verus! {

/// The CRLF-to-LF conversion: every `\r\n` pair becomes `\n`, a lone
/// `\r` (one not immediately followed by `\n`) and every other
/// character pass through unchanged.
pub open spec fn crlf_to_lf_spec(s: Seq<char>) -> Seq<char>
    decreases s.len(),
{
    if s.len() == 0 {
        Seq::<char>::empty()
    } else if s[0] == '\r' && s.len() >= 2 && s[1] == '\n' {
        seq!['\n'] + crlf_to_lf_spec(s.skip(2))
    } else {
        seq![s[0]] + crlf_to_lf_spec(s.skip(1))
    }
}

/// The LF-to-CRLF conversion: an existing `\r\n` pair is kept verbatim,
/// a `\n` not preceded by `\r` becomes `\r\n`, a lone `\r` and every
/// other character pass through unchanged.
pub open spec fn lf_to_crlf_spec(s: Seq<char>) -> Seq<char>
    decreases s.len(),
{
    if s.len() == 0 {
        Seq::<char>::empty()
    } else if s[0] == '\r' && s.len() >= 2 && s[1] == '\n' {
        seq!['\r', '\n'] + lf_to_crlf_spec(s.skip(2))
    } else if s[0] == '\n' {
        seq!['\r', '\n'] + lf_to_crlf_spec(s.skip(1))
    } else {
        seq![s[0]] + lf_to_crlf_spec(s.skip(1))
    }
}

/// How many `\n` characters are not already part of a `\r\n` pair.
/// This is exactly the number of characters that `lf_to_crlf_spec`
/// adds, so it drives the output pre-allocation.
pub open spec fn lone_lf_count(s: Seq<char>) -> nat
    decreases s.len(),
{
    if s.len() == 0 {
        0
    } else if s[0] == '\r' && s.len() >= 2 && s[1] == '\n' {
        lone_lf_count(s.skip(2))
    } else if s[0] == '\n' {
        1 + lone_lf_count(s.skip(1))
    } else {
        lone_lf_count(s.skip(1))
    }
}

/// No `\r\n` pair occurs anywhere in `s`.
pub open spec fn crlf_free(s: Seq<char>) -> bool {
    forall|i: int| 0 <= i < s.len() - 1 ==> !(#[trigger] s[i] == '\r' && s[i + 1] == '\n')
}

/// No `\r\r\n` occurs anywhere in `s`: no lone `\r` stands immediately
/// before a `\r\n` pair.
pub open spec fn cr_crlf_free(s: Seq<char>) -> bool {
    forall|i: int|
        0 <= i < s.len() - 2 ==> !(#[trigger] s[i] == '\r' && s[i + 1] == '\r' && s[i + 2] == '\n')
}

/// Every `\n` in `s` is immediately preceded by a `\r`.
pub open spec fn every_lf_preceded_by_cr(s: Seq<char>) -> bool {
    forall|i: int| 0 <= i < s.len() && #[trigger] s[i] == '\n' ==> i > 0 && s[i - 1] == '\r'
}

} // verus!
