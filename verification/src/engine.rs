//! The executable conversion engine: single-pass loops over the input
//! characters, proved to compute exactly the model's spec functions.

use crate::model::{crlf_to_lf_spec, lf_to_crlf_spec, lone_lf_count};
use vstd::prelude::*;
use vstd::string::StrSliceExecFns;

verus! {

/// Relies on alloc's `String::push`: appends the given character to the
/// end of the string.
pub assume_specification[ String::push ](s: &mut String, ch: char)
    ensures
        final(s)@ == old(s)@.push(ch),
;

/// Relies on alloc's `String::with_capacity`: returns a new empty string;
/// the capacity argument only pre-allocates storage.
pub assume_specification[ String::with_capacity ](capacity: usize) -> (s: String)
    ensures
        s@ == Seq::<char>::empty(),
;

/// Collects the characters of a string slice into a vector, so that the
/// conversion loops can look one character ahead in constant time.
fn str_to_chars(s: &str) -> (v: Vec<char>)
    ensures
        v@ == s@,
{
    let n = s.unicode_len();
    let mut v: Vec<char> = Vec::new();
    let mut i: usize = 0;
    while i < n
        invariant
            n == s@.len(),
            i <= n,
            v@ == s@.take(i as int),
        decreases n - i,
    {
        let c = s.get_char(i);
        v.push(c);
        proof {
            assert(s@.take(i as int).push(c) =~= s@.take(i + 1 as int));
        }
        i = i + 1;
    }
    proof {
        assert(s@.take(n as int) =~= s@);
    }
    v
}

/// Counts the `\n` characters that are not part of a `\r\n` pair: the
/// sizing pass for `lf_to_crlf`, proved to agree exactly with the
/// conversion pass (see `lone_lf_count` and the length law).
fn count_lone_lf(v: &Vec<char>) -> (count: usize)
    ensures
        count as nat == lone_lf_count(v@),
{
    let mut count: usize = 0;
    let mut i: usize = 0;
    proof {
        assert(v@.skip(0) =~= v@);
    }
    while i < v.len()
        invariant
            i <= v.len(),
            count <= i,
            count as nat + lone_lf_count(v@.skip(i as int)) == lone_lf_count(v@),
        decreases v.len() - i,
    {
        let ghost rest = v@.skip(i as int);
        let c = v[i];
        if c == '\r' && i + 1 < v.len() && v[i + 1] == '\n' {
            proof {
                assert(rest[0] == '\r' && rest[1] == '\n');
                assert(rest.skip(2) =~= v@.skip(i + 2 as int));
            }
            i = i + 2;
        } else if c == '\n' {
            proof {
                assert(rest[0] == '\n');
                assert(rest.skip(1) =~= v@.skip(i + 1 as int));
            }
            count = count + 1;
            i = i + 1;
        } else {
            proof {
                assert(rest.skip(1) =~= v@.skip(i + 1 as int));
            }
            i = i + 1;
        }
    }
    proof {
        assert(v@.skip(v@.len() as int) =~= Seq::<char>::empty());
    }
    count
}

/// Converts CRLF line endings to LF: every `\r\n` pair becomes `\n`,
/// every other character (a lone `\r` included) is passed through.
pub fn crlf_to_lf(string: &str) -> (result: String)
    ensures
        result@ == crlf_to_lf_spec(string@),
{
    let chars = str_to_chars(string);
    let mut result = String::with_capacity(chars.len());
    let mut i: usize = 0;
    proof {
        assert(chars@.skip(0) =~= chars@);
        assert(result@ + crlf_to_lf_spec(chars@) =~= crlf_to_lf_spec(chars@));
    }
    while i < chars.len()
        invariant
            chars@ == string@,
            i <= chars.len(),
            result@ + crlf_to_lf_spec(chars@.skip(i as int)) == crlf_to_lf_spec(chars@),
        decreases chars.len() - i,
    {
        let ghost pre = result@;
        let ghost rest = chars@.skip(i as int);
        let c = chars[i];
        if c == '\r' && i + 1 < chars.len() && chars[i + 1] == '\n' {
            result.push('\n');
            proof {
                assert(rest[0] == '\r' && rest[1] == '\n');
                assert(rest.skip(2) =~= chars@.skip(i + 2 as int));
                assert(result@ + crlf_to_lf_spec(chars@.skip(i + 2 as int)) =~= pre
                    + crlf_to_lf_spec(rest));
            }
            i = i + 2;
        } else {
            result.push(c);
            proof {
                assert(rest[0] == c);
                assert(rest.skip(1) =~= chars@.skip(i + 1 as int));
                assert(result@ + crlf_to_lf_spec(chars@.skip(i + 1 as int)) =~= pre
                    + crlf_to_lf_spec(rest));
            }
            i = i + 1;
        }
    }
    proof {
        assert(chars@.skip(chars@.len() as int) =~= Seq::<char>::empty());
        assert(result@ + Seq::<char>::empty() =~= result@);
    }
    result
}

/// Converts LF line endings to CRLF: every `\n` not already part of a
/// `\r\n` pair becomes `\r\n`, an existing pair is kept verbatim, and
/// every other character (a lone `\r` included) is passed through.
///
/// The output is pre-sized by the sizing pass `count_lone_lf`, which is
/// proved to agree with the conversion; the capacity is only a
/// pre-allocation hint, so the (unreachable in practice) overflowing
/// sum falls back to the input length.
pub fn lf_to_crlf(string: &str) -> (result: String)
    ensures
        result@ == lf_to_crlf_spec(string@),
{
    let chars = str_to_chars(string);
    let extra = count_lone_lf(&chars);
    let capacity = if extra <= usize::MAX - chars.len() {
        chars.len() + extra
    } else {
        chars.len()
    };
    let mut result = String::with_capacity(capacity);
    let mut i: usize = 0;
    proof {
        assert(chars@.skip(0) =~= chars@);
        assert(result@ + lf_to_crlf_spec(chars@) =~= lf_to_crlf_spec(chars@));
    }
    while i < chars.len()
        invariant
            chars@ == string@,
            i <= chars.len(),
            result@ + lf_to_crlf_spec(chars@.skip(i as int)) == lf_to_crlf_spec(chars@),
        decreases chars.len() - i,
    {
        let ghost pre = result@;
        let ghost rest = chars@.skip(i as int);
        let c = chars[i];
        if c == '\r' && i + 1 < chars.len() && chars[i + 1] == '\n' {
            result.push('\r');
            result.push('\n');
            proof {
                assert(rest[0] == '\r' && rest[1] == '\n');
                assert(rest.skip(2) =~= chars@.skip(i + 2 as int));
                assert(result@ + lf_to_crlf_spec(chars@.skip(i + 2 as int)) =~= pre
                    + lf_to_crlf_spec(rest));
            }
            i = i + 2;
        } else if c == '\n' {
            result.push('\r');
            result.push('\n');
            proof {
                assert(rest[0] == '\n');
                assert(rest.skip(1) =~= chars@.skip(i + 1 as int));
                assert(result@ + lf_to_crlf_spec(chars@.skip(i + 1 as int)) =~= pre
                    + lf_to_crlf_spec(rest));
            }
            i = i + 1;
        } else {
            result.push(c);
            proof {
                assert(rest[0] == c);
                assert(rest.skip(1) =~= chars@.skip(i + 1 as int));
                assert(result@ + lf_to_crlf_spec(chars@.skip(i + 1 as int)) =~= pre
                    + lf_to_crlf_spec(rest));
            }
            i = i + 1;
        }
    }
    proof {
        assert(chars@.skip(chars@.len() as int) =~= Seq::<char>::empty());
        assert(result@ + Seq::<char>::empty() =~= result@);
    }
    result
}

} // verus!
