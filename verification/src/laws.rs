//! Laws of the two conversions, proved over the model: length bounds,
//! fixed points, idempotence, the shape of the output, and the round
//! trips between the two directions.

use crate::model::{
    cr_crlf_free, crlf_free, crlf_to_lf_spec, every_lf_preceded_by_cr, lf_to_crlf_spec,
    lone_lf_count,
};
use vstd::prelude::*;

verus! {

/// The first character of a non-empty CRLF-to-LF conversion: `\n` when
/// the input starts with a `\r\n` pair, the input's first character
/// otherwise.
proof fn lemma_crlf_to_lf_head(s: Seq<char>)
    requires
        s.len() > 0,
    ensures
        crlf_to_lf_spec(s).len() > 0,
        crlf_to_lf_spec(s)[0] == (if s[0] == '\r' && s.len() >= 2 && s[1] == '\n' {
            '\n'
        } else {
            s[0]
        }),
{
}

/// The first character of a non-empty LF-to-CRLF conversion: `\r` when
/// the input starts with `\n`, the input's first character otherwise.
proof fn lemma_lf_to_crlf_head(s: Seq<char>)
    requires
        s.len() > 0,
    ensures
        lf_to_crlf_spec(s).len() > 0,
        lf_to_crlf_spec(s)[0] == (if s[0] == '\n' {
            '\r'
        } else {
            s[0]
        }),
{
}

/// Dropping a prefix keeps a sequence free of `\r\n` pairs.
proof fn lemma_crlf_free_skip(s: Seq<char>, k: int)
    requires
        0 <= k <= s.len(),
        crlf_free(s),
    ensures
        crlf_free(s.skip(k)),
{
    assert forall|i: int|
        0 <= i < s.skip(k).len() - 1 implies !(#[trigger] s.skip(k)[i] == '\r' && s.skip(k)[i
        + 1] == '\n') by {
        assert(s.skip(k)[i] == s[i + k]);
        assert(s.skip(k)[i + 1] == s[i + k + 1]);
    }
}

/// Dropping a prefix keeps a sequence free of `\r\r\n`.
proof fn lemma_cr_crlf_free_skip(s: Seq<char>, k: int)
    requires
        0 <= k <= s.len(),
        cr_crlf_free(s),
    ensures
        cr_crlf_free(s.skip(k)),
{
    assert forall|i: int|
        0 <= i < s.skip(k).len() - 2 implies !(#[trigger] s.skip(k)[i] == '\r' && s.skip(k)[i
        + 1] == '\r' && s.skip(k)[i + 2] == '\n') by {
        assert(s.skip(k)[i] == s[i + k]);
        assert(s.skip(k)[i + 1] == s[i + k + 1]);
        assert(s.skip(k)[i + 2] == s[i + k + 2]);
    }
}

/// CRLF-to-LF never lengthens its input.
pub proof fn lemma_crlf_to_lf_len(s: Seq<char>)
    ensures
        crlf_to_lf_spec(s).len() <= s.len(),
    decreases s.len(),
{
    if s.len() == 0 {
    } else if s[0] == '\r' && s.len() >= 2 && s[1] == '\n' {
        lemma_crlf_to_lf_len(s.skip(2));
    } else {
        lemma_crlf_to_lf_len(s.skip(1));
    }
}

/// LF-to-CRLF adds exactly one character per `\n` that is not already
/// part of a `\r\n` pair; in particular it never shortens its input.
/// This is the law that ties the sizing pass to the conversion pass.
pub proof fn lemma_lf_to_crlf_len(s: Seq<char>)
    ensures
        lf_to_crlf_spec(s).len() == s.len() + lone_lf_count(s),
        s.len() <= lf_to_crlf_spec(s).len(),
    decreases s.len(),
{
    if s.len() == 0 {
    } else if s[0] == '\r' && s.len() >= 2 && s[1] == '\n' {
        lemma_lf_to_crlf_len(s.skip(2));
    } else {
        lemma_lf_to_crlf_len(s.skip(1));
    }
}

/// An input without any `\r\n` pair passes through CRLF-to-LF
/// unchanged.
pub proof fn lemma_crlf_to_lf_fixed_point(s: Seq<char>)
    requires
        crlf_free(s),
    ensures
        crlf_to_lf_spec(s) == s,
    decreases s.len(),
{
    if s.len() == 0 {
        assert(crlf_to_lf_spec(s) =~= s);
    } else {
        assert(!(s[0] == '\r' && s.len() >= 2 && s[1] == '\n'));
        lemma_crlf_free_skip(s, 1);
        lemma_crlf_to_lf_fixed_point(s.skip(1));
        assert(crlf_to_lf_spec(s) =~= s);
    }
}

/// An input in which every `\n` is already preceded by `\r` passes
/// through LF-to-CRLF unchanged.
pub proof fn lemma_lf_to_crlf_fixed_point(s: Seq<char>)
    requires
        every_lf_preceded_by_cr(s),
    ensures
        lf_to_crlf_spec(s) == s,
    decreases s.len(),
{
    if s.len() == 0 {
        assert(lf_to_crlf_spec(s) =~= s);
    } else if s[0] == '\r' && s.len() >= 2 && s[1] == '\n' {
        assert forall|i: int|
            0 <= i < s.skip(2).len() && #[trigger] s.skip(2)[i] == '\n' implies i > 0 && s.skip(2)[i
            - 1] == '\r' by {
            assert(s.skip(2)[i] == s[i + 2]);
            if i > 0 {
                assert(s.skip(2)[i - 1] == s[i + 1]);
            } else {
                assert(s[1] == '\r');  // contradiction with s[1] == '\n'
            }
        }
        lemma_lf_to_crlf_fixed_point(s.skip(2));
        assert(lf_to_crlf_spec(s) =~= s);
    } else {
        assert(s[0] != '\n');
        assert(s.len() >= 2 ==> s[1] != '\n');
        assert forall|i: int|
            0 <= i < s.skip(1).len() && #[trigger] s.skip(1)[i] == '\n' implies i > 0 && s.skip(1)[i
            - 1] == '\r' by {
            assert(s.skip(1)[i] == s[i + 1]);
            if i > 0 {
                assert(s.skip(1)[i - 1] == s[i]);
            }
        }
        lemma_lf_to_crlf_fixed_point(s.skip(1));
        assert(lf_to_crlf_spec(s) =~= s);
    }
}

/// No `\r\n` pair remains after CRLF-to-LF, provided the input holds no
/// `\r\r\n` (there the lone `\r` passes through and lands directly
/// before the `\n` that the following pair collapses to).
pub proof fn lemma_crlf_to_lf_crlf_free(s: Seq<char>)
    requires
        cr_crlf_free(s),
    ensures
        crlf_free(crlf_to_lf_spec(s)),
    decreases s.len(),
{
    if s.len() == 0 {
    } else if s[0] == '\r' && s.len() >= 2 && s[1] == '\n' {
        lemma_cr_crlf_free_skip(s, 2);
        lemma_crlf_to_lf_crlf_free(s.skip(2));
        let out = crlf_to_lf_spec(s);
        let tail = crlf_to_lf_spec(s.skip(2));
        assert forall|i: int|
            0 <= i < out.len() - 1 implies !(#[trigger] out[i] == '\r' && out[i + 1] == '\n') by {
            if i == 0 {
                assert(out[0] == '\n');
            } else {
                assert(out[i] == tail[i - 1]);
                assert(out[i + 1] == tail[i]);
            }
        }
    } else {
        lemma_cr_crlf_free_skip(s, 1);
        lemma_crlf_to_lf_crlf_free(s.skip(1));
        let out = crlf_to_lf_spec(s);
        let tail = crlf_to_lf_spec(s.skip(1));
        if s[0] == '\r' && s.len() >= 2 {
            // the next character of the output is not `\n`: it is either
            // s[1] itself (not `\n` here) or the `\n` of a pair at s[1],
            // which `cr_crlf_free` rules out
            lemma_crlf_to_lf_head(s.skip(1));
            assert(s.skip(1)[0] == s[1]);
            assert(s.skip(1).len() >= 2 ==> s.skip(1)[1] == s[2]);
            assert(tail[0] != '\n');
        }
        assert forall|i: int|
            0 <= i < out.len() - 1 implies !(#[trigger] out[i] == '\r' && out[i + 1] == '\n') by {
            if i == 0 {
                assert(out[1] == tail[0]);
            } else {
                assert(out[i] == tail[i - 1]);
                assert(out[i + 1] == tail[i]);
            }
        }
    }
}

/// After LF-to-CRLF every `\n` is immediately preceded by `\r`, on any
/// input.
pub proof fn lemma_lf_to_crlf_every_lf_preceded(s: Seq<char>)
    ensures
        every_lf_preceded_by_cr(lf_to_crlf_spec(s)),
    decreases s.len(),
{
    if s.len() == 0 {
    } else if (s[0] == '\r' && s.len() >= 2 && s[1] == '\n') || s[0] == '\n' {
        let k: int = if s[0] == '\n' { 1 } else { 2 };
        lemma_lf_to_crlf_every_lf_preceded(s.skip(k));
        let out = lf_to_crlf_spec(s);
        let tail = lf_to_crlf_spec(s.skip(k));
        assert(out =~= seq!['\r', '\n'] + tail);
        assert forall|i: int|
            0 <= i < out.len() && #[trigger] out[i] == '\n' implies i > 0 && out[i - 1] == '\r' by {
            if i >= 2 {
                assert(out[i] == tail[i - 2]);
                assert(i - 2 > 0 ==> out[i - 1] == tail[i - 3]);
            }
        }
    } else {
        lemma_lf_to_crlf_every_lf_preceded(s.skip(1));
        let out = lf_to_crlf_spec(s);
        let tail = lf_to_crlf_spec(s.skip(1));
        assert forall|i: int|
            0 <= i < out.len() && #[trigger] out[i] == '\n' implies i > 0 && out[i - 1] == '\r' by {
            if i >= 1 {
                assert(out[i] == tail[i - 1]);
                assert(i - 1 > 0 ==> out[i - 1] == tail[i - 2]);
            }
        }
    }
}

/// CRLF-to-LF is idempotent, provided the input holds no `\r\r\n`:
/// applying it twice yields the same result as applying it once.
pub proof fn lemma_crlf_to_lf_idempotent(s: Seq<char>)
    requires
        cr_crlf_free(s),
    ensures
        crlf_to_lf_spec(crlf_to_lf_spec(s)) == crlf_to_lf_spec(s),
{
    lemma_crlf_to_lf_crlf_free(s);
    lemma_crlf_to_lf_fixed_point(crlf_to_lf_spec(s));
}

/// LF-to-CRLF is idempotent on every input: applying it twice yields
/// the same result as applying it once.
pub proof fn lemma_lf_to_crlf_idempotent(s: Seq<char>)
    ensures
        lf_to_crlf_spec(lf_to_crlf_spec(s)) == lf_to_crlf_spec(s),
{
    lemma_lf_to_crlf_every_lf_preceded(s);
    lemma_lf_to_crlf_fixed_point(lf_to_crlf_spec(s));
}

/// Round trip for LF-style inputs: on an input without any `\r\n` pair
/// (every pure-LF text in particular), expanding to CRLF and collapsing
/// back to LF restores the input exactly.
pub proof fn lemma_lf_round_trip(s: Seq<char>)
    requires
        crlf_free(s),
    ensures
        crlf_to_lf_spec(lf_to_crlf_spec(s)) == s,
    decreases s.len(),
{
    if s.len() == 0 {
        assert(crlf_to_lf_spec(lf_to_crlf_spec(s)) =~= s);
    } else {
        assert(!(s[0] == '\r' && s.len() >= 2 && s[1] == '\n'));
        lemma_crlf_free_skip(s, 1);
        lemma_lf_round_trip(s.skip(1));
        let tail = lf_to_crlf_spec(s.skip(1));
        if s[0] == '\n' {
            let out = lf_to_crlf_spec(s);
            assert(out == seq!['\r', '\n'] + tail);
            assert(out[0] == '\r' && out[1] == '\n');
            assert(out.skip(2) =~= tail);
            assert(crlf_to_lf_spec(out) =~= s);
        } else {
            let out = lf_to_crlf_spec(s);
            assert(out == seq![s[0]] + tail);
            if s.len() >= 2 {
                lemma_lf_to_crlf_head(s.skip(1));
                assert(s.skip(1)[0] == s[1]);
                assert(out[1] == tail[0]);
                assert(out[1] != '\n');
            }
            assert(out.skip(1) =~= tail);
            assert(crlf_to_lf_spec(out) =~= s);
        }
    }
}

/// Round trip for CRLF-style inputs: on an input in which every `\n` is
/// preceded by `\r` and no `\r\r\n` occurs (every pure-CRLF text in
/// particular), collapsing to LF and expanding back to CRLF restores
/// the input exactly.
pub proof fn lemma_crlf_round_trip(s: Seq<char>)
    requires
        every_lf_preceded_by_cr(s),
        cr_crlf_free(s),
    ensures
        lf_to_crlf_spec(crlf_to_lf_spec(s)) == s,
    decreases s.len(),
{
    if s.len() == 0 {
        assert(lf_to_crlf_spec(crlf_to_lf_spec(s)) =~= s);
    } else if s[0] == '\r' && s.len() >= 2 && s[1] == '\n' {
        assert forall|i: int|
            0 <= i < s.skip(2).len() && #[trigger] s.skip(2)[i] == '\n' implies i > 0 && s.skip(2)[i
            - 1] == '\r' by {
            assert(s.skip(2)[i] == s[i + 2]);
            if i > 0 {
                assert(s.skip(2)[i - 1] == s[i + 1]);
            } else {
                assert(s[1] == '\r');  // contradiction with s[1] == '\n'
            }
        }
        lemma_cr_crlf_free_skip(s, 2);
        lemma_crlf_round_trip(s.skip(2));
        let tail = crlf_to_lf_spec(s.skip(2));
        let out = crlf_to_lf_spec(s);
        assert(out == seq!['\n'] + tail);
        assert(out[0] == '\n');
        assert(out.skip(1) =~= tail);
        assert(lf_to_crlf_spec(out) =~= s);
    } else {
        assert(s[0] != '\n');
        assert(s.len() >= 2 ==> s[1] != '\n');
        assert forall|i: int|
            0 <= i < s.skip(1).len() && #[trigger] s.skip(1)[i] == '\n' implies i > 0 && s.skip(1)[i
            - 1] == '\r' by {
            assert(s.skip(1)[i] == s[i + 1]);
            if i > 0 {
                assert(s.skip(1)[i - 1] == s[i]);
            }
        }
        lemma_cr_crlf_free_skip(s, 1);
        lemma_crlf_round_trip(s.skip(1));
        let tail = crlf_to_lf_spec(s.skip(1));
        let out = crlf_to_lf_spec(s);
        assert(out == seq![s[0]] + tail);
        if s[0] == '\r' && s.len() >= 2 {
            // the character after the leading lone `\r` in the output is
            // not `\n`: it is either s[1] itself (not `\n` here) or the
            // `\n` of a pair at s[1], which `cr_crlf_free` rules out
            lemma_crlf_to_lf_head(s.skip(1));
            assert(s.skip(1)[0] == s[1]);
            assert(s.skip(1).len() >= 2 ==> s.skip(1)[1] == s[2]);
            assert(out[1] == tail[0]);
            assert(out[1] != '\n');
        }
        assert(out.skip(1) =~= tail);
        assert(lf_to_crlf_spec(out) =~= s);
    }
}

} // verus!
