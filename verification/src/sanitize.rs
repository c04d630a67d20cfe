//! Removal of ANSI SGR colour escapes from a raw log line.
//!
//! Colour-enabled logs wrap field boundaries in sequences of the shape
//! `ESC [ <digits and semicolons> m`.  Everything else in the line — spaces
//! introduced by the codes included — is kept untouched.

use vstd::prelude::*;
use vstd::string::{StrSliceExecFns, StringExecFns};
use crate::digits::is_digit;

verus! {

/// A character allowed between `ESC[` and the closing `m`.
pub open spec fn is_sgr_param(c: char) -> bool {
    is_digit(c) || c == ';'
}

/// First index at or after `i` holding a character that is not an SGR
/// parameter, or the length of `s`.
pub open spec fn scan_params(s: Seq<char>, i: int) -> int
    decreases s.len() - i when 0 <= i <= s.len()
{
    if i >= s.len() {
        s.len() as int
    } else if is_sgr_param(s[i]) {
        scan_params(s, i + 1)
    } else {
        i
    }
}

pub proof fn lemma_scan_params_bounds(s: Seq<char>, i: int)
    requires
        0 <= i <= s.len(),
    ensures
        i <= scan_params(s, i) <= s.len(),
    decreases s.len() - i,
{
    if i < s.len() && is_sgr_param(s[i]) {
        lemma_scan_params_bounds(s, i + 1);
    }
}

pub proof fn lemma_scan_params_is(s: Seq<char>, i: int, j: int)
    requires
        0 <= i <= j <= s.len(),
        forall|k: int| i <= k < j ==> is_sgr_param(s[k]),
        j < s.len() ==> !is_sgr_param(s[j]),
    ensures
        scan_params(s, i) == j,
    decreases j - i,
{
    if i < j {
        lemma_scan_params_is(s, i + 1, j);
    }
}

/// Index just past the SGR escape that starts at `i`, or `i` itself when no
/// escape starts there.
pub open spec fn sgr_end(s: Seq<char>, i: int) -> int {
    if 0 <= i && i + 1 < s.len() && s[i] == '\u{1b}' && s[i + 1] == '[' {
        let j = scan_params(s, i + 2);
        if j < s.len() && s[j] == 'm' {
            j + 1
        } else {
            i
        }
    } else {
        i
    }
}

pub proof fn lemma_sgr_end_bounds(s: Seq<char>, i: int)
    requires
        0 <= i <= s.len(),
    ensures
        i <= sgr_end(s, i) <= s.len(),
{
    if i + 1 < s.len() && s[i] == '\u{1b}' && s[i + 1] == '[' {
        lemma_scan_params_bounds(s, i + 2);
    }
}

/// The tail of `s` from `i` on, with every SGR escape removed.
pub open spec fn strip_sgr(s: Seq<char>, i: int) -> Seq<char>
    decreases s.len() - i when 0 <= i <= s.len()
{
    if i >= s.len() {
        Seq::empty()
    } else if sgr_end(s, i) > i {
        if sgr_end(s, i) <= s.len() {
            strip_sgr(s, sgr_end(s, i))
        } else {
            Seq::empty()
        }
    } else {
        seq![s[i]] + strip_sgr(s, i + 1)
    }
}

/// The whole line with every SGR escape removed.
pub open spec fn spec_sanitize(s: Seq<char>) -> Seq<char> {
    strip_sgr(s, 0)
}

/// No SGR escape starts anywhere in `s`.
pub open spec fn has_no_sgr(s: Seq<char>) -> bool {
    forall|i: int| 0 <= i < s.len() ==> sgr_end(s, i) == i
}

pub proof fn lemma_strip_sgr_clean(s: Seq<char>, i: int)
    requires
        0 <= i <= s.len(),
        has_no_sgr(s),
    ensures
        strip_sgr(s, i) == s.subrange(i, s.len() as int),
    decreases s.len() - i,
{
    if i >= s.len() {
        assert(strip_sgr(s, i) =~= s.subrange(i, s.len() as int));
    } else {
        lemma_strip_sgr_clean(s, i + 1);
        assert(seq![s[i]] + s.subrange(i + 1, s.len() as int) =~= s.subrange(
            i,
            s.len() as int,
        ));
    }
}

/// Sanitizing a line in which no escape starts is the identity.
pub proof fn lemma_sanitize_clean_identity(s: Seq<char>)
    requires
        has_no_sgr(s),
    ensures
        spec_sanitize(s) == s,
{
    lemma_strip_sgr_clean(s, 0);
    assert(s.subrange(0, s.len() as int) =~= s);
}

/// A line without the escape character cannot hold an escape.
pub proof fn lemma_no_esc_char_no_sgr(s: Seq<char>)
    requires
        forall|i: int| 0 <= i < s.len() ==> s[i] != '\u{1b}',
    ensures
        has_no_sgr(s),
{
}

/// Stripping escapes never lengthens the line.
pub proof fn lemma_strip_sgr_len(s: Seq<char>, i: int)
    requires
        0 <= i <= s.len(),
    ensures
        strip_sgr(s, i).len() <= s.len() - i,
    decreases s.len() - i,
{
    if i < s.len() {
        lemma_sgr_end_bounds(s, i);
        if sgr_end(s, i) > i {
            lemma_strip_sgr_len(s, sgr_end(s, i));
        } else {
            lemma_strip_sgr_len(s, i + 1);
        }
    }
}

/// Is the character at `k` an SGR parameter?
fn param_at(s: &str, k: usize) -> (r: bool)
    requires
        k < s@.len(),
    ensures
        r == is_sgr_param(s@[k as int]),
{
    let c = s.get_char(k);
    let u = c as u32;
    (48 <= u && u <= 57) || c == ';'
}

/// Exec counterpart of `sgr_end`.
fn sgr_end_at(s: &str, i: usize) -> (j: usize)
    requires
        i < s@.len(),
    ensures
        j as int == sgr_end(s@, i as int),
        i <= j <= s@.len(),
{
    let len = s.unicode_len();
    proof {
        lemma_sgr_end_bounds(s@, i as int);
    }
    if i + 1 < len && s.get_char(i) == '\u{1b}' && s.get_char(i + 1) == '[' {
        let mut k: usize = i + 2;
        while k < len && param_at(s, k)
            invariant
                i + 2 <= k <= len,
                len == s@.len(),
                forall|t: int| i + 2 <= t < k ==> is_sgr_param(s@[t]),
            decreases len - k,
        {
            k = k + 1;
        }
        proof {
            lemma_scan_params_is(s@, i + 2, k as int);
        }
        if k < len && s.get_char(k) == 'm' {
            k + 1
        } else {
            i
        }
    } else {
        i
    }
}

/// Strip every ANSI SGR escape from `line`, leaving all other characters —
/// embedded Unicode included — untouched.
pub fn sanitize(line: &str) -> (r: String)
    requires
        line@.len() < usize::MAX,
    ensures
        r@ == spec_sanitize(line@),
        r@.len() <= line@.len(),
{
    let len = line.unicode_len();
    let mut out = String::new();
    let mut i: usize = 0;
    while i < len
        invariant
            i <= len,
            len == line@.len(),
            len < usize::MAX,
            spec_sanitize(line@) == out@ + strip_sgr(line@, i as int),
        decreases len - i,
    {
        let j = sgr_end_at(line, i);
        if j > i {
            proof {
                assert(out@ + strip_sgr(line@, i as int) == out@ + strip_sgr(line@, j as int));
            }
            i = j;
        } else {
            let piece = line.substring_char(i, i + 1);
            proof {
                assert(piece@ =~= seq![line@[i as int]]);
                assert(out@ + strip_sgr(line@, i as int) =~= (out@ + piece@) + strip_sgr(
                    line@,
                    i + 1,
                ));
            }
            out.append(piece);
            i = i + 1;
        }
    }
    proof {
        assert(strip_sgr(line@, len as int) =~= Seq::<char>::empty());
        assert(out@ + Seq::<char>::empty() =~= out@);
        lemma_strip_sgr_len(line@, 0);
    }
    out
}

} // verus!
