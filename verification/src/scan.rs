//! A positional token cursor over a line.
//!
//! The grammar is strictly left-to-right: fields are the maximal runs between
//! single spaces, and a run of several spaces produces empty tokens that the
//! parser skips between fields.  A cursor is a character position; the
//! position `len + 1` marks an exhausted cursor (one past the final token).

use vstd::prelude::*;
use vstd::string::StrSliceExecFns;

verus! {

/// First index at or after `i` holding `c`, or the length of `s`.
pub open spec fn seek(s: Seq<char>, i: int, c: char) -> int
    decreases s.len() - i when 0 <= i <= s.len()
{
    if i >= s.len() {
        s.len() as int
    } else if s[i] == c {
        i
    } else {
        seek(s, i + 1, c)
    }
}

pub proof fn lemma_seek_bounds(s: Seq<char>, i: int, c: char)
    requires
        0 <= i <= s.len(),
    ensures
        i <= seek(s, i, c) <= s.len(),
        forall|k: int| i <= k < seek(s, i, c) ==> s[k] != c,
        seek(s, i, c) < s.len() ==> s[seek(s, i, c)] == c,
    decreases s.len() - i,
{
    if i < s.len() && s[i] != c {
        lemma_seek_bounds(s, i + 1, c);
    }
}

/// `seek` is pinned down by its characteristic properties.
pub proof fn lemma_seek_is(s: Seq<char>, i: int, c: char, j: int)
    requires
        0 <= i <= j <= s.len(),
        forall|k: int| i <= k < j ==> s[k] != c,
        j < s.len() ==> s[j] == c,
    ensures
        seek(s, i, c) == j,
    decreases j - i,
{
    if i < j {
        lemma_seek_is(s, i + 1, c, j);
    }
}

/// End of the token that starts at position `i`: the next space, or the end.
pub open spec fn token_end(s: Seq<char>, i: int) -> int {
    seek(s, i, ' ')
}

/// The whitespace-delimited token at position `i`.
pub open spec fn token(s: Seq<char>, i: int) -> Seq<char> {
    s.subrange(i, token_end(s, i))
}

/// Cursor position after consuming the token at `i` and its delimiter.
/// One past the end of the line (`len + 1`) when that token was the last.
pub open spec fn after(s: Seq<char>, i: int) -> int {
    token_end(s, i) + 1
}

/// Does a token start at position `i`?
pub open spec fn has_token(s: Seq<char>, i: int) -> bool {
    0 <= i <= s.len()
}

/// Position of the first non-empty token at or after `i`, or `len + 1`
/// when only empty tokens remain.
pub open spec fn skip_empty(s: Seq<char>, i: int) -> int
    decreases s.len() + 1 - i when 0 <= i <= s.len() + 1
{
    if i > s.len() {
        i
    } else if i == s.len() || s[i] == ' ' {
        skip_empty(s, i + 1)
    } else {
        i
    }
}

pub proof fn lemma_skip_empty(s: Seq<char>, i: int)
    requires
        0 <= i <= s.len() + 1,
    ensures
        i <= skip_empty(s, i) <= s.len() + 1,
        skip_empty(s, i) <= s.len() ==> skip_empty(s, i) < s.len() && s[skip_empty(s, i)]
            != ' ' && token(s, skip_empty(s, i)).len() > 0,
    decreases s.len() + 1 - i,
{
    if i <= s.len() {
        if i == s.len() || s[i] == ' ' {
            lemma_skip_empty(s, i + 1);
        } else {
            lemma_token_empty(s, i);
        }
    }
}

/// A token is empty exactly when its position sits on a space or at the end.
pub proof fn lemma_token_empty(s: Seq<char>, i: int)
    requires
        0 <= i <= s.len(),
    ensures
        token(s, i).len() == 0 <==> (i == s.len() || s[i] == ' '),
        token(s, i).len() == 0 ==> after(s, i) == i + 1,
{
    lemma_seek_bounds(s, i, ' ');
    if i < s.len() && s[i] != ' ' {
        assert(token_end(s, i) > i);
    }
}

/// Seeking within a suffix of `s` is seeking in `s` shifted by the offset.
pub proof fn lemma_seek_shift(s: Seq<char>, p: int, c: char)
    requires
        0 <= p <= s.len(),
    ensures
        seek(s, p, c) == p + seek(s.skip(p), 0, c),
{
    let u = s.skip(p);
    let j = seek(u, 0, c);
    lemma_seek_bounds(u, 0, c);
    assert(forall|k: int| p <= k < p + j ==> s[k] == u[k - p] && u[k - p] != c);
    if p + j < s.len() {
        assert(s[p + j] == u[j]);
    }
    lemma_seek_is(s, p, c, p + j);
}

/// In `t + [c] + v` with no `c` inside `t`, the first `c` sits right
/// after `t`.
pub proof fn lemma_seek_prefix(t: Seq<char>, c: char, v: Seq<char>)
    requires
        forall|i: int| 0 <= i < t.len() ==> t[i] != c,
    ensures
        seek(t + seq![c] + v, 0, c) == t.len(),
        (t + seq![c] + v).subrange(0, t.len() as int) == t,
{
    let s = t + seq![c] + v;
    assert(s[t.len() as int] == c);
    assert(forall|k: int| 0 <= k < t.len() ==> s[k] == t[k]);
    lemma_seek_is(s, 0, c, t.len() as int);
    assert(s.subrange(0, t.len() as int) =~= t);
}

/// Consuming a space-free token `t` that a space separates from `rest`.
pub proof fn lemma_take_token(s: Seq<char>, p: int, t: Seq<char>, rest: Seq<char>)
    requires
        0 <= p <= s.len(),
        s.skip(p) == t + seq![' '] + rest,
        forall|i: int| 0 <= i < t.len() ==> t[i] != ' ',
    ensures
        token(s, p) == t,
        after(s, p) == p + t.len() + 1,
        after(s, p) <= s.len(),
        s.skip(after(s, p)) == rest,
{
    let u = s.skip(p);
    lemma_seek_shift(s, p, ' ');
    lemma_seek_prefix(t, ' ', rest);
    assert(u.len() == t.len() + 1 + rest.len());
    assert(token(s, p) =~= u.subrange(0, t.len() as int));
    assert(u.subrange(0, t.len() as int) =~= t);
    assert(s.skip(p + t.len() + 1) =~= u.skip(t.len() as int + 1));
    assert(u.skip(t.len() as int + 1) =~= rest);
}

/// A cursor already on a non-space character skips nothing.
pub proof fn lemma_skip_empty_none(s: Seq<char>, p: int)
    requires
        0 <= p < s.len(),
        s[p] != ' ',
    ensures
        skip_empty(s, p) == p,
{
}

/// A cursor on a single space before a non-space character skips exactly
/// the one empty token the space produces.
pub proof fn lemma_skip_empty_one(s: Seq<char>, p: int)
    requires
        0 <= p < s.len(),
        s[p] == ' ',
        p + 1 < s.len(),
        s[p + 1] != ' ',
    ensures
        skip_empty(s, p) == p + 1,
{
    assert(skip_empty(s, p + 1) == p + 1);
}

/// Exec counterpart of `seek`.
pub fn find_char(s: &str, i: usize, c: char) -> (j: usize)
    requires
        i <= s@.len(),
    ensures
        j as int == seek(s@, i as int, c),
{
    let len = s.unicode_len();
    let mut j: usize = i;
    while j < len && s.get_char(j) != c
        invariant
            i <= j <= len,
            len == s@.len(),
            forall|k: int| i <= k < j ==> s@[k] != c,
        decreases len - j,
    {
        j = j + 1;
    }
    proof {
        lemma_seek_is(s@, i as int, c, j as int);
    }
    j
}

/// Take the token at position `i` and step the cursor past it.
pub fn next_token<'a>(s: &'a str, i: usize) -> (r: (&'a str, usize))
    requires
        has_token(s@, i as int),
        s@.len() < usize::MAX,
    ensures
        r.0@ == token(s@, i as int),
        r.1 as int == after(s@, i as int),
{
    let j = find_char(s, i, ' ');
    proof {
        lemma_seek_bounds(s@, i as int, ' ');
    }
    let tok = s.substring_char(i, j);
    (tok, j + 1)
}

/// Step the cursor over empty tokens left by collapsed runs of spaces.
pub fn skip_empty_tokens(s: &str, i: usize) -> (r: usize)
    requires
        0 <= i as int <= s@.len() + 1,
        s@.len() < usize::MAX,
    ensures
        r as int == skip_empty(s@, i as int),
{
    let len = s.unicode_len();
    let mut p: usize = i;
    while p <= len && (p == len || s.get_char(p) == ' ')
        invariant
            i <= p <= len + 1,
            len == s@.len(),
            len < usize::MAX,
            skip_empty(s@, i as int) == skip_empty(s@, p as int),
        decreases len + 1 - p,
    {
        p = p + 1;
    }
    p
}

} // verus!
