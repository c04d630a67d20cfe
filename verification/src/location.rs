//! Decoding of the location field: `FILE:LINE:FUNCTION:<OBJECT>`.
//!
//! The field is split on at most four colon-delimited parts; the fourth part
//! is the remainder, so a function name is the last sub-part that may not
//! itself contain a colon.  The object placeholder keeps its name once the
//! surrounding angle brackets are stripped; an empty placeholder (or an empty
//! name) means the entry concerns no object.

use vstd::prelude::*;
use vstd::string::{StrSliceExecFns, StringExecFns};
use crate::digits::{digits_val, is_u32_digits, parse_u32};
use crate::errors::{ParsingError, ParsingErrorView, Token};
use crate::scan::{find_char, lemma_seek_bounds, seek};

verus! {

/// `s` with every leading `'<'` removed.
pub open spec fn trim_lt(s: Seq<char>) -> Seq<char>
    decreases s.len(),
{
    if s.len() > 0 && s[0] == '<' {
        trim_lt(s.drop_first())
    } else {
        s
    }
}

/// `s` with every trailing `'>'` removed.
pub open spec fn trim_gt(s: Seq<char>) -> Seq<char>
    decreases s.len(),
{
    if s.len() > 0 && s.last() == '>' {
        trim_gt(s.drop_last())
    } else {
        s
    }
}

/// The object name carried by the fourth sub-part, if any.
pub open spec fn spec_object_of(raw: Seq<char>) -> Option<Seq<char>> {
    if raw.len() == 0 {
        None
    } else {
        let name = trim_gt(trim_lt(raw));
        if name.len() == 0 {
            None
        } else {
            Some(name)
        }
    }
}

/// The decoded location field, or the exact error owed.
pub open spec fn spec_split_location(loc: Seq<char>) -> Result<
    (Seq<char>, u32, Seq<char>, Option<Seq<char>>),
    ParsingErrorView,
> {
    let c1 = seek(loc, 0, ':');
    let file = loc.subrange(0, c1);
    if c1 >= loc.len() {
        Err(ParsingErrorView::MissingToken { t: Token::LineNumber })
    } else {
        let c2 = seek(loc, c1 + 1, ':');
        let line_s = loc.subrange(c1 + 1, c2);
        if !is_u32_digits(line_s) {
            Err(ParsingErrorView::InvalidLineNumber { line: line_s })
        } else if c2 >= loc.len() {
            Err(ParsingErrorView::MissingToken { t: Token::Function })
        } else {
            let c3 = seek(loc, c2 + 1, ':');
            let function = loc.subrange(c2 + 1, c3);
            if c3 >= loc.len() {
                Err(ParsingErrorView::MissingToken { t: Token::Object })
            } else {
                let raw = loc.subrange(c3 + 1, loc.len() as int);
                Ok(
                    (
                        file,
                        digits_val(line_s) as u32,
                        function,
                        spec_object_of(raw),
                    ),
                )
            }
        }
    }
}

/// `trim_lt` is pinned down by the count of leading `'<'` characters.
pub proof fn lemma_trim_lt_is(s: Seq<char>, k: int)
    requires
        0 <= k <= s.len(),
        forall|i: int| 0 <= i < k ==> s[i] == '<',
        k < s.len() ==> s[k] != '<',
    ensures
        trim_lt(s) == s.subrange(k, s.len() as int),
    decreases k,
{
    if k == 0 {
        if s.len() > 0 && s[0] == '<' {
            assert(false);
        }
        assert(s.subrange(0, s.len() as int) =~= s);
    } else {
        let t = s.drop_first();
        assert(forall|i: int| 0 <= i < k - 1 ==> t[i] == s[i + 1]);
        lemma_trim_lt_is(t, k - 1);
        assert(t.subrange(k - 1, t.len() as int) =~= s.subrange(k, s.len() as int));
    }
}

/// `trim_gt` is pinned down by the count of trailing `'>'` characters.
pub proof fn lemma_trim_gt_is(s: Seq<char>, k: int)
    requires
        0 <= k <= s.len(),
        forall|i: int| s.len() - k <= i < s.len() ==> s[i] == '>',
        k < s.len() ==> s[s.len() - k - 1] != '>',
    ensures
        trim_gt(s) == s.subrange(0, s.len() - k),
    decreases k,
{
    if k == 0 {
        assert(s.subrange(0, s.len() as int) =~= s);
    } else {
        let t = s.drop_last();
        lemma_trim_gt_is(t, k - 1);
        assert(t.subrange(0, t.len() - (k - 1)) =~= s.subrange(0, s.len() - k));
    }
}

/// `trim_lt` keeps a suffix whose first character is no longer `'<'`.
pub proof fn lemma_trim_lt_props(s: Seq<char>)
    ensures
        trim_lt(s).len() <= s.len(),
        trim_lt(s) == s.subrange(s.len() - trim_lt(s).len(), s.len() as int),
        trim_lt(s).len() > 0 ==> trim_lt(s)[0] != '<',
    decreases s.len(),
{
    if s.len() > 0 && s[0] == '<' {
        let t = s.drop_first();
        lemma_trim_lt_props(t);
        assert(t.subrange(t.len() - trim_lt(t).len(), t.len() as int) =~= s.subrange(
            s.len() - trim_lt(s).len(),
            s.len() as int,
        ));
    } else {
        assert(s.subrange(0, s.len() as int) =~= s);
    }
}

/// `trim_gt` keeps a prefix whose last character is no longer `'>'`.
pub proof fn lemma_trim_gt_props(s: Seq<char>)
    ensures
        trim_gt(s).len() <= s.len(),
        trim_gt(s) == s.subrange(0, trim_gt(s).len() as int),
        trim_gt(s).len() > 0 ==> trim_gt(s).last() != '>',
    decreases s.len(),
{
    if s.len() > 0 && s.last() == '>' {
        let t = s.drop_last();
        lemma_trim_gt_props(t);
        assert(t.subrange(0, trim_gt(t).len() as int) =~= s.subrange(
            0,
            trim_gt(s).len() as int,
        ));
    } else {
        assert(s.subrange(0, s.len() as int) =~= s);
    }
}

/// Strip leading `'<'` and trailing `'>'` from the object sub-part.
fn trim_object(raw: &str) -> (r: String)
    requires
        raw@.len() < usize::MAX,
    ensures
        r@ == trim_gt(trim_lt(raw@)),
{
    let len = raw.unicode_len();
    let mut a: usize = 0;
    while a < len && raw.get_char(a) == '<'
        invariant
            a <= len,
            len == raw@.len(),
            forall|i: int| 0 <= i < a ==> raw@[i] == '<',
        decreases len - a,
    {
        a = a + 1;
    }
    proof {
        lemma_trim_lt_is(raw@, a as int);
    }
    let mut b: usize = len;
    while b > a && raw.get_char(b - 1) == '>'
        invariant
            a <= b <= len,
            len == raw@.len(),
            forall|i: int| b <= i < len ==> raw@[i] == '>',
        decreases b,
    {
        b = b - 1;
    }
    let ghost mid = raw@.subrange(a as int, len as int);
    proof {
        assert(forall|i: int|
            mid.len() - (len - b) <= i < mid.len() ==> mid[i] == raw@[i + a] && raw@[i + a]
                == '>');
        if (len - b) < mid.len() {
            assert(mid[mid.len() - (len - b) - 1] == raw@[b - 1]);
        }
        lemma_trim_gt_is(mid, len - b);
        assert(mid.subrange(0, mid.len() - (len - b)) =~= raw@.subrange(a as int, b as int));
    }
    let out = raw.substring_char(a, b);
    out.to_owned()
}

/// Split the location field into file name, line number, function name and
/// optional object name.
pub fn split_location(location: &str) -> (r: Result<
    (String, u32, String, Option<String>),
    ParsingError,
>)
    requires
        location@.len() < usize::MAX,
    ensures
        r matches Ok(v) ==> spec_split_location(location@) matches Ok(w) && v.0@ == w.0 && v.1
            == w.1 && v.2@ == w.2 && (match (v.3, w.3) {
            (Some(x), Some(y)) => x@ == y,
            (None, None) => true,
            _ => false,
        }),
        r matches Err(e) ==> spec_split_location(location@) == Err::<
            (Seq<char>, u32, Seq<char>, Option<Seq<char>>),
            ParsingErrorView,
        >(e@),
{
    let len = location.unicode_len();
    let c1 = find_char(location, 0, ':');
    proof {
        lemma_seek_bounds(location@, 0, ':');
    }
    let file = location.substring_char(0, c1);
    if c1 >= len {
        return Err(ParsingError::MissingToken { t: Token::LineNumber });
    }
    let c2 = find_char(location, c1 + 1, ':');
    proof {
        lemma_seek_bounds(location@, c1 + 1, ':');
    }
    let line_str = location.substring_char(c1 + 1, c2);
    let line = match parse_u32(line_str) {
        Some(v) => v,
        None => {
            return Err(ParsingError::InvalidLineNumber { line: line_str.to_owned() });
        },
    };
    if c2 >= len {
        return Err(ParsingError::MissingToken { t: Token::Function });
    }
    let c3 = find_char(location, c2 + 1, ':');
    proof {
        lemma_seek_bounds(location@, c2 + 1, ':');
    }
    let function = location.substring_char(c2 + 1, c3);
    if c3 >= len {
        return Err(ParsingError::MissingToken { t: Token::Object });
    }
    let raw = location.substring_char(c3 + 1, len);
    let object = if raw.is_empty() {
        None
    } else {
        let name = trim_object(raw);
        if name.as_str().is_empty() {
            None
        } else {
            Some(name)
        }
    };
    Ok((file.to_owned(), line, function.to_owned(), object))
}

} // verus!
