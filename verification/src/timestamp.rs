//! Decoding and rendering of the leading timestamp token.
//!
//! The token has the shape `H:M:S.SUB`; each sub-field is an unsigned decimal
//! number, and the sub-second digit string is read directly as a nanosecond
//! count, whatever its width.  The decoded value is the total number of
//! nanoseconds since pipeline start.

use vstd::prelude::*;
use vstd::arithmetic::div_mod::{
    lemma_fundamental_div_mod, lemma_fundamental_div_mod_converse, lemma_mod_bound,
};
use vstd::string::{StrSliceExecFns, StringExecFns};
use crate::chars::{absent, lemma_absent_concat};
use crate::digits::{
    all_digits, dec_digits, digits_val, is_u64_digits, lemma_all_digits_absent,
    lemma_dec_digits_wf, lemma_zero_pad, parse_u64, u64_to_dec_pad, zero_pad,
};
use crate::errors::{ParsingError, ParsingErrorView, TimestampField, Token};
use crate::scan::{lemma_seek_bounds, lemma_seek_prefix, lemma_seek_shift, seek};

verus! {

pub const NANOS_PER_SECOND: u64 = 1_000_000_000;

pub const NANOS_PER_MINUTE: u64 = 60_000_000_000;

pub const NANOS_PER_HOUR: u64 = 3_600_000_000_000;

/// Total nanosecond count encoded by the four timestamp sub-fields.
pub open spec fn ts_nanos(h: int, m: int, s: int, sub: int) -> int {
    (h * 3600 + m * 60 + s) * (NANOS_PER_SECOND as int) + sub
}

/// The value the timestamp token must decode to, or the exact error owed.
///
/// The first colon ends the hour field, the second colon ends the minute
/// field, and the first dot of the remainder separates whole seconds from
/// the nanosecond digits; everything after that dot belongs to the
/// sub-second field.  A sub-field that is absent yields `MissingToken` for
/// it; one that is present but not a number (or too large for a machine
/// word, as for a total beyond `u64::MAX` nanoseconds) yields
/// `InvalidTimestamp` naming it.
pub open spec fn spec_parse_time(ts: Seq<char>) -> Result<u64, ParsingErrorView> {
    let c1 = seek(ts, 0, ':');
    let h_s = ts.subrange(0, c1);
    if !is_u64_digits(h_s) {
        Err(ParsingErrorView::InvalidTimestamp { ts, field: TimestampField::Hour })
    } else if c1 >= ts.len() {
        Err(
            ParsingErrorView::MissingToken {
                t: Token::Timestamp { field: Some(TimestampField::Minute) },
            },
        )
    } else {
        let c2 = seek(ts, c1 + 1, ':');
        let m_s = ts.subrange(c1 + 1, c2);
        if !is_u64_digits(m_s) {
            Err(ParsingErrorView::InvalidTimestamp { ts, field: TimestampField::Minute })
        } else if c2 >= ts.len() {
            Err(
                ParsingErrorView::MissingToken {
                    t: Token::Timestamp { field: Some(TimestampField::Second) },
                },
            )
        } else {
            let d = seek(ts, c2 + 1, '.');
            let s_s = ts.subrange(c2 + 1, d);
            if !is_u64_digits(s_s) {
                Err(ParsingErrorView::InvalidTimestamp { ts, field: TimestampField::Second })
            } else if d >= ts.len() {
                Err(
                    ParsingErrorView::MissingToken {
                        t: Token::Timestamp { field: Some(TimestampField::SubSecond) },
                    },
                )
            } else {
                let sub_s = ts.subrange(d + 1, ts.len() as int);
                if !is_u64_digits(sub_s) {
                    Err(
                        ParsingErrorView::InvalidTimestamp {
                            ts,
                            field: TimestampField::SubSecond,
                        },
                    )
                } else {
                    let total = ts_nanos(
                        digits_val(h_s),
                        digits_val(m_s),
                        digits_val(s_s),
                        digits_val(sub_s),
                    );
                    if total > u64::MAX as int {
                        Err(
                            ParsingErrorView::InvalidTimestamp {
                                ts,
                                field: TimestampField::Hour,
                            },
                        )
                    } else {
                        Ok(total as u64)
                    }
                }
            }
        }
    }
}

/// Decode the timestamp token into nanoseconds since pipeline start.
pub fn parse_time(ts: &str) -> (r: Result<u64, ParsingError>)
    requires
        ts@.len() < usize::MAX,
    ensures
        r matches Ok(v) ==> spec_parse_time(ts@) == Ok::<u64, ParsingErrorView>(v),
        r matches Err(e) ==> spec_parse_time(ts@) == Err::<u64, ParsingErrorView>(e@),
{
    let len = ts.unicode_len();
    let c1 = crate::scan::find_char(ts, 0, ':');
    proof {
        lemma_seek_bounds(ts@, 0, ':');
    }
    let h_str = ts.substring_char(0, c1);
    let h = match parse_u64(h_str) {
        Some(v) => v,
        None => {
            return Err(
                ParsingError::InvalidTimestamp { ts: ts.to_owned(), field: TimestampField::Hour },
            );
        },
    };
    if c1 >= len {
        return Err(
            ParsingError::MissingToken {
                t: Token::Timestamp { field: Some(TimestampField::Minute) },
            },
        );
    }
    let c2 = crate::scan::find_char(ts, c1 + 1, ':');
    proof {
        lemma_seek_bounds(ts@, c1 + 1, ':');
    }
    let m_str = ts.substring_char(c1 + 1, c2);
    let m = match parse_u64(m_str) {
        Some(v) => v,
        None => {
            return Err(
                ParsingError::InvalidTimestamp {
                    ts: ts.to_owned(),
                    field: TimestampField::Minute,
                },
            );
        },
    };
    if c2 >= len {
        return Err(
            ParsingError::MissingToken {
                t: Token::Timestamp { field: Some(TimestampField::Second) },
            },
        );
    }
    let d = crate::scan::find_char(ts, c2 + 1, '.');
    proof {
        lemma_seek_bounds(ts@, c2 + 1, '.');
    }
    let s_str = ts.substring_char(c2 + 1, d);
    let secs = match parse_u64(s_str) {
        Some(v) => v,
        None => {
            return Err(
                ParsingError::InvalidTimestamp {
                    ts: ts.to_owned(),
                    field: TimestampField::Second,
                },
            );
        },
    };
    if d >= len {
        return Err(
            ParsingError::MissingToken {
                t: Token::Timestamp { field: Some(TimestampField::SubSecond) },
            },
        );
    }
    let sub_str = ts.substring_char(d + 1, len);
    let sub = match parse_u64(sub_str) {
        Some(v) => v,
        None => {
            return Err(
                ParsingError::InvalidTimestamp {
                    ts: ts.to_owned(),
                    field: TimestampField::SubSecond,
                },
            );
        },
    };
    let seconds: u128 = (h as u128) * 3600 + (m as u128) * 60 + (secs as u128);
    let total: u128 = seconds * (NANOS_PER_SECOND as u128) + (sub as u128);
    if total > u64::MAX as u128 {
        Err(ParsingError::InvalidTimestamp { ts: ts.to_owned(), field: TimestampField::Hour })
    } else {
        Ok(total as u64)
    }
}

/// The canonical rendering of a nanosecond count:
/// `HH:MM:SS.NNNNNNNNN`, each field zero-padded.
pub open spec fn spec_render_ts(ts: int) -> Seq<char> {
    let h = ts / (NANOS_PER_HOUR as int);
    let m = (ts % (NANOS_PER_HOUR as int)) / (NANOS_PER_MINUTE as int);
    let s = (ts % (NANOS_PER_MINUTE as int)) / (NANOS_PER_SECOND as int);
    let sub = ts % (NANOS_PER_SECOND as int);
    zero_pad(dec_digits(h), 2) + seq![':'] + zero_pad(dec_digits(m), 2) + seq![':'] + zero_pad(
        dec_digits(s),
        2,
    ) + seq!['.'] + zero_pad(dec_digits(sub), 9)
}

/// Parsing the canonical rendering of a nanosecond count gives the count
/// back; the rendering is never empty and holds neither spaces nor escape
/// characters, so it always forms a single clean token.
pub proof fn lemma_render_ts_round_trip(ts: u64)
    ensures
        spec_parse_time(spec_render_ts(ts as int)) == Ok::<u64, ParsingErrorView>(ts),
        absent(spec_render_ts(ts as int), ' '),
        absent(spec_render_ts(ts as int), '\u{1b}'),
        spec_render_ts(ts as int).len() > 0,
{
    let t = ts as int;
    let nh = NANOS_PER_HOUR as int;
    let nm = NANOS_PER_MINUTE as int;
    let ns = NANOS_PER_SECOND as int;
    let h = t / nh;
    let r1 = t % nh;
    let m = r1 / nm;
    let rm = r1 % nm;
    let s_v = rm / ns;
    let sub = rm % ns;
    lemma_fundamental_div_mod(t, nh);
    lemma_mod_bound(t, nh);
    lemma_fundamental_div_mod(r1, nm);
    lemma_mod_bound(r1, nm);
    lemma_fundamental_div_mod(rm, ns);
    lemma_mod_bound(rm, ns);
    assert(h >= 0 && h <= t);
    assert(0 <= m < 60);
    assert(0 <= s_v < 60);
    assert(0 <= sub < ns);
    // The sub-fields the rendering shows are the ones the grammar reads:
    // `t % nm == rm` and `t % ns == sub`.
    lemma_fundamental_div_mod_converse(t, nm, 60 * h + m, rm);
    lemma_fundamental_div_mod_converse(t, ns, 3600 * h + 60 * m + s_v, sub);
    assert(t % nm == rm);
    assert(t % ns == sub);
    assert(ts_nanos(h, m, s_v, sub) == t);

    let a = zero_pad(dec_digits(h), 2);
    let b = zero_pad(dec_digits(m), 2);
    let c = zero_pad(dec_digits(s_v), 2);
    let d = zero_pad(dec_digits(sub), 9);
    lemma_dec_digits_wf(h);
    lemma_dec_digits_wf(m);
    lemma_dec_digits_wf(s_v);
    lemma_dec_digits_wf(sub);
    lemma_zero_pad(dec_digits(h), 2);
    lemma_zero_pad(dec_digits(m), 2);
    lemma_zero_pad(dec_digits(s_v), 2);
    lemma_zero_pad(dec_digits(sub), 9);
    assert(digits_val(a) == h && digits_val(b) == m && digits_val(c) == s_v && digits_val(d)
        == sub);
    assert(is_u64_digits(a) && is_u64_digits(b) && is_u64_digits(c) && is_u64_digits(d));

    let s = spec_render_ts(t);
    let v2 = c + seq!['.'] + d;
    let v1 = b + seq![':'] + v2;
    assert(s =~= a + seq![':'] + v1);

    lemma_all_digits_absent(a, ':');
    lemma_seek_prefix(a, ':', v1);
    let c1 = seek(s, 0, ':');
    assert(c1 == a.len());
    assert(s.subrange(0, c1) == a);
    assert(c1 < s.len());

    lemma_seek_shift(s, c1 + 1, ':');
    assert(s.skip(c1 + 1) =~= v1);
    lemma_all_digits_absent(b, ':');
    lemma_seek_prefix(b, ':', v2);
    let c2 = seek(s, c1 + 1, ':');
    assert(c2 == c1 + 1 + b.len());
    assert(s.subrange(c1 + 1, c2) =~= v1.subrange(0, b.len() as int));
    assert(s.subrange(c1 + 1, c2) == b);
    assert(c2 < s.len());

    lemma_seek_shift(s, c2 + 1, '.');
    assert(s.skip(c2 + 1) =~= v2);
    lemma_all_digits_absent(c, '.');
    lemma_seek_prefix(c, '.', d);
    let dp = seek(s, c2 + 1, '.');
    assert(dp == c2 + 1 + c.len());
    assert(s.subrange(c2 + 1, dp) =~= v2.subrange(0, c.len() as int));
    assert(s.subrange(c2 + 1, dp) == c);
    assert(dp < s.len());
    assert(s.subrange(dp + 1, s.len() as int) =~= d);

    assert(spec_parse_time(s) == Ok::<u64, ParsingErrorView>(ts));

    lemma_all_digits_absent(a, ' ');
    lemma_all_digits_absent(b, ' ');
    lemma_all_digits_absent(c, ' ');
    lemma_all_digits_absent(d, ' ');
    lemma_all_digits_absent(a, '\u{1b}');
    lemma_all_digits_absent(b, '\u{1b}');
    lemma_all_digits_absent(c, '\u{1b}');
    lemma_all_digits_absent(d, '\u{1b}');
    assert(absent(seq![':'], ' ') && absent(seq!['.'], ' '));
    assert(absent(seq![':'], '\u{1b}') && absent(seq!['.'], '\u{1b}'));
    lemma_absent_concat(a, seq![':'], ' ');
    lemma_absent_concat(a + seq![':'], b, ' ');
    lemma_absent_concat(a + seq![':'] + b, seq![':'], ' ');
    lemma_absent_concat(a + seq![':'] + b + seq![':'], c, ' ');
    lemma_absent_concat(a + seq![':'] + b + seq![':'] + c, seq!['.'], ' ');
    lemma_absent_concat(a + seq![':'] + b + seq![':'] + c + seq!['.'], d, ' ');
    lemma_absent_concat(a, seq![':'], '\u{1b}');
    lemma_absent_concat(a + seq![':'], b, '\u{1b}');
    lemma_absent_concat(a + seq![':'] + b, seq![':'], '\u{1b}');
    lemma_absent_concat(a + seq![':'] + b + seq![':'], c, '\u{1b}');
    lemma_absent_concat(a + seq![':'] + b + seq![':'] + c, seq!['.'], '\u{1b}');
    lemma_absent_concat(a + seq![':'] + b + seq![':'] + c + seq!['.'], d, '\u{1b}');
    assert(s == a + seq![':'] + b + seq![':'] + c + seq!['.'] + d);
}

/// Render a nanosecond count as `HH:MM:SS.NNNNNNNNN`.
pub fn render_timestamp(ts: u64) -> (r: String)
    ensures
        r@ == spec_render_ts(ts as int),
{
    let h = ts / NANOS_PER_HOUR;
    let m = (ts % NANOS_PER_HOUR) / NANOS_PER_MINUTE;
    let s = (ts % NANOS_PER_MINUTE) / NANOS_PER_SECOND;
    let sub = ts % NANOS_PER_SECOND;
    let mut out = u64_to_dec_pad(h, 2);
    out.append(":");
    let m_str = u64_to_dec_pad(m, 2);
    out.append(m_str.as_str());
    out.append(":");
    let s_str = u64_to_dec_pad(s, 2);
    out.append(s_str.as_str());
    out.append(".");
    let sub_str = u64_to_dec_pad(sub, 9);
    out.append(sub_str.as_str());
    proof {
        reveal_strlit(":");
        reveal_strlit(".");
        assert(":"@ =~= seq![':']);
        assert("."@ =~= seq!['.']);
    }
    out
}

} // verus!
