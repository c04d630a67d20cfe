//! The properties that relate the parser, the sanitizer and the rendering
//! to one another, stated and proved over the same specifications the
//! functions' own contracts use.

use vstd::prelude::*;
use crate::chars::{absent, lemma_absent_concat};
use crate::digits::{
    dec_digits, digits_val, is_u32_digits, lemma_all_digits_absent, lemma_dec_digits_wf,
};
use crate::entry::{
    category_pos, level_pos, location_pos, pid_pos, spec_parse_entry, spec_parse_line,
    spec_render, spec_render_location, thread_pos, EntryView,
};
use crate::errors::{ParsingErrorView, Token};
use crate::level::{
    lemma_level_token_round_trip, level_token, spec_level_of, DebugLevel,
};
use crate::location::{
    lemma_trim_gt_is, lemma_trim_gt_props, lemma_trim_lt_is, lemma_trim_lt_props,
    spec_split_location, trim_gt, trim_lt,
};
use crate::sanitize::{lemma_no_esc_char_no_sgr, lemma_sanitize_clean_identity, spec_sanitize};
use crate::scan::{
    after, lemma_seek_bounds, lemma_seek_prefix, lemma_seek_shift, lemma_skip_empty,
    lemma_skip_empty_none, lemma_skip_empty_one, lemma_take_token, seek, token,
};
use crate::timestamp::{lemma_render_ts_round_trip, spec_parse_time, spec_render_ts};

verus! {

/// A level token holds no space and no escape character, and is not empty.
pub proof fn lemma_level_token_chars(l: DebugLevel)
    ensures
        level_token(l).len() > 0,
        absent(level_token(l), ' '),
        absent(level_token(l), '\u{1b}'),
{
}

/// An entry whose text fields could have come out of the parser: tokens are
/// non-empty where a token is owed, hold no spaces, no colons where a colon
/// would shift the split, no angle brackets where stripping would eat them,
/// and no escape characters anywhere.
pub open spec fn wf_entry(e: EntryView) -> bool {
    &&& e.thread.len() > 0
    &&& absent(e.thread, ' ')
    &&& absent(e.thread, '\u{1b}')
    &&& e.category.len() > 0
    &&& absent(e.category, ' ')
    &&& absent(e.category, '\u{1b}')
    &&& absent(e.file, ' ')
    &&& absent(e.file, ':')
    &&& absent(e.file, '\u{1b}')
    &&& absent(e.function, ' ')
    &&& absent(e.function, ':')
    &&& absent(e.function, '\u{1b}')
    &&& (match e.object {
        Some(o) => o.len() > 0 && o[0] != '<' && o.last() != '>' && absent(o, ' ') && absent(
            o,
            '\u{1b}',
        ),
        None => true,
    })
    &&& absent(e.message, '\u{1b}')
}

/// Splitting the rendered location field of a well-formed entry gives its
/// four parts back; the rendering is one non-empty token without spaces or
/// escapes.
#[verifier::rlimit(60)]
pub proof fn lemma_split_location_round_trip(e: EntryView)
    requires
        wf_entry(e),
    ensures
        spec_split_location(spec_render_location(e)) == Ok::<
            (Seq<char>, u32, Seq<char>, Option<Seq<char>>),
            ParsingErrorView,
        >((e.file, e.line, e.function, e.object)),
        spec_render_location(e).len() > 0,
        absent(spec_render_location(e), ' '),
        absent(spec_render_location(e), '\u{1b}'),
{
    let file = e.file;
    let func = e.function;
    let dl = dec_digits(e.line as int);
    lemma_dec_digits_wf(e.line as int);
    let objs = match e.object {
        Some(o) => o,
        None => Seq::<char>::empty(),
    };
    let w3 = seq!['<'] + objs + seq!['>'];
    let w2 = func + seq![':'] + w3;
    let w1 = dl + seq![':'] + w2;
    let ll = spec_render_location(e);
    assert(ll =~= file + seq![':'] + w1);

    lemma_seek_prefix(file, ':', w1);
    let c1 = seek(ll, 0, ':');
    assert(c1 == file.len());
    assert(ll.subrange(0, c1) == file);
    assert(c1 < ll.len());

    lemma_seek_shift(ll, c1 + 1, ':');
    assert(ll.skip(c1 + 1) =~= w1);
    lemma_all_digits_absent(dl, ':');
    lemma_seek_prefix(dl, ':', w2);
    let c2 = seek(ll, c1 + 1, ':');
    assert(c2 == c1 + 1 + dl.len());
    assert(ll.subrange(c1 + 1, c2) =~= w1.subrange(0, dl.len() as int));
    assert(ll.subrange(c1 + 1, c2) == dl);
    assert(is_u32_digits(dl) && digits_val(dl) == e.line);
    assert(c2 < ll.len());

    lemma_seek_shift(ll, c2 + 1, ':');
    assert(ll.skip(c2 + 1) =~= w2);
    lemma_seek_prefix(func, ':', w3);
    let c3 = seek(ll, c2 + 1, ':');
    assert(c3 == c2 + 1 + func.len());
    assert(ll.subrange(c2 + 1, c3) =~= w2.subrange(0, func.len() as int));
    assert(ll.subrange(c2 + 1, c3) == func);
    assert(c3 < ll.len());

    let raw = ll.subrange(c3 + 1, ll.len() as int);
    assert(raw =~= w3);
    assert(raw.len() > 0);
    match e.object {
        None => {
            assert(w3 =~= seq!['<', '>']);
            lemma_trim_lt_is(w3, 1);
            assert(trim_lt(w3) =~= seq!['>']);
            lemma_trim_gt_is(seq!['>'], 1);
            assert(trim_gt(trim_lt(w3)).len() == 0);
        },
        Some(o) => {
            lemma_trim_lt_is(w3, 1);
            let tl = w3.subrange(1, w3.len() as int);
            assert(trim_lt(w3) == tl);
            assert(tl =~= o + seq!['>']);
            lemma_trim_gt_is(o + seq!['>'], 1);
            assert(trim_gt(tl) =~= o);
        },
    }

    lemma_all_digits_absent(dl, ' ');
    lemma_all_digits_absent(dl, '\u{1b}');
    lemma_absent_chain_location(file, dl, func, objs, ' ', e);
    lemma_absent_chain_location(file, dl, func, objs, '\u{1b}', e);
}

/// Helper: the rendered location field avoids a character that all its
/// parts avoid.
proof fn lemma_absent_chain_location(
    file: Seq<char>,
    dl: Seq<char>,
    func: Seq<char>,
    objs: Seq<char>,
    c: char,
    e: EntryView,
)
    requires
        absent(file, c),
        absent(dl, c),
        absent(func, c),
        absent(objs, c),
        c != ':' && c != '<' && c != '>',
        spec_render_location(e) == file + seq![':'] + dl + seq![':'] + func + seq![':', '<']
            + objs + seq!['>'],
    ensures
        absent(spec_render_location(e), c),
{
    lemma_absent_concat(file, seq![':'], c);
    lemma_absent_concat(file + seq![':'], dl, c);
    lemma_absent_concat(file + seq![':'] + dl, seq![':'], c);
    lemma_absent_concat(file + seq![':'] + dl + seq![':'], func, c);
    lemma_absent_concat(file + seq![':'] + dl + seq![':'] + func, seq![':', '<'], c);
    lemma_absent_concat(file + seq![':'] + dl + seq![':'] + func + seq![':', '<'], objs, c);
    lemma_absent_concat(
        file + seq![':'] + dl + seq![':'] + func + seq![':', '<'] + objs,
        seq!['>'],
        c,
    );
}

/// Helper: the rendered line avoids a character that every field and every
/// computed token avoids (separators are spaces, which are handled apart).
proof fn lemma_absent_render_chain(e: EntryView, c: char)
    requires
        absent(spec_render_ts(e.ts as int), c),
        absent(dec_digits(e.pid as int), c),
        absent(e.thread, c),
        absent(level_token(e.level), c),
        absent(e.category, c),
        absent(spec_render_location(e), c),
        absent(e.message, c),
        c != ' ',
    ensures
        absent(spec_render(e), c),
{
    let t0 = spec_render_ts(e.ts as int);
    let t1 = dec_digits(e.pid as int);
    let t5 = spec_render_location(e);
    lemma_absent_concat(t0, seq![' ', ' '], c);
    lemma_absent_concat(t0 + seq![' ', ' '], t1, c);
    let u1 = t0 + seq![' ', ' '] + t1;
    lemma_absent_concat(u1, seq![' '], c);
    lemma_absent_concat(u1 + seq![' '], e.thread, c);
    let u2 = u1 + seq![' '] + e.thread;
    lemma_absent_concat(u2, seq![' '], c);
    lemma_absent_concat(u2 + seq![' '], level_token(e.level), c);
    let u3 = u2 + seq![' '] + level_token(e.level);
    lemma_absent_concat(u3, seq![' '], c);
    lemma_absent_concat(u3 + seq![' '], e.category, c);
    let u4 = u3 + seq![' '] + e.category;
    lemma_absent_concat(u4, seq![' '], c);
    lemma_absent_concat(u4 + seq![' '], t5, c);
    let u5 = u4 + seq![' '] + t5;
    lemma_absent_concat(u5, seq![' '], c);
    lemma_absent_concat(u5 + seq![' '], e.message, c);
}

/// Every field of a well-formed entry survives a round trip through the
/// rendering: parsing the rendered line succeeds and gives the entry back.
#[verifier::rlimit(100)]
pub proof fn lemma_render_parse_round_trip(e: EntryView)
    requires
        wf_entry(e),
    ensures
        spec_parse_line(spec_render(e)) == Ok::<EntryView, ParsingErrorView>(e),
{
    let s = spec_render(e);
    let sp = seq![' '];
    let t0 = spec_render_ts(e.ts as int);
    let t1 = dec_digits(e.pid as int);
    let t2 = e.thread;
    let t3 = level_token(e.level);
    let t4 = e.category;
    let t5 = spec_render_location(e);
    let msg = e.message;

    lemma_render_ts_round_trip(e.ts);
    lemma_dec_digits_wf(e.pid as int);
    lemma_all_digits_absent(t1, ' ');
    lemma_all_digits_absent(t1, '\u{1b}');
    lemma_level_token_chars(e.level);
    lemma_level_token_round_trip(e.level);
    lemma_split_location_round_trip(e);

    lemma_absent_render_chain(e, '\u{1b}');
    lemma_no_esc_char_no_sgr(s);
    lemma_sanitize_clean_identity(s);

    let r5 = msg;
    let r4 = t5 + sp + r5;
    let r3 = t4 + sp + r4;
    let r2 = t3 + sp + r3;
    let r1 = t2 + sp + r2;
    let r0b = t1 + sp + r1;
    let r0a = sp + r0b;
    assert(s.skip(0) =~= s);
    assert(s =~= t0 + sp + r0a);
    lemma_take_token(s, 0, t0, r0a);
    let a0 = after(s, 0);
    assert(spec_parse_time(token(s, 0)) == Ok::<u64, ParsingErrorView>(e.ts));

    assert(s[a0] == r0a[0]);
    assert(r0a[0] == ' ');
    assert(a0 + 1 < s.len());
    assert(s[a0 + 1] == r0a[1] && r0a[1] == r0b[0] && r0b[0] == t1[0]);
    assert(t1[0] != ' ');
    lemma_skip_empty_one(s, a0);
    let p1 = a0 + 1;
    assert(pid_pos(s) == p1);
    assert(s.skip(p1) =~= r0a.skip(1));
    assert(r0a.skip(1) =~= r0b);
    lemma_take_token(s, p1, t1, r1);
    assert(token(s, p1) == t1);
    assert(is_u32_digits(t1) && digits_val(t1) == e.pid);

    let a1 = after(s, p1);
    assert(a1 < s.len());
    assert(s[a1] == r1[0] && r1[0] == t2[0]);
    assert(t2[0] != ' ');
    lemma_skip_empty_none(s, a1);
    assert(thread_pos(s) == a1);
    lemma_take_token(s, a1, t2, r2);
    assert(token(s, a1) == t2);

    let a2 = after(s, a1);
    assert(a2 < s.len());
    assert(s[a2] == r2[0] && r2[0] == t3[0]);
    assert(t3[0] != ' ');
    lemma_skip_empty_none(s, a2);
    assert(level_pos(s) == a2);
    lemma_take_token(s, a2, t3, r3);
    assert(token(s, a2) == t3);
    assert(spec_level_of(t3) == Some(e.level));

    let a3 = after(s, a2);
    assert(a3 < s.len());
    assert(s[a3] == r3[0] && r3[0] == t4[0]);
    assert(t4[0] != ' ');
    lemma_skip_empty_none(s, a3);
    assert(category_pos(s) == a3);
    lemma_take_token(s, a3, t4, r4);
    assert(token(s, a3) == t4);

    let a4 = after(s, a3);
    assert(a4 < s.len());
    assert(s[a4] == r4[0] && r4[0] == t5[0]);
    assert(t5[0] != ' ');
    lemma_skip_empty_none(s, a4);
    assert(location_pos(s) == a4);
    lemma_take_token(s, a4, t5, r5);
    assert(token(s, a4) == t5);

    let a5 = after(s, a4);
    assert(a5 <= s.len());
    assert(s.skip(a5) == msg);
    assert(s.subrange(a5, s.len() as int) =~= msg);

    assert(digits_val(t1) as u32 == e.pid);
    assert(spec_parse_entry(s) == Ok::<EntryView, ParsingErrorView>(e));
}

/// Helper: a token of `s` holds no space, and no escape character when `s`
/// holds none.
proof fn lemma_token_chars(s: Seq<char>, p: int)
    requires
        0 <= p <= s.len(),
    ensures
        absent(token(s, p), ' '),
        absent(s, '\u{1b}') ==> absent(token(s, p), '\u{1b}'),
{
    lemma_seek_bounds(s, p, ' ');
    assert(forall|i: int| 0 <= i < token(s, p).len() ==> token(s, p)[i] == s[p + i]);
}

/// An entry the parser produced from a line without escape characters is
/// well formed, so every one of its fields survives the round trip through
/// the rendering: the rendered line parses back to the same entry.
#[verifier::rlimit(100)]
pub proof fn lemma_parse_render_round_trip(raw: Seq<char>, e: EntryView)
    requires
        absent(raw, '\u{1b}'),
        spec_parse_line(raw) == Ok::<EntryView, ParsingErrorView>(e),
    ensures
        wf_entry(e),
        spec_parse_line(spec_render(e)) == Ok::<EntryView, ParsingErrorView>(e),
{
    lemma_no_esc_char_no_sgr(raw);
    lemma_sanitize_clean_identity(raw);
    let s = raw;
    assert(spec_parse_entry(s) == Ok::<EntryView, ParsingErrorView>(e));

    let p1 = pid_pos(s);
    let p2 = thread_pos(s);
    let p3 = level_pos(s);
    let p4 = category_pos(s);
    let p5 = location_pos(s);
    lemma_seek_bounds(s, 0, ' ');
    lemma_skip_empty(s, after(s, 0));
    assert(p1 <= s.len());
    lemma_seek_bounds(s, p1, ' ');
    lemma_skip_empty(s, after(s, p1));
    assert(p2 <= s.len());
    lemma_seek_bounds(s, p2, ' ');
    lemma_skip_empty(s, after(s, p2));
    assert(p3 <= s.len());
    lemma_seek_bounds(s, p3, ' ');
    lemma_skip_empty(s, after(s, p3));
    assert(p4 <= s.len());
    lemma_seek_bounds(s, p4, ' ');
    lemma_skip_empty(s, after(s, p4));
    assert(p5 <= s.len());
    lemma_seek_bounds(s, p5, ' ');

    // The thread and category tokens stand past a skip of empty tokens, so
    // they are non-empty; every token is free of spaces and escapes.
    assert(e.thread == token(s, p2) && e.thread.len() > 0);
    assert(e.category == token(s, p4) && e.category.len() > 0);
    lemma_token_chars(s, p2);
    lemma_token_chars(s, p4);

    // The location token splits into file, line, function and object.
    let loc = token(s, p5);
    lemma_token_chars(s, p5);
    assert(spec_split_location(loc) is Ok);
    let c1 = seek(loc, 0, ':');
    lemma_seek_bounds(loc, 0, ':');
    assert(e.file == loc.subrange(0, c1));
    assert(absent(e.file, ':'));
    assert(forall|i: int| 0 <= i < e.file.len() ==> e.file[i] == loc[i]);
    assert(absent(e.file, ' ') && absent(e.file, '\u{1b}'));

    let c2 = seek(loc, c1 + 1, ':');
    lemma_seek_bounds(loc, c1 + 1, ':');
    let c3 = seek(loc, c2 + 1, ':');
    lemma_seek_bounds(loc, c2 + 1, ':');
    assert(e.function == loc.subrange(c2 + 1, c3));
    assert(absent(e.function, ':'));
    assert(forall|i: int|
        0 <= i < e.function.len() ==> e.function[i] == loc[c2 + 1 + i]);
    assert(absent(e.function, ' ') && absent(e.function, '\u{1b}'));

    let raw_obj = loc.subrange(c3 + 1, loc.len() as int);
    match e.object {
        None => (),
        Some(o) => {
            let tl = trim_lt(raw_obj);
            assert(o == trim_gt(tl) && o.len() > 0);
            lemma_trim_lt_props(raw_obj);
            lemma_trim_gt_props(tl);
            assert(o[0] == tl[0]);
            assert(o[0] != '<');
            assert(o.last() != '>');
            let shift = raw_obj.len() - tl.len();
            assert(forall|i: int| 0 <= i < tl.len() ==> tl[i] == raw_obj[shift + i]);
            assert(forall|i: int| 0 <= i < o.len() ==> o[i] == tl[i]);
            assert(forall|i: int|
                0 <= i < raw_obj.len() ==> raw_obj[i] == loc[c3 + 1 + i]);
            assert(absent(o, ' ') && absent(o, '\u{1b}'));
        },
    }

    // The message is the tail of an escape-free line, or empty.
    let p6 = after(s, p5);
    if p6 <= s.len() {
        assert(e.message == s.subrange(p6, s.len() as int));
        assert(forall|i: int| 0 <= i < e.message.len() ==> e.message[i] == s[p6 + i]);
    } else {
        assert(e.message.len() == 0);
    }
    assert(absent(e.message, '\u{1b}'));

    assert(wf_entry(e));
    lemma_render_parse_round_trip(e);
}

/// The timestamp token of the sanitized line decodes, but nothing except
/// runs of spaces follows it: the process-id field is missing.
pub open spec fn pid_field_missing(s: Seq<char>) -> bool {
    spec_parse_time(token(s, 0)) is Ok && pid_pos(s) > s.len()
}

/// A line whose process-id field is missing fails with `MissingToken` for
/// the process id, and with no other kind.
pub proof fn lemma_missing_pid_error(raw: Seq<char>)
    requires
        pid_field_missing(spec_sanitize(raw)),
    ensures
        spec_parse_line(raw) == Err::<EntryView, ParsingErrorView>(
            (ParsingErrorView::MissingToken { t: Token::PID }),
        ),
{
}

/// The walk of the sanitized line reaches the severity-level token: the
/// timestamp decodes, the process id is a number, and a thread token and a
/// level token are present.
pub open spec fn reaches_level_token(s: Seq<char>) -> bool {
    &&& spec_parse_time(token(s, 0)) is Ok
    &&& pid_pos(s) <= s.len()
    &&& is_u32_digits(token(s, pid_pos(s)))
    &&& thread_pos(s) <= s.len()
    &&& level_pos(s) <= s.len()
}

/// A line whose level token is not one of the eight symbols fails with
/// `InvalidDebugLevel` carrying exactly that token, and with no other kind.
pub proof fn lemma_unknown_level_error(raw: Seq<char>)
    requires
        reaches_level_token(spec_sanitize(raw)),
        spec_level_of(token(spec_sanitize(raw), level_pos(spec_sanitize(raw)))) is None,
    ensures
        spec_parse_line(raw) == Err::<EntryView, ParsingErrorView>(
            (ParsingErrorView::InvalidDebugLevel {
                name: token(spec_sanitize(raw), level_pos(spec_sanitize(raw))),
            }),
        ),
{
}

} // verus!
