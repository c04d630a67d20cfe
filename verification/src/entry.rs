//! One decoded log record, its parser and its single-line rendering.
//!
//! A line is sanitized first, then consumed strictly left to right:
//! timestamp, process id, thread id, severity level, category, location
//! field, and the remainder of the line verbatim as the message.  Runs of
//! several spaces between fields are skipped; parsing either fully succeeds
//! or reports the first field that is missing or malformed.

use vstd::prelude::*;
use vstd::string::{StrSliceExecFns, StringExecFns};
use crate::digits::{dec_digits, digits_val, is_u32_digits, parse_u32};
use crate::errors::{ParsingError, ParsingErrorView, Token};
use crate::level::{level_str, level_token, parse_debug_level, spec_parse_level, DebugLevel};
use crate::location::{spec_split_location, split_location};
use crate::sanitize::{sanitize, spec_sanitize};
use crate::scan::{
    after, lemma_seek_bounds, next_token, skip_empty, skip_empty_tokens, token,
};
use crate::timestamp::{parse_time, render_timestamp, spec_parse_time, spec_render_ts};

verus! {

/// One decoded log record.
#[derive(Debug)]
pub struct Entry {
    /// Nanoseconds since pipeline start.
    pub ts: u64,
    pub pid: u32,
    /// Opaque grouping key of the emitting thread.
    pub thread: String,
    pub level: DebugLevel,
    pub category: String,
    pub file: String,
    pub line: u32,
    pub function: String,
    pub message: String,
    pub object: Option<String>,
}

/// Mathematical image of an [`Entry`].
pub struct EntryView {
    pub ts: u64,
    pub pid: u32,
    pub thread: Seq<char>,
    pub level: DebugLevel,
    pub category: Seq<char>,
    pub file: Seq<char>,
    pub line: u32,
    pub function: Seq<char>,
    pub message: Seq<char>,
    pub object: Option<Seq<char>>,
}

impl View for Entry {
    type V = EntryView;

    open spec fn view(&self) -> EntryView {
        EntryView {
            ts: self.ts,
            pid: self.pid,
            thread: self.thread@,
            level: self.level,
            category: self.category@,
            file: self.file@,
            line: self.line,
            function: self.function@,
            message: self.message@,
            object: match self.object {
                Some(ref o) => Some(o@),
                None => None,
            },
        }
    }
}

/// Position of the process-id token: past the timestamp token and any
/// empty tokens left by a run of spaces.
pub open spec fn pid_pos(s: Seq<char>) -> int {
    skip_empty(s, after(s, 0))
}

/// Position of the thread token.
pub open spec fn thread_pos(s: Seq<char>) -> int {
    skip_empty(s, after(s, pid_pos(s)))
}

/// Position of the severity-level token.
pub open spec fn level_pos(s: Seq<char>) -> int {
    skip_empty(s, after(s, thread_pos(s)))
}

/// Position of the category token.
pub open spec fn category_pos(s: Seq<char>) -> int {
    skip_empty(s, after(s, level_pos(s)))
}

/// Position of the location token.
pub open spec fn location_pos(s: Seq<char>) -> int {
    skip_empty(s, after(s, category_pos(s)))
}

/// What parsing an already-sanitized line must yield: the fully decoded
/// record, or the error naming the first field that is missing or bad.
pub open spec fn spec_parse_entry(s: Seq<char>) -> Result<EntryView, ParsingErrorView> {
    match spec_parse_time(token(s, 0)) {
        Err(e) => Err(e),
        Ok(ts) => {
            let p1 = pid_pos(s);
            if p1 > s.len() {
                Err(ParsingErrorView::MissingToken { t: Token::PID })
            } else {
                let pid_tok = token(s, p1);
                if !is_u32_digits(pid_tok) {
                    Err(ParsingErrorView::InvalidPID { pid: pid_tok })
                } else {
                    let p2 = thread_pos(s);
                    if p2 > s.len() {
                        Err(ParsingErrorView::MissingToken { t: Token::Thread })
                    } else {
                        let thread = token(s, p2);
                        let p3 = level_pos(s);
                        if p3 > s.len() {
                            Err(ParsingErrorView::MissingToken { t: Token::Level })
                        } else {
                            match spec_parse_level(token(s, p3)) {
                                Err(e) => Err(e),
                                Ok(level) => {
                                    let p4 = category_pos(s);
                                    if p4 > s.len() {
                                        Err(
                                            ParsingErrorView::MissingToken {
                                                t: Token::Category,
                                            },
                                        )
                                    } else {
                                        let category = token(s, p4);
                                        let p5 = location_pos(s);
                                        if p5 > s.len() {
                                            Err(ParsingErrorView::MissingLocation)
                                        } else {
                                            match spec_split_location(token(s, p5)) {
                                                Err(e) => Err(e),
                                                Ok(loc) => {
                                                    let p6 = after(s, p5);
                                                    let message = if p6 <= s.len() {
                                                        s.subrange(p6, s.len() as int)
                                                    } else {
                                                        Seq::empty()
                                                    };
                                                    Ok(
                                                        EntryView {
                                                            ts,
                                                            pid: digits_val(pid_tok) as u32,
                                                            thread,
                                                            level,
                                                            category,
                                                            file: loc.0,
                                                            line: loc.1,
                                                            function: loc.2,
                                                            message,
                                                            object: loc.3,
                                                        },
                                                    )
                                                },
                                            }
                                        }
                                    }
                                },
                            }
                        }
                    }
                }
            }
        },
    }
}

/// What parsing a raw line must yield: the line is sanitized first, then
/// consumed field by field.
pub open spec fn spec_parse_line(raw: Seq<char>) -> Result<EntryView, ParsingErrorView> {
    spec_parse_entry(spec_sanitize(raw))
}

impl Entry {
    /// Decode one raw log line.
    pub fn new(line: &str) -> (r: Result<Entry, ParsingError>)
        requires
            line@.len() < usize::MAX,
        ensures
            r matches Ok(e) ==> spec_parse_line(line@) == Ok::<EntryView, ParsingErrorView>(e@),
            r matches Err(p) ==> spec_parse_line(line@) == Err::<EntryView, ParsingErrorView>(
                p@,
            ),
    {
        let clean = sanitize(line);
        let s = clean.as_str();
        let ghost sv = s@;
        proof {
            lemma_seek_bounds(sv, 0, ' ');
        }
        let (ts_str, pos) = next_token(s, 0);
        let ts = match parse_time(ts_str) {
            Ok(v) => v,
            Err(e) => {
                return Err(e);
            },
        };
        let p1 = skip_empty_tokens(s, pos);
        if p1 > s.unicode_len() {
            return Err(ParsingError::MissingToken { t: Token::PID });
        }
        let (pid_str, pos) = next_token(s, p1);
        let pid = match parse_u32(pid_str) {
            Some(v) => v,
            None => {
                return Err(ParsingError::InvalidPID { pid: pid_str.to_owned() });
            },
        };
        proof {
            lemma_seek_bounds(sv, p1 as int, ' ');
        }
        let p2 = skip_empty_tokens(s, pos);
        if p2 > s.unicode_len() {
            return Err(ParsingError::MissingToken { t: Token::Thread });
        }
        let (thread_str, pos) = next_token(s, p2);
        let thread = thread_str.to_owned();
        proof {
            lemma_seek_bounds(sv, p2 as int, ' ');
        }
        let p3 = skip_empty_tokens(s, pos);
        if p3 > s.unicode_len() {
            return Err(ParsingError::MissingToken { t: Token::Level });
        }
        let (level_str_tok, pos) = next_token(s, p3);
        let level = match parse_debug_level(level_str_tok) {
            Ok(l) => l,
            Err(e) => {
                return Err(e);
            },
        };
        proof {
            lemma_seek_bounds(sv, p3 as int, ' ');
        }
        let p4 = skip_empty_tokens(s, pos);
        if p4 > s.unicode_len() {
            return Err(ParsingError::MissingToken { t: Token::Category });
        }
        let (category_str, pos) = next_token(s, p4);
        let category = category_str.to_owned();
        proof {
            lemma_seek_bounds(sv, p4 as int, ' ');
        }
        let p5 = skip_empty_tokens(s, pos);
        if p5 > s.unicode_len() {
            return Err(ParsingError::MissingLocation);
        }
        let (location_str, pos) = next_token(s, p5);
        proof {
            lemma_seek_bounds(sv, p5 as int, ' ');
        }
        let (file, line_no, function, object) = match split_location(location_str) {
            Ok(v) => v,
            Err(e) => {
                return Err(e);
            },
        };
        let len = s.unicode_len();
        let message = if pos <= len {
            s.substring_char(pos, len).to_owned()
        } else {
            String::new()
        };
        Ok(
            Entry {
                ts,
                pid,
                thread,
                level,
                category,
                file,
                line: line_no,
                function,
                message,
                object,
            },
        )
    }

    /// The deterministic single-line rendering of this entry.
    pub fn display_string(&self) -> (r: String)
        ensures
            r@ == spec_render(self@),
    {
        let mut out = render_timestamp(self.ts);
        out.append("  ");
        let pid_str = crate::digits::u64_to_dec(self.pid as u64);
        out.append(pid_str.as_str());
        out.append(" ");
        out.append(self.thread.as_str());
        out.append(" ");
        out.append(level_str(self.level));
        out.append(" ");
        out.append(self.category.as_str());
        out.append(" ");
        out.append(self.file.as_str());
        out.append(":");
        let line_str = crate::digits::u64_to_dec(self.line as u64);
        out.append(line_str.as_str());
        out.append(":");
        out.append(self.function.as_str());
        out.append(":<");
        match self.object {
            Some(ref o) => out.append(o.as_str()),
            None => (),
        }
        out.append("> ");
        out.append(self.message.as_str());
        proof {
            reveal_strlit("  ");
            reveal_strlit(" ");
            reveal_strlit(":");
            reveal_strlit(":<");
            reveal_strlit("> ");
            assert("  "@ =~= seq![' ', ' ']);
            assert(" "@ =~= seq![' ']);
            assert(":"@ =~= seq![':']);
            assert(":<"@ =~= seq![':', '<']);
            assert("> "@ =~= seq!['>', ' ']);
            assert(out@ =~= spec_render(self@));
        }
        out
    }
}

/// The location field as rendered: `file:line:function:<object>`.
pub open spec fn spec_render_location(e: EntryView) -> Seq<char> {
    e.file + seq![':'] + dec_digits(e.line as int) + seq![':'] + e.function + seq![':', '<']
        + (match e.object {
        Some(o) => o,
        None => Seq::empty(),
    }) + seq!['>']
}

/// The deterministic single-line rendering of an entry:
/// `timestamp  pid thread LEVEL category file:line:function:<object> message`.
pub open spec fn spec_render(e: EntryView) -> Seq<char> {
    spec_render_ts(e.ts as int) + seq![' ', ' '] + dec_digits(e.pid as int) + seq![' ']
        + e.thread + seq![' '] + level_token(e.level) + seq![' '] + e.category + seq![' ']
        + spec_render_location(e) + seq![' '] + e.message
}

} // verus!
