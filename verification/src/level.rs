//! The fixed eight-symbol severity enumeration, ordered by increasing
//! verbosity, and its decoding from the level token of a line.

use vstd::prelude::*;
use crate::chars::str_eq;
use crate::errors::{ParsingError, ParsingErrorView};

verus! {

/// Severity of a log entry, from least to most verbose.
#[derive(Debug, Clone, Copy, PartialEq, Eq, Structural, PartialOrd, Ord, Hash)]
pub enum DebugLevel {
    Error,
    Warning,
    Fixme,
    Info,
    Debug,
    Log,
    Trace,
    Memdump,
}

/// The token that stands for a level in a log line.
pub open spec fn level_token(l: DebugLevel) -> Seq<char> {
    match l {
        DebugLevel::Error => seq!['E', 'R', 'R', 'O', 'R'],
        DebugLevel::Warning => seq!['W', 'A', 'R', 'N'],
        DebugLevel::Fixme => seq!['F', 'I', 'X', 'M', 'E'],
        DebugLevel::Info => seq!['I', 'N', 'F', 'O'],
        DebugLevel::Debug => seq!['D', 'E', 'B', 'U', 'G'],
        DebugLevel::Log => seq!['L', 'O', 'G'],
        DebugLevel::Trace => seq!['T', 'R', 'A', 'C', 'E'],
        DebugLevel::Memdump => seq!['M', 'E', 'M', 'D', 'U', 'M', 'P'],
    }
}

/// The level a token stands for, if any.
pub open spec fn spec_level_of(s: Seq<char>) -> Option<DebugLevel> {
    if s == level_token(DebugLevel::Error) {
        Some(DebugLevel::Error)
    } else if s == level_token(DebugLevel::Warning) {
        Some(DebugLevel::Warning)
    } else if s == level_token(DebugLevel::Fixme) {
        Some(DebugLevel::Fixme)
    } else if s == level_token(DebugLevel::Info) {
        Some(DebugLevel::Info)
    } else if s == level_token(DebugLevel::Debug) {
        Some(DebugLevel::Debug)
    } else if s == level_token(DebugLevel::Log) {
        Some(DebugLevel::Log)
    } else if s == level_token(DebugLevel::Trace) {
        Some(DebugLevel::Trace)
    } else if s == level_token(DebugLevel::Memdump) {
        Some(DebugLevel::Memdump)
    } else {
        None
    }
}

/// Decoding the token of a level gives that level back.
pub proof fn lemma_level_token_round_trip(l: DebugLevel)
    ensures
        spec_level_of(level_token(l)) == Some(l),
{
}

/// The outcome the decoder owes for a given token.
pub open spec fn spec_parse_level(s: Seq<char>) -> Result<DebugLevel, ParsingErrorView> {
    match spec_level_of(s) {
        Some(l) => Ok(l),
        None => Err(ParsingErrorView::InvalidDebugLevel { name: s }),
    }
}

proof fn lemma_reveal_level_tokens()
    ensures
        "ERROR"@ == level_token(DebugLevel::Error),
        "WARN"@ == level_token(DebugLevel::Warning),
        "FIXME"@ == level_token(DebugLevel::Fixme),
        "INFO"@ == level_token(DebugLevel::Info),
        "DEBUG"@ == level_token(DebugLevel::Debug),
        "LOG"@ == level_token(DebugLevel::Log),
        "TRACE"@ == level_token(DebugLevel::Trace),
        "MEMDUMP"@ == level_token(DebugLevel::Memdump),
{
    reveal_strlit("ERROR");
    reveal_strlit("WARN");
    reveal_strlit("FIXME");
    reveal_strlit("INFO");
    reveal_strlit("DEBUG");
    reveal_strlit("LOG");
    reveal_strlit("TRACE");
    reveal_strlit("MEMDUMP");
    assert("ERROR"@ =~= level_token(DebugLevel::Error));
    assert("WARN"@ =~= level_token(DebugLevel::Warning));
    assert("FIXME"@ =~= level_token(DebugLevel::Fixme));
    assert("INFO"@ =~= level_token(DebugLevel::Info));
    assert("DEBUG"@ =~= level_token(DebugLevel::Debug));
    assert("LOG"@ =~= level_token(DebugLevel::Log));
    assert("TRACE"@ =~= level_token(DebugLevel::Trace));
    assert("MEMDUMP"@ =~= level_token(DebugLevel::Memdump));
}

/// Decode the level token of a line, matched case-sensitively against the
/// fixed eight-symbol table.
pub fn parse_debug_level(s: &str) -> (r: Result<DebugLevel, ParsingError>)
    ensures
        r matches Ok(l) ==> spec_parse_level(s@) == Ok::<DebugLevel, ParsingErrorView>(l),
        r matches Err(e) ==> spec_parse_level(s@) == Err::<DebugLevel, ParsingErrorView>(e@),
{
    proof {
        lemma_reveal_level_tokens();
    }
    if str_eq(s, "ERROR") {
        Ok(DebugLevel::Error)
    } else if str_eq(s, "WARN") {
        Ok(DebugLevel::Warning)
    } else if str_eq(s, "FIXME") {
        Ok(DebugLevel::Fixme)
    } else if str_eq(s, "INFO") {
        Ok(DebugLevel::Info)
    } else if str_eq(s, "DEBUG") {
        Ok(DebugLevel::Debug)
    } else if str_eq(s, "LOG") {
        Ok(DebugLevel::Log)
    } else if str_eq(s, "TRACE") {
        Ok(DebugLevel::Trace)
    } else if str_eq(s, "MEMDUMP") {
        Ok(DebugLevel::Memdump)
    } else {
        Err(ParsingError::InvalidDebugLevel { name: s.to_owned() })
    }
}

/// The level token, for rendering an entry back to a line.
pub fn level_str(l: DebugLevel) -> (r: &'static str)
    ensures
        r@ == level_token(l),
{
    proof {
        lemma_reveal_level_tokens();
    }
    match l {
        DebugLevel::Error => "ERROR",
        DebugLevel::Warning => "WARN",
        DebugLevel::Fixme => "FIXME",
        DebugLevel::Info => "INFO",
        DebugLevel::Debug => "DEBUG",
        DebugLevel::Log => "LOG",
        DebugLevel::Trace => "TRACE",
        DebugLevel::Memdump => "MEMDUMP",
    }
}

} // verus!
