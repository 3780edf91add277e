//! The error of processing a source text: lexical, syntactic, run-time, or
//! a scope violation found before running.
use vstd::prelude::*;
use crate::interpreter::{RuntimeErrorReport, SErr};
use crate::interpreter::error::{join, push_joined, report_message, strings_view};
use crate::parser::{ParseError, ScopeError, SpecParseError};
use crate::parser::scope::{SpecScopeError, scope_errors_view};

use crate::tokenizer::{LexError, SpecLexError};

verus! {

/// What can go wrong while processing a source text.
#[derive(Debug, Clone)]
pub enum UmorError {
    Lex(LexError),
    Parse(ParseError),
    Runtime(RuntimeErrorReport),
    /// The scope violations found before running a file; nothing ran.
    Scope(Vec<ScopeError>),
}

/// Plain-value model of a [`RuntimeErrorReport`].
pub struct SReport {
    pub error: SErr,
    pub trace: Seq<Seq<char>>,
    pub stack: Seq<Seq<char>>,
}

/// Plain-value model of [`UmorError`].
pub enum SUmorError {
    Lex(SpecLexError),
    Parse(SpecParseError),
    Runtime(SReport),
    Scope(Seq<SpecScopeError>),
}

pub open spec fn report_view(r: RuntimeErrorReport) -> SReport {
    SReport { error: r.error@, trace: strings_view(r.word_trace@), stack: strings_view(r.stack_snapshot@) }
}

impl View for UmorError {
    type V = SUmorError;

    open spec fn view(&self) -> SUmorError {
        match self {
            UmorError::Lex(e) => SUmorError::Lex(e@),
            UmorError::Parse(e) => SUmorError::Parse(e@),
            UmorError::Runtime(r) => SUmorError::Runtime(report_view(*r)),
            UmorError::Scope(v) => SUmorError::Scope(scope_errors_view(v@)),
        }
    }
}

/// The rendering of each scope violation: `スコープエラー: {message}`.
pub open spec fn scope_lines(v: Seq<SpecScopeError>) -> Seq<Seq<char>> {
    Seq::new(v.len(), |i: int| "スコープエラー: "@ + v[i].message)
}

/// The human-readable text of an error.
pub open spec fn umor_message(e: SUmorError) -> Seq<char> {
    match e {
        SUmorError::Lex(l) => "字句解析エラー（"@ + crate::text::nat_digits(l.line as nat) + "行目"@
            + crate::text::nat_digits(l.column as nat) + "列目）: "@ + l.message,
        SUmorError::Parse(p) => "構文エラー（"@ + crate::text::nat_digits(p.line as nat) + "行目、トークン#"@
            + crate::text::nat_digits(p.token_index as nat) + "）: "@ + p.message,
        SUmorError::Runtime(r) => report_message(r.error, r.trace, r.stack),
        SUmorError::Scope(v) => join(scope_lines(v), "\n"@),
    }
}

impl UmorError {
    /// The human-readable text of this error; scope violations one per line.
    pub fn message(&self) -> (r: String)
        ensures
            r@ == umor_message(self@),
    {
        match self {
            UmorError::Lex(e) => e.to_message(),
            UmorError::Parse(e) => e.to_message(),
            UmorError::Runtime(r) => r.message(),
            UmorError::Scope(v) => {
                let mut lines: Vec<String> = Vec::new();
                let ghost want = scope_lines(scope_errors_view(v@));
                let mut i: usize = 0;
                while i < v.len()
                    invariant
                        i <= v@.len(),
                        want == scope_lines(scope_errors_view(v@)),
                        strings_view(lines@) == want.take(i as int),
                    decreases v@.len() - i,
                {
                    let m = v[i].to_message();
                    let ghost l0 = lines@;
                    lines.push(m);
                    proof {
                        assert(strings_view(lines@) =~= strings_view(l0).push(m@));
                        assert(want[i as int] == m@);
                        assert(want.take(i as int + 1) =~= want.take(i as int).push(m@));
                    }
                    i = i + 1;
                }
                proof {
                    assert(want.take(v@.len() as int) =~= want);
                }
                let mut s = String::new();
                push_joined(&mut s, &lines, "\n");
                proof {
                    assert(s@ =~= join(want, "\n"@));
                }
                s
            },
        }
    }
}

impl From<LexError> for UmorError {
    fn from(e: LexError) -> (r: UmorError) {
        UmorError::Lex(e)
    }
}

impl vstd::std_specs::convert::FromSpecImpl<LexError> for UmorError {
    open spec fn obeys_from_spec() -> bool {
        true
    }

    open spec fn from_spec(e: LexError) -> UmorError {
        UmorError::Lex(e)
    }
}

impl From<ParseError> for UmorError {
    fn from(e: ParseError) -> (r: UmorError) {
        UmorError::Parse(e)
    }
}

impl vstd::std_specs::convert::FromSpecImpl<ParseError> for UmorError {
    open spec fn obeys_from_spec() -> bool {
        true
    }

    open spec fn from_spec(e: ParseError) -> UmorError {
        UmorError::Parse(e)
    }
}

} // verus!
