//! The parser's error type.
use vstd::prelude::*;
use crate::tokenizer::{SpecToken, Token, toks_view};
use crate::text::{push_str, push_usize};

verus! {

/// A syntax error: the message, the index of the token where it arose and
/// that token's line (the last token's line past the end; 0 for no tokens).
#[derive(Debug, Clone, PartialEq, Eq)]
pub struct ParseError {
    pub message: String,
    /// Index of the token where the error arose.
    pub token_index: usize,
    /// 1-based line of that token (0 when there are no tokens).
    pub line: usize,
}

/// Plain-value model of [`ParseError`].
pub struct SpecParseError {
    pub message: Seq<char>,
    pub token_index: int,
    pub line: int,
}

impl View for ParseError {
    type V = SpecParseError;

    open spec fn view(&self) -> SpecParseError {
        SpecParseError {
            message: self.message@,
            token_index: self.token_index as int,
            line: self.line as int,
        }
    }
}

/// The line reported for an error at token `idx`: that token's line, else
/// the last token's, else 0.
pub open spec fn error_line(t: Seq<SpecToken>, idx: int) -> int {
    if 0 <= idx < t.len() {
        t[idx].line
    } else if t.len() > 0 {
        t.last().line
    } else {
        0
    }
}

/// The error with message `msg` at token `idx`.
pub open spec fn perr(t: Seq<SpecToken>, msg: Seq<char>, idx: int) -> SpecParseError {
    SpecParseError { message: msg, token_index: idx, line: error_line(t, idx) }
}

impl ParseError {
    /// The error with message `message` at token `token_index`, carrying
    /// that token's line.
    pub fn new(message: String, tokens: &[Token], token_index: usize) -> (r: ParseError)
        ensures
            r@ == perr(toks_view(tokens@), message@, token_index as int),
    {
        let line = if token_index < tokens.len() {
            tokens[token_index].line
        } else if tokens.len() > 0 {
            tokens[tokens.len() - 1].line
        } else {
            0
        };
        ParseError { message, token_index, line }
    }

    /// The human-readable rendering:
    /// `構文エラー（{line}行目、トークン#{token_index}）: {message}`.
    pub fn to_message(&self) -> (r: String)
        ensures
            r@ == "構文エラー（"@ + crate::text::nat_digits(self.line as nat) + "行目、トークン#"@
                + crate::text::nat_digits(self.token_index as nat) + "）: "@ + self.message@,
    {
        let mut s = String::new();
        push_str(&mut s, "構文エラー（");
        push_usize(&mut s, self.line);
        push_str(&mut s, "行目、トークン#");
        push_usize(&mut s, self.token_index);
        push_str(&mut s, "）: ");
        push_str(&mut s, self.message.as_str());
        proof {
            assert(s@ =~= "構文エラー（"@ + crate::text::nat_digits(self.line as nat) + "行目、トークン#"@
                + crate::text::nat_digits(self.token_index as nat) + "）: "@ + self.message@);
        }
        s
    }
}

} // verus!
