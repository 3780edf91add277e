//! The lexer's error type.
use vstd::prelude::*;
use crate::text::{push_str, push_usize};

verus! {

/// A lexical error, with the 1-based line and column where it arose.
#[derive(Debug, Clone, PartialEq, Eq)]
pub struct LexError {
    pub message: String,
    /// 1-based line of the error.
    pub line: usize,
    /// 1-based column of the error.
    pub column: usize,
}

/// The plain-value model of a [`LexError`].
pub struct SpecLexError {
    pub message: Seq<char>,
    pub line: int,
    pub column: int,
}

impl View for LexError {
    type V = SpecLexError;

    open spec fn view(&self) -> SpecLexError {
        SpecLexError { message: self.message@, line: self.line as int, column: self.column as int }
    }
}

impl LexError {
    /// The human-readable rendering:
    /// `字句解析エラー（{line}行目{column}列目）: {message}`.
    pub fn to_message(&self) -> (r: String)
        ensures
            r@ == "字句解析エラー（"@ + crate::text::nat_digits(self.line as nat) + "行目"@
                + crate::text::nat_digits(self.column as nat) + "列目）: "@ + self.message@,
    {
        let mut s = String::new();
        push_str(&mut s, "字句解析エラー（");
        push_usize(&mut s, self.line);
        push_str(&mut s, "行目");
        push_usize(&mut s, self.column);
        push_str(&mut s, "列目）: ");
        push_str(&mut s, self.message.as_str());
        proof {
            assert(s@ =~= "字句解析エラー（"@ + crate::text::nat_digits(self.line as nat) + "行目"@
                + crate::text::nat_digits(self.column as nat) + "列目）: "@ + self.message@);
        }
        s
    }
}

} // verus!
