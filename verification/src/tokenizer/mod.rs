//! The Umor lexer.  Source text is split into words at delimiters (the
//! language is written with spaces between words), string / character /
//! number literals are recognised, comments are dropped, and every word is
//! normalised (width, case, okurigana) so that variant spellings name the
//! same word.
pub mod error;
pub mod kana_table;
pub mod laws;
pub mod normalize;
pub mod okurigana;
pub mod scan;

pub use error::{LexError, SpecLexError};
pub use kana_table::halfwidth_katakana_variant;
pub use normalize::normalize_width_and_case;
pub use okurigana::{is_hiragana, normalize_okurigana};

use vstd::prelude::*;
use crate::text::{str_chars, string_from_chars, chars_eq};
use normalize::{normalize_width_and_case_chars, spec_normalize_width_and_case};
use okurigana::{okurigana_chars, spec_okurigana, all_kana_or_bar, is_kana_or_bar_exec};

verus! {

/// The kind of a token.
#[derive(Debug, Clone, PartialEq, Eq)]
pub enum TokenKind {
    /// An ordinary word, normalised.
    Word(String),
    /// The contents of a string literal (not normalised).
    StringLiteral(String),
    /// A character literal (not normalised).
    CharLiteral(char),
    /// A number literal, as written (converted later by the parser).
    NumberLiteral(String),
    /// The opening bracket of subscript access: a `（` / `(` written right
    /// after the preceding token, with no delimiter between them.
    OpenParen,
    /// The closing bracket of subscript access (`）` / `)`).
    CloseParen,
}

/// A token with its raw spelling and its 1-based line.
#[derive(Debug, Clone, PartialEq, Eq)]
pub struct Token {
    pub kind: TokenKind,
    /// The spelling in the source, before normalisation.
    pub raw: String,
    /// 1-based line where the token starts.
    pub line: usize,
}

/// Plain-value model of [`TokenKind`].
pub enum SpecTokenKind {
    Word(Seq<char>),
    StringLiteral(Seq<char>),
    CharLiteral(char),
    NumberLiteral(Seq<char>),
    OpenParen,
    CloseParen,
}

/// Plain-value model of [`Token`].
pub struct SpecToken {
    pub kind: SpecTokenKind,
    pub raw: Seq<char>,
    pub line: int,
}

impl View for TokenKind {
    type V = SpecTokenKind;

    open spec fn view(&self) -> SpecTokenKind {
        match self {
            TokenKind::Word(w) => SpecTokenKind::Word(w@),
            TokenKind::StringLiteral(s) => SpecTokenKind::StringLiteral(s@),
            TokenKind::CharLiteral(c) => SpecTokenKind::CharLiteral(*c),
            TokenKind::NumberLiteral(s) => SpecTokenKind::NumberLiteral(s@),
            TokenKind::OpenParen => SpecTokenKind::OpenParen,
            TokenKind::CloseParen => SpecTokenKind::CloseParen,
        }
    }
}

impl View for Token {
    type V = SpecToken;

    open spec fn view(&self) -> SpecToken {
        SpecToken { kind: self.kind@, raw: self.raw@, line: self.line as int }
    }
}

/// The models of a sequence of tokens.
pub open spec fn toks_view(v: Seq<Token>) -> Seq<SpecToken> {
    v.map_values(|t: Token| t@)
}

pub open spec fn tok(kind: SpecTokenKind, raw: Seq<char>, line: int) -> SpecToken {
    SpecToken { kind, raw, line }
}

// ----------------------------------------------------------------------
// Character classes

/// Delimiters: space, tab, newline, carriage return, ideographic space,
/// ASCII comma, full-width comma, half-width and full-width ideographic comma.
pub open spec fn is_delimiter(c: char) -> bool {
    c == ' ' || c == '\t' || c == '\n' || c == '\r' || c == '\u{3000}' || c == ','
        || c == '\u{FF0C}' || c == '\u{FF64}' || c == '\u{3001}'
}

/// Characters that can make up a number literal: digits (ASCII and
/// full-width), minus signs, decimal points and the exponent letters E / e
/// (half- and full-width).
pub open spec fn is_number_char(c: char) -> bool {
    ('0' <= c <= '9') || ('\u{FF10}' <= c <= '\u{FF19}') || c == '-' || c == '\u{FF0D}'
        || c == '.' || c == '\u{FF0E}' || c == 'E' || c == 'e' || c == '\u{FF25}'
        || c == '\u{FF45}'
}

/// ASCII or full-width decimal digits.
pub open spec fn is_digit_char(c: char) -> bool {
    ('0' <= c <= '9') || ('\u{FF10}' <= c <= '\u{FF19}')
}

pub open spec fn is_slash(c: char) -> bool {
    c == '/' || c == '\u{FF0F}'
}

pub open spec fn is_star(c: char) -> bool {
    c == '*' || c == '\u{FF0A}'
}

pub(crate) fn is_delimiter_exec(c: char) -> (r: bool)
    ensures
        r == is_delimiter(c),
{
    c == ' ' || c == '\t' || c == '\n' || c == '\r' || c == '\u{3000}' || c == ','
        || c == '\u{FF0C}' || c == '\u{FF64}' || c == '\u{3001}'
}

fn is_number_char_exec(c: char) -> (r: bool)
    ensures
        r == is_number_char(c),
{
    ('0' <= c && c <= '9') || ('\u{FF10}' <= c && c <= '\u{FF19}') || c == '-' || c
        == '\u{FF0D}' || c == '.' || c == '\u{FF0E}' || c == 'E' || c == 'e' || c == '\u{FF25}'
        || c == '\u{FF45}'
}

fn is_digit_char_exec(c: char) -> (r: bool)
    ensures
        r == is_digit_char(c),
{
    ('0' <= c && c <= '9') || ('\u{FF10}' <= c && c <= '\u{FF19}')
}

pub(crate) fn is_slash_exec(c: char) -> (r: bool)
    ensures
        r == is_slash(c),
{
    c == '/' || c == '\u{FF0F}'
}

pub(crate) fn is_star_exec(c: char) -> (r: bool)
    ensures
        r == is_star(c),
{
    c == '*' || c == '\u{FF0A}'
}

// ----------------------------------------------------------------------
// Words

/// Number of leading characters of `s` that can make up a number literal.
pub open spec fn number_prefix_len(s: Seq<char>) -> nat
    decreases s.len(),
{
    if s.len() == 0 || !is_number_char(s[0]) {
        0
    } else {
        1 + number_prefix_len(s.skip(1))
    }
}

/// Whether `s` holds a decimal digit.
pub open spec fn contains_digit(s: Seq<char>) -> bool {
    exists|j: int| 0 <= j < s.len() && is_digit_char(#[trigger] s[j])
}

/// `s` ends with `p`.
pub open spec fn ends_with(s: Seq<char>, p: Seq<char>) -> bool {
    p.len() <= s.len() && s.skip(s.len() - p.len()) == p
}

/// Words that end like a particle but are never split.
pub open spec fn is_protected_keyword(raw: Seq<char>) -> bool {
    raw == "とは"@ || raw == "こと"@ || raw == "ここから"@ || raw == "つぎに"@ || raw
        == "ならば"@ || raw == "そうでなければ"@ || raw == "さもなければ"@ || raw == "さよなら"@ || raw == "または"@
}

/// `raw` ends with particle `p` and is longer than it.
pub open spec fn ends_with_particle(raw: Seq<char>, p: Seq<char>) -> bool {
    ends_with(raw, p) && raw.len() > p.len()
}

/// The first particle, in the order から まで より は が を に へ と で も や
/// (longest first), that `raw` ends with and is longer than.
pub open spec fn first_particle(raw: Seq<char>) -> Option<Seq<char>> {
    if ends_with_particle(raw, "から"@) {
        Some("から"@)
    } else if ends_with_particle(raw, "まで"@) {
        Some("まで"@)
    } else if ends_with_particle(raw, "より"@) {
        Some("より"@)
    } else if ends_with_particle(raw, "は"@) {
        Some("は"@)
    } else if ends_with_particle(raw, "が"@) {
        Some("が"@)
    } else if ends_with_particle(raw, "を"@) {
        Some("を"@)
    } else if ends_with_particle(raw, "に"@) {
        Some("に"@)
    } else if ends_with_particle(raw, "へ"@) {
        Some("へ"@)
    } else if ends_with_particle(raw, "と"@) {
        Some("と"@)
    } else if ends_with_particle(raw, "で"@) {
        Some("で"@)
    } else if ends_with_particle(raw, "も"@) {
        Some("も"@)
    } else if ends_with_particle(raw, "や"@) {
        Some("や"@)
    } else {
        None
    }
}

/// The particle that is split off the end of an all-hiragana word, if any.
/// Protected keywords, words that are not all hiragana / 「ー」, and words
/// ending in 「こと」 or 「とは」 (other than those words themselves) are
/// never split.
pub open spec fn split_particle(raw: Seq<char>) -> Option<Seq<char>> {
    if is_protected_keyword(raw) || !all_kana_or_bar(raw) || (raw != "こと"@ && ends_with(
        raw,
        "こと"@,
    )) || (raw != "とは"@ && ends_with(raw, "とは"@)) {
        None
    } else {
        first_particle(raw)
    }
}

/// Word normalisation: width and case, then okurigana.
pub open spec fn spec_normalize_word(s: Seq<char>) -> Seq<char> {
    spec_okurigana(spec_normalize_width_and_case(s))
}

/// The tokens that one raw word (a run of characters between delimiters)
/// becomes: a number literal when it starts with number characters that
/// include a digit (everything after that prefix is dropped); otherwise the
/// normalised stem and the particle as two words when a particle splits
/// off; otherwise the normalised word.
pub open spec fn classify(raw: Seq<char>, line: int) -> Seq<SpecToken> {
    let k = number_prefix_len(raw);
    if k > 0 && contains_digit(raw.take(k as int)) {
        seq![tok(SpecTokenKind::NumberLiteral(raw.take(k as int)), raw, line)]
    } else {
        match split_particle(raw) {
            Some(p) => {
                let stem = raw.take(raw.len() - p.len());
                seq![
                    tok(SpecTokenKind::Word(spec_normalize_word(stem)), stem, line),
                    tok(SpecTokenKind::Word(p), p, line),
                ]
            },
            None => seq![tok(SpecTokenKind::Word(spec_normalize_word(raw)), raw, line)],
        }
    }
}

fn number_prefix_len_exec(chars: &Vec<char>) -> (r: usize)
    ensures
        r == number_prefix_len(chars@),
        r <= chars@.len(),
        forall|j: int| 0 <= j < r ==> is_number_char(#[trigger] chars@[j]),
{
    let n = chars.len();
    let mut k: usize = 0;
    proof {
        assert(chars@.skip(0) =~= chars@);
    }
    while k < n && is_number_char_exec(chars[k])
        invariant
            k <= n == chars@.len(),
            number_prefix_len(chars@) == k + number_prefix_len(chars@.skip(k as int)),
            forall|j: int| 0 <= j < k ==> is_number_char(#[trigger] chars@[j]),
        decreases n - k,
    {
        proof {
            assert(chars@.skip(k as int).skip(1) =~= chars@.skip(k + 1));
        }
        k = k + 1;
    }
    k
}

fn contains_digit_exec(chars: &Vec<char>, k: usize) -> (r: bool)
    requires
        k <= chars@.len(),
    ensures
        r == contains_digit(chars@.take(k as int)),
{
    let mut j: usize = 0;
    while j < k
        invariant
            k <= chars@.len(),
            j <= k,
            forall|m: int| 0 <= m < j ==> !is_digit_char(#[trigger] chars@[m]),
        decreases k - j,
    {
        if is_digit_char_exec(chars[j]) {
            proof {
                assert(chars@.take(k as int)[j as int] == chars@[j as int]);
            }
            return true;
        }
        j = j + 1;
    }
    proof {
        assert forall|m: int| 0 <= m < k implies !is_digit_char(#[trigger] chars@.take(k as int)[m]) by {
            assert(chars@.take(k as int)[m] == chars@[m]);
        }
    }
    false
}

fn ends_with_lit(s: &Vec<char>, p: &str) -> (r: bool)
    ensures
        r == ends_with(s@, p@),
{
    let pv = str_chars(p);
    if pv.len() > s.len() {
        return false;
    }
    let off = s.len() - pv.len();
    let mut j: usize = 0;
    while j < pv.len()
        invariant
            pv@ == p@,
            off + pv@.len() == s@.len(),
            s@.len() <= usize::MAX,
            j <= pv@.len(),
            forall|m: int| 0 <= m < j ==> s@[off + m] == pv@[m],
        decreases pv@.len() - j,
    {
        assert(off + j < s@.len());
        if s[off + j] != pv[j] {
            proof {
                assert(s@.skip(off as int)[j as int] == s@[off + j]);
            }
            return false;
        }
        j = j + 1;
    }
    proof {
        assert(s@.skip(off as int) =~= pv@);
    }
    true
}

fn eq_lit(s: &Vec<char>, p: &str) -> (r: bool)
    ensures
        r == (s@ == p@),
{
    let pv = str_chars(p);
    chars_eq(s.as_slice(), pv.as_slice())
}

fn is_protected_keyword_exec(raw: &Vec<char>) -> (r: bool)
    ensures
        r == is_protected_keyword(raw@),
{
    eq_lit(raw, "とは") || eq_lit(raw, "こと") || eq_lit(raw, "ここから") || eq_lit(raw, "つぎに")
        || eq_lit(raw, "ならば") || eq_lit(raw, "そうでなければ") || eq_lit(raw, "さもなければ")
        || eq_lit(raw, "さよなら") || eq_lit(raw, "または")
}

fn ends_with_particle_exec(raw: &Vec<char>, p: &str) -> (r: Option<Vec<char>>)
    ensures
        r is Some == ends_with_particle(raw@, p@),
        r matches Some(v) ==> v@ == p@,
{
    let pv = str_chars(p);
    if ends_with_lit(raw, p) && raw.len() > pv.len() {
        Some(pv)
    } else {
        None
    }
}

fn first_particle_exec(raw: &Vec<char>) -> (r: Option<Vec<char>>)
    ensures
        r is Some == first_particle(raw@) is Some,
        r matches Some(v) ==> first_particle(raw@) == Some(v@),
{
    let cands = ["から", "まで", "より", "は", "が", "を", "に", "へ", "と", "で", "も", "や"];
    if let Some(v) = ends_with_particle_exec(raw, "から") {
        return Some(v);
    }
    if let Some(v) = ends_with_particle_exec(raw, "まで") {
        return Some(v);
    }
    if let Some(v) = ends_with_particle_exec(raw, "より") {
        return Some(v);
    }
    if let Some(v) = ends_with_particle_exec(raw, "は") {
        return Some(v);
    }
    if let Some(v) = ends_with_particle_exec(raw, "が") {
        return Some(v);
    }
    if let Some(v) = ends_with_particle_exec(raw, "を") {
        return Some(v);
    }
    if let Some(v) = ends_with_particle_exec(raw, "に") {
        return Some(v);
    }
    if let Some(v) = ends_with_particle_exec(raw, "へ") {
        return Some(v);
    }
    if let Some(v) = ends_with_particle_exec(raw, "と") {
        return Some(v);
    }
    if let Some(v) = ends_with_particle_exec(raw, "で") {
        return Some(v);
    }
    if let Some(v) = ends_with_particle_exec(raw, "も") {
        return Some(v);
    }
    if let Some(v) = ends_with_particle_exec(raw, "や") {
        return Some(v);
    }
    None
}

fn all_kana_or_bar_exec(raw: &Vec<char>) -> (r: bool)
    ensures
        r == all_kana_or_bar(raw@),
{
    let mut j: usize = 0;
    while j < raw.len()
        invariant
            j <= raw@.len(),
            forall|m: int| 0 <= m < j ==> okurigana::is_kana_or_bar(#[trigger] raw@[m]),
        decreases raw@.len() - j,
    {
        if !is_kana_or_bar_exec(raw[j]) {
            return false;
        }
        j = j + 1;
    }
    true
}

fn split_particle_exec(raw: &Vec<char>) -> (r: Option<Vec<char>>)
    ensures
        r is Some == split_particle(raw@) is Some,
        r matches Some(v) ==> split_particle(raw@) == Some(v@),
{
    if is_protected_keyword_exec(raw) || !all_kana_or_bar_exec(raw) || (!eq_lit(raw, "こと")
        && ends_with_lit(raw, "こと")) || (!eq_lit(raw, "とは") && ends_with_lit(raw, "とは")) {
        None
    } else {
        first_particle_exec(raw)
    }
}

/// Normalises a raw word: width and case, then okurigana.
pub(crate) fn normalize_word_chars(raw: &Vec<char>) -> (r: Vec<char>)
    ensures
        r@ == spec_normalize_word(raw@),
{
    let w = normalize_width_and_case_chars(raw);
    okurigana_chars(&w)
}

/// Normalises a word as the dictionary does: width and case, then okurigana.
pub fn normalize_word(raw: &str) -> (r: String)
    ensures
        r@ == spec_normalize_word(raw@),
{
    let v = str_chars(raw);
    let w = normalize_word_chars(&v);
    string_from_chars(w.as_slice())
}

proof fn lemma_push_view(v: Seq<Token>, t: Token)
    ensures
        toks_view(v.push(t)) == toks_view(v).push(t@),
{
    assert(toks_view(v.push(t)) =~= toks_view(v).push(t@));
}

fn push_token(tokens: &mut Vec<Token>, t: Token)
    ensures
        toks_view(final(tokens)@) == toks_view(old(tokens)@).push(t@),
{
    proof {
        lemma_push_view(tokens@, t);
    }
    tokens.push(t);
}

fn take_chars(v: &Vec<char>, k: usize) -> (r: Vec<char>)
    requires
        k <= v@.len(),
    ensures
        r@ == v@.take(k as int),
{
    let mut out: Vec<char> = Vec::new();
    let mut j: usize = 0;
    while j < k
        invariant
            j <= k <= v@.len(),
            out@ == v@.take(j as int),
        decreases k - j,
    {
        out.push(v[j]);
        j = j + 1;
        proof {
            assert(out@ =~= v@.take(j as int));
        }
    }
    out
}

/// Classifies one raw word and appends its tokens (see [`classify`]).
fn classify_and_push(raw: &Vec<char>, line: usize, tokens: &mut Vec<Token>)
    ensures
        toks_view(final(tokens)@) == toks_view(old(tokens)@) + classify(raw@, line as int),
{
    let k = number_prefix_len_exec(raw);
    if k > 0 && contains_digit_exec(raw, k) {
        let num = take_chars(raw, k);
        let t = Token {
            kind: TokenKind::NumberLiteral(string_from_chars(num.as_slice())),
            raw: string_from_chars(raw.as_slice()),
            line,
        };
        push_token(tokens, t);
        proof {
            assert(toks_view(final(tokens)@) =~= toks_view(old(tokens)@) + classify(raw@, line as int));
        }
        return;
    }
    match split_particle_exec(raw) {
        Some(p) => {
            let stem = take_chars(raw, raw.len() - p.len());
            let w = normalize_word_chars(&stem);
            let t1 = Token {
                kind: TokenKind::Word(string_from_chars(w.as_slice())),
                raw: string_from_chars(stem.as_slice()),
                line,
            };
            let t2 = Token {
                kind: TokenKind::Word(string_from_chars(p.as_slice())),
                raw: string_from_chars(p.as_slice()),
                line,
            };
            push_token(tokens, t1);
            push_token(tokens, t2);
            proof {
                assert(toks_view(final(tokens)@) =~= toks_view(old(tokens)@) + classify(raw@, line as int));
            }
        },
        None => {
            let w = normalize_word_chars(raw);
            let t = Token {
                kind: TokenKind::Word(string_from_chars(w.as_slice())),
                raw: string_from_chars(raw.as_slice()),
                line,
            };
            push_token(tokens, t);
            proof {
                assert(toks_view(final(tokens)@) =~= toks_view(old(tokens)@) + classify(raw@, line as int));
            }
        },
    }
}

} // verus!

verus! {

/// Lexes source text into tokens (the rules are those of
/// [`scan::lex_step`]): words are split at delimiters and normalised;
/// 「...」 / "..." / ＂...＂ are string literals, 'X' a character literal;
/// 『...』 and “...” quote a word; 「※」, two slashes and
/// 「コンパイル抑止。」...「コンパイル抑止終り。」 are comments, as are nestable
/// slash-star block comments; a round bracket after a delimiter starts a
/// comment, one right after a word starts subscript access; a word that
/// starts with a number is a number literal (whatever follows the number is
/// dropped); 「。」 is always a word of its own.  The only error is an
/// unclosed block comment, reported at its opening position.
pub fn tokenize(src: &str) -> (r: Result<Vec<Token>, LexError>)
    requires
        src@.len() < usize::MAX,
    ensures
        match r {
            Ok(v) => scan::spec_tokenize(src@) == Ok::<Seq<SpecToken>, SpecLexError>(toks_view(v@)),
            Err(e) => scan::spec_tokenize(src@) == Err::<Seq<SpecToken>, SpecLexError>(e@),
        },
{
    let chars = str_chars(src);
    scan::tokenize_chars(&chars)
}

} // verus!
