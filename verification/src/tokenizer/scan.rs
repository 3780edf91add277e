//! The lexer's scanning model and its executable scanner.
use vstd::prelude::*;
use super::{
    SpecToken, SpecTokenKind, Token, TokenKind, classify, tok, toks_view, is_slash, is_star,
    is_delimiter, spec_normalize_word, is_slash_exec, is_star_exec,
};
use crate::text::{str_chars, string_from_chars, push_char};
use super::error::{LexError, SpecLexError};

verus! {

/// Number of newline characters in `s`.
pub open spec fn count_nl(s: Seq<char>) -> nat
    decreases s.len(),
{
    if s.len() == 0 {
        0
    } else {
        count_nl(s.drop_last()) + if s.last() == '\n' { 1nat } else { 0nat }
    }
}

/// The first position at or after `k` holding `a` or `b`, or the end.
pub open spec fn scan_to(chars: Seq<char>, k: int, a: char, b: char) -> int
    decreases chars.len() - k,
{
    if k < 0 || k >= chars.len() || chars[k] == a || chars[k] == b {
        k
    } else {
        scan_to(chars, k + 1, a, b)
    }
}

/// `pat` occurs in `chars` at position `i`.
pub open spec fn matches_at(chars: Seq<char>, i: int, pat: Seq<char>) -> bool {
    0 <= i && i + pat.len() <= chars.len() && chars.subrange(i, i + pat.len()) == pat
}

/// The first position at or after `k` where `pat` occurs.
pub open spec fn find_from(chars: Seq<char>, k: int, pat: Seq<char>) -> Option<int>
    decreases chars.len() - k,
{
    if k < 0 || pat.len() == 0 || k + pat.len() > chars.len() {
        None
    } else if matches_at(chars, k, pat) {
        Some(k)
    } else {
        find_from(chars, k + 1, pat)
    }
}

/// Scans a nestable block comment body from `j` at nesting `depth`, counting
/// lines; returns the position after the scan, the remaining depth and the
/// line reached.  Opening markers are a slash then a star, closing markers
/// a star then a slash (half- or full-width each).
pub open spec fn scan_block(chars: Seq<char>, j: int, depth: int, line: int) -> (int, int, int)
    decreases chars.len() - j,
{
    if j < 0 || j >= chars.len() || depth <= 0 {
        (j, depth, line)
    } else if is_slash(chars[j]) && j + 1 < chars.len() && is_star(chars[j + 1]) {
        scan_block(chars, j + 2, depth + 1, line)
    } else if is_star(chars[j]) && j + 1 < chars.len() && is_slash(chars[j + 1]) {
        scan_block(chars, j + 2, depth - 1, line)
    } else if chars[j] == '\n' {
        scan_block(chars, j + 1, depth, line + 1)
    } else {
        scan_block(chars, j + 1, depth, line)
    }
}

/// 1-based (line, column) of position `idx`.
pub open spec fn line_col(chars: Seq<char>, idx: int) -> (int, int)
    decreases idx,
{
    if idx <= 0 {
        (1, 1)
    } else {
        let (l, c) = line_col(chars, idx - 1);
        if chars[idx - 1] == '\n' {
            (l + 1, 1)
        } else {
            (l, c + 1)
        }
    }
}

/// The lexer's state between two steps: the position, the current line,
/// the tokens so far, the pending raw word with the line it started on, and
/// the closing brackets expected for open subscript brackets.
pub struct LexState {
    pub i: int,
    pub line: int,
    pub tokens: Seq<SpecToken>,
    pub buf: Seq<char>,
    pub buf_line: int,
    pub parens: Seq<char>,
}

/// The pending raw word becomes tokens.
pub open spec fn flush(st: LexState) -> LexState {
    if st.buf.len() == 0 {
        st
    } else {
        LexState { tokens: st.tokens + classify(st.buf, st.buf_line), buf: seq![], ..st }
    }
}

pub open spec fn block_open() -> Seq<char> {
    "コンパイル抑止。"@
}

pub open spec fn block_close() -> Seq<char> {
    "コンパイル抑止終り。"@
}

pub open spec fn unclosed_block_message() -> Seq<char> {
    "ブロックコメントが閉じられていません"@
}

/// State after a skipped region that ends at `to`, with `line` reached.
pub open spec fn skipped(f: LexState, to: int, line: int) -> LexState {
    LexState { i: to, line, buf_line: line, ..f }
}

/// State after a token `t` that ends at `to`, with `line` reached.
pub open spec fn emitted(f: LexState, t: SpecToken, to: int, line: int) -> LexState {
    LexState { i: to, line, buf_line: line, tokens: f.tokens.push(t), ..f }
}

/// A quoted region from `start` (after the opening character) to the
/// stopping position `e`: the position after it (past the closing
/// character when there is one) and the line reached.
pub open spec fn after_quoted(chars: Seq<char>, start: int, e: int, line: int) -> (int, int) {
    (if e < chars.len() { e + 1 } else { e }, line + count_nl(chars.subrange(start, e)))
}

/// Which lexing rule applies at position `st.i` (see [`lex_step`]).
pub open spec fn lex_rule(chars: Seq<char>, st: LexState) -> int {
    let n = chars.len();
    let i = st.i;
    let c = chars[i];
    if matches_at(chars, i, block_open()) {
        1
    } else if c == '※' {
        2
    } else if is_slash(c) && i + 1 < n && is_star(chars[i + 1]) {
        3
    } else if is_slash(c) && i + 1 < n && is_slash(chars[i + 1]) {
        4
    } else if c == '。' {
        5
    } else if c == '（' || c == '(' {
        6
    } else if (c == '）' || c == ')') && st.parens.len() > 0 && st.parens.last() == c {
        7
    } else if c == '『' || c == '“' {
        8
    } else if c == '「' {
        9
    } else if c == '"' || c == '＂' {
        10
    } else if (c == '\'' || c == '＇') && i + 2 < n && chars[i + 2] == c && chars[i + 1] != '\n' {
        11
    } else if is_delimiter(c) {
        12
    } else {
        13
    }
}

/// One step of the lexer at position `st.i` (which must be inside the input).
/// The rules, tried in order (see [`lex_rule`]):
/// 1. 「コンパイル抑止。」 starts a comment that runs past the next
///    「コンパイル抑止終り。」 (or to the end).
/// 2. 「※」 starts a comment to the end of the line.
/// 3. A slash and a star start a nestable block comment; an unclosed one is
///    an error at the opening position.
/// 4. Two slashes start a comment to the end of the line.
/// 5. 「。」 is always a word of its own.
/// 6. An opening round bracket right after a non-delimiter starts subscript
///    access; after a delimiter it starts a comment up to the matching
///    closing bracket.
/// 7. A closing round bracket that matches the innermost open subscript
///    bracket closes it.
/// 8. 『...』 and “...” quote a word (normalised).
/// 9. and 10. 「...」, "..." and ＂...＂ are string literals.
/// 11. 'X' and ＇X＇ are character literals (X not a newline).
/// 12. A delimiter ends the pending word (a newline also counts a line).
/// 13. Any other character is added to the pending word.
/// Every rule but the last first turns the pending word into tokens.
pub open spec fn lex_step(chars: Seq<char>, st: LexState) -> Result<LexState, SpecLexError> {
    let n = chars.len();
    let i = st.i;
    let c = chars[i];
    let f = flush(st);
    let r = lex_rule(chars, st);
    if r == 1 {
        let to = match find_from(chars, i + block_open().len(), block_close()) {
            Some(e) => e + block_close().len(),
            None => n as int,
        };
        Ok(skipped(f, to, st.line + count_nl(chars.subrange(i, to))))
    } else if r == 2 {
        Ok(skipped(f, scan_to(chars, i, '\n', '\n'), st.line))
    } else if r == 3 {
        let (j, depth, line) = scan_block(chars, i + 2, 1, st.line);
        if depth > 0 {
            Err(
                SpecLexError {
                    message: unclosed_block_message(),
                    line: line_col(chars, i).0,
                    column: line_col(chars, i).1,
                },
            )
        } else {
            Ok(skipped(f, j, line))
        }
    } else if r == 4 {
        Ok(skipped(f, scan_to(chars, i + 2, '\n', '\n'), st.line))
    } else if r == 5 {
        Ok(emitted(f, tok(SpecTokenKind::Word(seq!['。']), seq!['。'], st.line), i + 1, st.line))
    } else if r == 6 {
        let close = if c == '（' { '）' } else { ')' };
        if i > 0 && !is_delimiter(chars[i - 1]) {
            let g = LexState { parens: f.parens.push(close), ..f };
            Ok(emitted(g, tok(SpecTokenKind::OpenParen, seq![c], st.line), i + 1, st.line))
        } else {
            let e = scan_to(chars, i + 1, close, close);
            let (to, line) = after_quoted(chars, i + 1, e, st.line);
            Ok(skipped(f, to, line))
        }
    } else if r == 7 {
        let g = LexState { parens: f.parens.drop_last(), ..f };
        Ok(emitted(g, tok(SpecTokenKind::CloseParen, seq![c], st.line), i + 1, st.line))
    } else if r == 8 {
        let close = if c == '『' { '』' } else { '”' };
        let other = if c == '『' { '』' } else { '“' };
        let e = scan_to(chars, i + 1, close, other);
        let content = chars.subrange(i + 1, e);
        let raw = if e < n { seq![c] + content + seq![chars[e]] } else { seq![c] + content };
        let (to, line) = after_quoted(chars, i + 1, e, st.line);
        Ok(emitted(f, tok(SpecTokenKind::Word(spec_normalize_word(content)), raw, st.line), to, line))
    } else if r == 9 || r == 10 {
        let close = if r == 9 { '」' } else { c };
        let e = scan_to(chars, i + 1, close, close);
        let content = chars.subrange(i + 1, e);
        let raw = seq![c] + content + seq![close];
        let (to, line) = after_quoted(chars, i + 1, e, st.line);
        Ok(emitted(f, tok(SpecTokenKind::StringLiteral(content), raw, st.line), to, line))
    } else if r == 11 {
        Ok(
            emitted(
                f,
                tok(SpecTokenKind::CharLiteral(chars[i + 1]), chars.subrange(i, i + 3), st.line),
                i + 3,
                st.line,
            ),
        )
    } else if r == 12 {
        let line = if c == '\n' { st.line + 1 } else { st.line };
        Ok(skipped(f, i + 1, line))
    } else {
        Ok(
            LexState {
                i: i + 1,
                buf: st.buf.push(c),
                buf_line: if st.buf.len() == 0 { st.line } else { st.buf_line },
                ..st
            },
        )
    }
}

/// Runs the lexer from state `st` to the end of the input.
pub open spec fn lex_from(chars: Seq<char>, st: LexState) -> Result<Seq<SpecToken>, SpecLexError>
    decreases chars.len() - st.i,
{
    if st.i < 0 || st.i >= chars.len() {
        Ok(flush(st).tokens)
    } else {
        match lex_step(chars, st) {
            Err(e) => Err(e),
            Ok(next) => if st.i < next.i <= chars.len() {
                lex_from(chars, next)
            } else {
                Ok(seq![])
            },
        }
    }
}

/// What [`tokenize`] yields for the characters `chars`.
pub open spec fn spec_tokenize(chars: Seq<char>) -> Result<Seq<SpecToken>, SpecLexError> {
    lex_from(
        chars,
        LexState { i: 0, line: 1, tokens: seq![], buf: seq![], buf_line: 1, parens: seq![] },
    )
}

// ----------------------------------------------------------------------
// Executable scanning

proof fn lemma_count_nl_bound(s: Seq<char>)
    ensures
        count_nl(s) <= s.len(),
    decreases s.len(),
{
    if s.len() > 0 {
        lemma_count_nl_bound(s.drop_last());
    }
}

/// Number of newlines in `chars[a..b]`.
fn count_newlines(chars: &Vec<char>, a: usize, b: usize) -> (r: usize)
    requires
        a <= b <= chars@.len(),
    ensures
        r == count_nl(chars@.subrange(a as int, b as int)),
        r <= b - a,
{
    let mut cnt: usize = 0;
    let mut j: usize = a;
    proof {
        assert(chars@.subrange(a as int, a as int) =~= Seq::<char>::empty());
    }
    while j < b
        invariant
            a <= j <= b <= chars@.len(),
            cnt == count_nl(chars@.subrange(a as int, j as int)),
            cnt <= j - a,
        decreases b - j,
    {
        proof {
            assert(chars@.subrange(a as int, j + 1).drop_last() =~= chars@.subrange(a as int, j as int));
        }
        if chars[j] == '\n' {
            cnt = cnt + 1;
        }
        j = j + 1;
    }
    cnt
}

proof fn lemma_scan_to_bounds(chars: Seq<char>, k: int, a: char, b: char)
    requires
        0 <= k <= chars.len(),
    ensures
        k <= scan_to(chars, k, a, b) <= chars.len(),
        scan_to(chars, k, a, b) < chars.len() ==> (chars[scan_to(chars, k, a, b)] == a
            || chars[scan_to(chars, k, a, b)] == b),
    decreases chars.len() - k,
{
    if k < chars.len() && chars[k] != a && chars[k] != b {
        lemma_scan_to_bounds(chars, k + 1, a, b);
    }
}

/// The first position at or after `k` holding `a` or `b`, or the end.
fn scan_to_exec(chars: &Vec<char>, k: usize, a: char, b: char) -> (r: usize)
    requires
        k <= chars@.len(),
    ensures
        r == scan_to(chars@, k as int, a, b),
        k <= r <= chars@.len(),
{
    let mut j = k;
    while j < chars.len() && chars[j] != a && chars[j] != b
        invariant
            k <= j <= chars@.len(),
            scan_to(chars@, k as int, a, b) == scan_to(chars@, j as int, a, b),
        decreases chars@.len() - j,
    {
        j = j + 1;
    }
    j
}

fn matches_at_exec(chars: &Vec<char>, i: usize, pat: &Vec<char>) -> (r: bool)
    ensures
        r == matches_at(chars@, i as int, pat@),
{
    if pat.len() > chars.len() || i > chars.len() - pat.len() {
        return false;
    }
    let mut j: usize = 0;
    while j < pat.len()
        invariant
            i + pat@.len() <= chars@.len(),
            chars@.len() <= usize::MAX,
            j <= pat@.len(),
            forall|m: int| 0 <= m < j ==> chars@[i + m] == pat@[m],
        decreases pat@.len() - j,
    {
        if chars[i + j] != pat[j] {
            proof {
                assert(chars@.subrange(i as int, i + pat@.len())[j as int] == chars@[i + j]);
            }
            return false;
        }
        j = j + 1;
    }
    proof {
        assert(chars@.subrange(i as int, i + pat@.len()) =~= pat@);
    }
    true
}

proof fn lemma_find_from_bounds(chars: Seq<char>, k: int, pat: Seq<char>)
    requires
        0 <= k,
    ensures
        find_from(chars, k, pat) matches Some(e) ==> k <= e && e + pat.len() <= chars.len(),
    decreases chars.len() - k,
{
    if !(pat.len() == 0 || k + pat.len() > chars.len()) && !matches_at(chars, k, pat) {
        lemma_find_from_bounds(chars, k + 1, pat);
    }
}

fn find_from_exec(chars: &Vec<char>, k: usize, pat: &Vec<char>) -> (r: Option<usize>)
    ensures
        r matches Some(e) ==> find_from(chars@, k as int, pat@) == Some(e as int),
        r is None ==> find_from(chars@, k as int, pat@) is None,
{
    if pat.len() == 0 || chars.len() < pat.len() {
        return None;
    }
    let last = chars.len() - pat.len();
    let mut s = k;
    while s <= last
        invariant
            pat@.len() > 0,
            last + pat@.len() == chars@.len(),
            chars@.len() <= usize::MAX,
            k <= s,
            find_from(chars@, k as int, pat@) == find_from(chars@, s as int, pat@),
        decreases last + 1 - s,
    {
        if matches_at_exec(chars, s, pat) {
            return Some(s);
        }
        s = s + 1;
    }
    None
}

fn scan_block_exec(chars: &Vec<char>, start: usize, line0: usize) -> (r: (usize, usize, usize))
    requires
        2 <= start <= chars@.len() < usize::MAX,
        line0 <= start,
    ensures
        scan_block(chars@, start as int, 1, line0 as int) == (r.0 as int, r.1 as int, r.2 as int),
        start <= r.0 <= chars@.len(),
        line0 <= r.2 <= line0 + (r.0 - start),
{
    let n = chars.len();
    let mut j = start;
    let mut depth: usize = 1;
    let mut line = line0;
    while j < n && depth > 0
        invariant
            n == chars@.len(),
            start <= j <= n,
            depth <= j,
            line0 <= line <= line0 + (j - start),
            line0 <= start,
            n < usize::MAX,
            scan_block(chars@, start as int, 1, line0 as int) == scan_block(
                chars@,
                j as int,
                depth as int,
                line as int,
            ),
        decreases n - j,
    {
        if is_slash_exec(chars[j]) && j + 1 < n && is_star_exec(chars[j + 1]) {
            depth = depth + 1;
            j = j + 2;
            continue;
        }
        if is_star_exec(chars[j]) && j + 1 < n && is_slash_exec(chars[j + 1]) {
            depth = depth - 1;
            j = j + 2;
            continue;
        }
        if chars[j] == '\n' {
            line = line + 1;
        }
        j = j + 1;
    }
    (j, depth, line)
}

fn line_col_exec(chars: &Vec<char>, idx: usize) -> (r: (usize, usize))
    requires
        idx <= chars@.len(),
        chars@.len() < usize::MAX,
    ensures
        line_col(chars@, idx as int) == (r.0 as int, r.1 as int),
{
    let mut line: usize = 1;
    let mut col: usize = 1;
    let mut j: usize = 0;
    while j < idx
        invariant
            j <= idx <= chars@.len() < usize::MAX,
            line <= j + 1,
            col <= j + 1,
            line_col(chars@, j as int) == (line as int, col as int),
        decreases idx - j,
    {
        if chars[j] == '\n' {
            line = line + 1;
            col = 1;
        } else {
            col = col + 1;
        }
        j = j + 1;
    }
    (line, col)
}

} // verus!

verus! {

/// The executable lexer state (see [`LexState`]).
struct Lexer {
    i: usize,
    line: usize,
    tokens: Vec<Token>,
    buf: Vec<char>,
    buf_line: usize,
    parens: Vec<char>,
}

impl View for Lexer {
    type V = LexState;

    closed spec fn view(&self) -> LexState {
        LexState {
            i: self.i as int,
            line: self.line as int,
            tokens: toks_view(self.tokens@),
            buf: self.buf@,
            buf_line: self.buf_line as int,
            parens: self.parens@,
        }
    }
}

/// The lexer invariant: position inside the input, line numbers bounded by it.
spec fn lexer_ok(chars: Seq<char>, lx: LexState) -> bool {
    &&& chars.len() < usize::MAX
    &&& 0 <= lx.i <= chars.len()
    &&& 1 <= lx.line <= lx.i + 1
    &&& lx.buf_line <= lx.line
}

fn push_token(tokens: &mut Vec<Token>, t: Token)
    ensures
        toks_view(final(tokens)@) == toks_view(old(tokens)@).push(t@),
{
    proof {
        assert(toks_view(tokens@.push(t)) =~= toks_view(tokens@).push(t@));
    }
    tokens.push(t);
}

/// Turns the pending raw word (if any) into tokens.
fn flush_word(lx: &mut Lexer)
    ensures
        final(lx)@ == flush(old(lx)@),
{
    if lx.buf.len() == 0 {
        proof {
            assert(lx.buf@ =~= Seq::<char>::empty());
        }
        return;
    }
    super::classify_and_push(&lx.buf, lx.buf_line, &mut lx.tokens);
    lx.buf.clear();
}

fn chars_range(v: &Vec<char>, a: usize, b: usize) -> (r: Vec<char>)
    requires
        a <= b <= v@.len(),
    ensures
        r@ == v@.subrange(a as int, b as int),
{
    let mut out: Vec<char> = Vec::new();
    let mut j = a;
    while j < b
        invariant
            a <= j <= b <= v@.len(),
            out@ == v@.subrange(a as int, j as int),
        decreases b - j,
    {
        out.push(v[j]);
        j = j + 1;
        proof {
            assert(out@ =~= v@.subrange(a as int, j as int));
        }
    }
    out
}

fn one_char_string(c: char) -> (r: String)
    ensures
        r@ == seq![c],
{
    let mut s = String::new();
    push_char(&mut s, c);
    proof {
        assert(s@ =~= seq![c]);
    }
    s
}

fn wrapped_string(open: char, content: &Vec<char>, close: Option<char>) -> (r: String)
    ensures
        r@ == match close {
            Some(c) => seq![open] + content@ + seq![c],
            None => seq![open] + content@,
        },
{
    let mut v: Vec<char> = Vec::new();
    v.push(open);
    let mut j: usize = 0;
    while j < content.len()
        invariant
            j <= content@.len(),
            v@ == seq![open] + content@.take(j as int),
        decreases content@.len() - j,
    {
        v.push(content[j]);
        j = j + 1;
        proof {
            assert(v@ =~= seq![open] + content@.take(j as int));
        }
    }
    proof {
        assert(content@.take(content@.len() as int) =~= content@);
    }
    match close {
        Some(c) => {
            v.push(c);
        },
        None => {},
    }
    proof {
        match close {
            Some(c) => assert(v@ =~= seq![open] + content@ + seq![c]),
            None => assert(v@ =~= seq![open] + content@),
        }
    }
    string_from_chars(v.as_slice())
}

/// Rule 1: the 「コンパイル抑止。」 comment.
fn rule_block_keyword(chars: &Vec<char>, lx: &mut Lexer, open: &Vec<char>, close: &Vec<char>)
    requires
        lexer_ok(chars@, old(lx)@),
        old(lx)@.i < chars@.len(),
        lex_rule(chars@, old(lx)@) == 1,
        open@ == block_open(),
        close@ == block_close(),
    ensures
        lex_step(chars@, old(lx)@) == Ok::<LexState, SpecLexError>(final(lx)@),
        lexer_ok(chars@, final(lx)@),
        old(lx)@.i < final(lx)@.i,
{
    let ghost st = lx@;
    let n = chars.len();
    let i = lx.i;
    flush_word(lx);
    let from = i + open.len();
    let to = match find_from_exec(chars, from, close) {
        Some(e) => {
            proof {
                lemma_find_from_bounds(chars@, from as int, close@);
            }
            e + close.len()
        },
        None => n,
    };
    let nl = count_newlines(chars, i, to);
    lx.line = lx.line + nl;
    lx.i = to;
    lx.buf_line = lx.line;
}

/// Rules 2 and 4: comments to the end of the line.
fn rule_line_comment(chars: &Vec<char>, lx: &mut Lexer, skip: usize)
    requires
        lexer_ok(chars@, old(lx)@),
        old(lx)@.i < chars@.len(),
        (lex_rule(chars@, old(lx)@) == 2 && skip == 0) || (lex_rule(chars@, old(lx)@) == 4
            && skip == 2),
    ensures
        lex_step(chars@, old(lx)@) == Ok::<LexState, SpecLexError>(final(lx)@),
        lexer_ok(chars@, final(lx)@),
        old(lx)@.i < final(lx)@.i,
{
    let i = lx.i;
    flush_word(lx);
    let to = scan_to_exec(chars, i + skip, '\n', '\n');
    proof {
        if skip == 0 {
            assert(scan_to(chars@, i as int, '\n', '\n') == scan_to(chars@, i + 1, '\n', '\n'));
            lemma_scan_to_bounds(chars@, i + 1, '\n', '\n');
        }
    }
    lx.i = to;
    lx.buf_line = lx.line;
}

/// Rule 3: nestable block comments.
fn rule_nested_comment(chars: &Vec<char>, lx: &mut Lexer) -> (r: Result<(), LexError>)
    requires
        lexer_ok(chars@, old(lx)@),
        old(lx)@.i < chars@.len(),
        lex_rule(chars@, old(lx)@) == 3,
    ensures
        match r {
            Ok(()) => lex_step(chars@, old(lx)@) == Ok::<LexState, SpecLexError>(final(lx)@)
                && lexer_ok(chars@, final(lx)@) && old(lx)@.i < final(lx)@.i,
            Err(e) => lex_step(chars@, old(lx)@) == Err::<LexState, SpecLexError>(e@),
        },
{
    let i = lx.i;
    flush_word(lx);
    let (j, depth, l2) = scan_block_exec(chars, i + 2, lx.line);
    if depth > 0 {
        let (el, ec) = line_col_exec(chars, i);
        let e = LexError {
            message: crate::text::string_from_str("ブロックコメントが閉じられていません"),
            line: el,
            column: ec,
        };
        return Err(e);
    }
    lx.i = j;
    lx.line = l2;
    lx.buf_line = l2;
    Ok(())
}

/// Rules 5, 7, 11: single tokens (「。」, closing subscript bracket,
/// character literals).
fn rule_single_token(chars: &Vec<char>, lx: &mut Lexer)
    requires
        lexer_ok(chars@, old(lx)@),
        old(lx)@.i < chars@.len(),
        lex_rule(chars@, old(lx)@) == 5 || lex_rule(chars@, old(lx)@) == 7 || lex_rule(
            chars@,
            old(lx)@,
        ) == 11,
    ensures
        lex_step(chars@, old(lx)@) == Ok::<LexState, SpecLexError>(final(lx)@),
        lexer_ok(chars@, final(lx)@),
        old(lx)@.i < final(lx)@.i,
{
    let ghost r = lex_rule(chars@, lx@);
    let i = lx.i;
    let c = chars[i];
    let line = lx.line;
    flush_word(lx);
    if c == '。' {
        let t = Token { kind: TokenKind::Word(one_char_string('。')), raw: one_char_string('。'), line };
        push_token(&mut lx.tokens, t);
        lx.i = i + 1;
    } else if c == '）' || c == ')' {
        lx.parens.pop();
        let t = Token { kind: TokenKind::CloseParen, raw: one_char_string(c), line };
        push_token(&mut lx.tokens, t);
        lx.i = i + 1;
    } else {
        let rawv = chars_range(chars, i, i + 3);
        let t = Token {
            kind: TokenKind::CharLiteral(chars[i + 1]),
            raw: string_from_chars(rawv.as_slice()),
            line,
        };
        push_token(&mut lx.tokens, t);
        lx.i = i + 3;
    }
    lx.buf_line = line;
}

/// Rule 6: round brackets (subscript access or comment).
fn rule_open_bracket(chars: &Vec<char>, lx: &mut Lexer)
    requires
        lexer_ok(chars@, old(lx)@),
        old(lx)@.i < chars@.len(),
        lex_rule(chars@, old(lx)@) == 6,
    ensures
        lex_step(chars@, old(lx)@) == Ok::<LexState, SpecLexError>(final(lx)@),
        lexer_ok(chars@, final(lx)@),
        old(lx)@.i < final(lx)@.i,
{
    let n = chars.len();
    let i = lx.i;
    let c = chars[i];
    let line = lx.line;
    let close = if c == '（' { '）' } else { ')' };
    let adjacent = i > 0 && !super::is_delimiter_exec(chars[i - 1]);
    flush_word(lx);
    if adjacent {
        lx.parens.push(close);
        let t = Token { kind: TokenKind::OpenParen, raw: one_char_string(c), line };
        push_token(&mut lx.tokens, t);
        lx.i = i + 1;
        lx.buf_line = line;
        return;
    }
    let e = scan_to_exec(chars, i + 1, close, close);
    let nl = count_newlines(chars, i + 1, e);
    lx.line = line + nl;
    lx.i = if e < n { e + 1 } else { e };
    lx.buf_line = lx.line;
}

/// Rules 8, 9 and 10: quoted words and string literals.
fn rule_quoted(chars: &Vec<char>, lx: &mut Lexer)
    requires
        lexer_ok(chars@, old(lx)@),
        old(lx)@.i < chars@.len(),
        8 <= lex_rule(chars@, old(lx)@) <= 10,
    ensures
        lex_step(chars@, old(lx)@) == Ok::<LexState, SpecLexError>(final(lx)@),
        lexer_ok(chars@, final(lx)@),
        old(lx)@.i < final(lx)@.i,
{
    let ghost r = lex_rule(chars@, lx@);
    let n = chars.len();
    let i = lx.i;
    let c = chars[i];
    let line = lx.line;
    flush_word(lx);
    let is_word = c == '『' || c == '“';
    let close = if c == '『' {
        '』'
    } else if c == '“' {
        '”'
    } else if c == '「' {
        '」'
    } else {
        c
    };
    let other = if c == '“' { '“' } else { close };
    let e = scan_to_exec(chars, i + 1, close, other);
    let content = chars_range(chars, i + 1, e);
    let t = if is_word {
        let raw = if e < n {
            wrapped_string(c, &content, Some(chars[e]))
        } else {
            wrapped_string(c, &content, None)
        };
        let w = super::normalize_word_chars(&content);
        Token { kind: TokenKind::Word(string_from_chars(w.as_slice())), raw, line }
    } else {
        let raw = wrapped_string(c, &content, Some(close));
        Token { kind: TokenKind::StringLiteral(string_from_chars(content.as_slice())), raw, line }
    };
    push_token(&mut lx.tokens, t);
    let nl = count_newlines(chars, i + 1, e);
    lx.line = line + nl;
    lx.i = if e < n { e + 1 } else { e };
    lx.buf_line = lx.line;
}

/// Rules 12 and 13: delimiters and ordinary characters.
fn rule_plain(chars: &Vec<char>, lx: &mut Lexer)
    requires
        lexer_ok(chars@, old(lx)@),
        old(lx)@.i < chars@.len(),
        lex_rule(chars@, old(lx)@) >= 12,
    ensures
        lex_step(chars@, old(lx)@) == Ok::<LexState, SpecLexError>(final(lx)@),
        lexer_ok(chars@, final(lx)@),
        old(lx)@.i < final(lx)@.i,
{
    let i = lx.i;
    let c = chars[i];
    if super::is_delimiter_exec(c) {
        flush_word(lx);
        if c == '\n' {
            lx.line = lx.line + 1;
        }
        lx.i = i + 1;
        lx.buf_line = lx.line;
        return;
    }
    if lx.buf.len() == 0 {
        lx.buf_line = lx.line;
    }
    lx.buf.push(c);
    lx.i = i + 1;
}

/// The initial lexer state.
pub open spec fn lex_start() -> LexState {
    LexState { i: 0, line: 1, tokens: seq![], buf: seq![], buf_line: 1, parens: seq![] }
}

/// Lexes `chars` (see [`lex_step`]).  The only error is a block comment
/// that is never closed.
pub fn tokenize_chars(chars: &Vec<char>) -> (r: Result<Vec<Token>, LexError>)
    requires
        chars@.len() < usize::MAX,
    ensures
        match r {
            Ok(v) => spec_tokenize(chars@) == Ok::<Seq<SpecToken>, SpecLexError>(toks_view(v@)),
            Err(e) => spec_tokenize(chars@) == Err::<Seq<SpecToken>, SpecLexError>(e@),
        },
{
    let n = chars.len();
    let open = str_chars("コンパイル抑止。");
    let close = str_chars("コンパイル抑止終り。");
    let mut lx = Lexer {
        i: 0,
        line: 1,
        tokens: Vec::new(),
        buf: Vec::new(),
        buf_line: 1,
        parens: Vec::new(),
    };
    proof {
        assert(toks_view(lx.tokens@) =~= Seq::<SpecToken>::empty());
        assert(lx.buf@ =~= Seq::<char>::empty());
        assert(lx.parens@ =~= Seq::<char>::empty());
        assert(lx@ == lex_start());
    }
    while lx.i < n
        invariant
            n == chars@.len(),
            lexer_ok(chars@, lx@),
            open@ == block_open(),
            close@ == block_close(),
            lex_from(chars@, lx@) == spec_tokenize(chars@),
        decreases n - lx.i,
    {
        let ghost st = lx@;
        let i = lx.i;
        let c = chars[i];
        if matches_at_exec(chars, i, &open) {
            rule_block_keyword(chars, &mut lx, &open, &close);
        } else if c == '※' {
            rule_line_comment(chars, &mut lx, 0);
        } else if is_slash_exec(c) && i + 1 < n && is_star_exec(chars[i + 1]) {
            match rule_nested_comment(chars, &mut lx) {
                Ok(()) => {},
                Err(e) => {
                    return Err(e);
                },
            }
        } else if is_slash_exec(c) && i + 1 < n && is_slash_exec(chars[i + 1]) {
            rule_line_comment(chars, &mut lx, 2);
        } else if c == '。' {
            rule_single_token(chars, &mut lx);
        } else if c == '（' || c == '(' {
            rule_open_bracket(chars, &mut lx);
        } else if (c == '）' || c == ')') && lx.parens.len() > 0 && lx.parens[lx.parens.len() - 1]
            == c {
            rule_single_token(chars, &mut lx);
        } else if c == '『' || c == '“' || c == '「' || c == '"' || c == '＂' {
            rule_quoted(chars, &mut lx);
        } else if (c == '\'' || c == '＇') && i + 2 < n && chars[i + 2] == c && chars[i + 1]
            != '\n' {
            rule_single_token(chars, &mut lx);
        } else {
            rule_plain(chars, &mut lx);
        }
        proof {
            assert(lex_from(chars@, st) == lex_from(chars@, lx@));
        }
    }
    let ghost st = lx@;
    flush_word(&mut lx);
    Ok(lx.tokens)
}

} // verus!
