//! The Umor parser: builds the syntax tree from tokens (see [`grammar`] for
//! the grammar it follows).
pub mod ast;
pub mod error;
pub mod grammar;
pub mod laws;
pub mod composition;
pub mod number;
pub mod scope;

pub use ast::{Definition, Expr, Program, TopLevelItem, SpecExpr, SpecDef, SpecItem};
pub use error::{ParseError, SpecParseError};
pub use scope::{check_scopes, ScopeError};
pub use number::parse_number_literal;

use vstd::prelude::*;
use crate::tokenizer::{SpecToken, Token, TokenKind, toks_view};
use crate::text::{str_eq, string_from_str, push_str};
use ast::{ev, evs, dv, dvs, lemma_evs_push, lemma_evs_drop_last, lemma_evs_empty, lemma_dvs_push};
use grammar::{SeqEnd, DefAcc, def_of};

verus! {

/// The token models of `tokens`.
pub open spec fn tv(tokens: &[Token]) -> Seq<SpecToken> {
    toks_view(tokens@)
}

/// A token slice fits in memory: at most `isize::MAX` elements.
pub open spec fn fits(tokens: &[Token]) -> bool {
    tokens@.len() <= isize::MAX
}

fn word_at<'a>(tokens: &'a [Token], pos: usize) -> (r: Option<&'a String>)
    ensures
        r matches Some(w) ==> grammar::word_at(tv(tokens), pos as int) == Some(w@),
        r is None ==> grammar::word_at(tv(tokens), pos as int) is None,
{
    if pos < tokens.len() {
        match &tokens[pos].kind {
            TokenKind::Word(w) => Some(w),
            _ => None,
        }
    } else {
        None
    }
}

fn is_word(tokens: &[Token], pos: usize, s: &str) -> (r: bool)
    ensures
        r == grammar::is_word(tv(tokens), pos as int, s@),
{
    match word_at(tokens, pos) {
        Some(w) => str_eq(w.as_str(), s),
        None => false,
    }
}

fn is_defining_keyword(tokens: &[Token], pos: usize) -> (r: bool)
    ensures
        r == grammar::is_defining_keyword(tv(tokens), pos as int),
{
    is_word(tokens, pos, "とは") || is_word(tokens, pos, "は")
}

fn peek_word_then_keyword<'a>(tokens: &'a [Token], pos: usize) -> (r: Option<&'a String>)
    requires
        pos < usize::MAX,
    ensures
        r matches Some(w) ==> grammar::peek_word_then_keyword(tv(tokens), pos as int) == Some(w@),
        r is None ==> grammar::peek_word_then_keyword(tv(tokens), pos as int) is None,
{
    let w = word_at(tokens, pos);
    match w {
        Some(w) => if is_defining_keyword(tokens, pos + 1) {
            Some(w)
        } else {
            None
        },
        None => None,
    }
}

fn is_open_paren(tokens: &[Token], pos: usize) -> (r: bool)
    ensures
        r == grammar::is_open_paren(tv(tokens), pos as int),
{
    pos < tokens.len() && matches!(tokens[pos].kind, TokenKind::OpenParen)
}

fn is_close_paren(tokens: &[Token], pos: usize) -> (r: bool)
    ensures
        r == grammar::is_close_paren(tv(tokens), pos as int),
{
    pos < tokens.len() && matches!(tokens[pos].kind, TokenKind::CloseParen)
}

/// The error `「{s}」が必要です` at `pos`.
fn expect_error(tokens: &[Token], pos: usize, s: &str) -> (r: ParseError)
    ensures
        r@ == error::perr(tv(tokens), grammar::expect_message(s@), pos as int),
{
    let mut m = string_from_str("「");
    push_str(&mut m, s);
    push_str(&mut m, "」が必要です");
    ParseError::new(m, tokens, pos)
}

/// Consumes the word `s` at `pos`, or fails with `「{s}」が必要です`.
fn expect_word(tokens: &[Token], pos: &mut usize, s: &str) -> (r: Result<(), ParseError>)
    requires
        *old(pos) < usize::MAX,
    ensures
        match r {
            Ok(()) => grammar::is_word(tv(tokens), *old(pos) as int, s@) && *final(pos) == *old(pos) + 1,
            Err(e) => !grammar::is_word(tv(tokens), *old(pos) as int, s@) && e@ == error::perr(
                tv(tokens),
                grammar::expect_message(s@),
                *old(pos) as int,
            ) && *final(pos) == *old(pos),
        },
{
    if is_word(tokens, *pos, s) {
        *pos = *pos + 1;
        Ok(())
    } else {
        Err(expect_error(tokens, *pos, s))
    }
}

/// `Xは 変数` at `pos`: consumes it and returns X.
fn try_variable_decl(tokens: &[Token], pos: &mut usize) -> (r: Option<String>)
    requires
        *old(pos) <= tokens@.len(),
        fits(tokens),
    ensures
        r matches Some(v) ==> grammar::variable_decl_at(tv(tokens), *old(pos) as int) == Some(v@)
            && *final(pos) == *old(pos) + 3,
        r is None ==> grammar::variable_decl_at(tv(tokens), *old(pos) as int) is None && *final(pos)
            == *old(pos),
{
    let name = word_at(tokens, *pos);
    match name {
        Some(name) => if is_word(tokens, *pos + 1, "は") && is_word(tokens, *pos + 2, "変数") {
            let name = name.clone();
            *pos = *pos + 3;
            Some(name)
        } else {
            None
        },
        None => None,
    }
}

/// `Xは 可変値` / `Xは 定数値` at `pos`: X and whether it is a constant.
fn try_value_decl_header(tokens: &[Token], pos: usize) -> (r: Option<(String, bool)>)
    requires
        pos <= tokens@.len(),
        fits(tokens),
    ensures
        r matches Some((n, c)) ==> grammar::value_decl_header_at(tv(tokens), pos as int) == Some((n@, c)),
        r is None ==> grammar::value_decl_header_at(tv(tokens), pos as int) is None,
{
    let name = word_at(tokens, pos);
    match name {
        Some(name) => {
            if !is_word(tokens, pos + 1, "は") {
                None
            } else if is_word(tokens, pos + 2, "可変値") {
                Some((name.clone(), false))
            } else if is_word(tokens, pos + 2, "定数値") {
                Some((name.clone(), true))
            } else {
                None
            }
        },
        None => None,
    }
}

/// `〈新語〉も 〈既存語〉の 別名` at `pos`: consumes it and returns both names.
fn try_alias_decl(tokens: &[Token], pos: &mut usize) -> (r: Option<(String, String)>)
    requires
        *old(pos) <= tokens@.len(),
        fits(tokens),
    ensures
        r matches Some((a, b)) ==> grammar::alias_decl_at(tv(tokens), *old(pos) as int) == Some((a@, b@))
            && *final(pos) == *old(pos) + 5,
        r is None ==> grammar::alias_decl_at(tv(tokens), *old(pos) as int) is None && *final(pos)
            == *old(pos),
{
    let p = *pos;
    let new_name = word_at(tokens, p);
    match new_name {
        Some(new_name) => if is_word(tokens, p + 1, "も") {
            let existing = word_at(tokens, p + 2);
            match existing {
                Some(existing) => if is_word(tokens, p + 3, "の") && is_word(tokens, p + 4, "別名") {
                    let a = new_name.clone();
                    let b = existing.clone();
                    *pos = p + 5;
                    Some((a, b))
                } else {
                    None
                },
                None => None,
            }
        } else {
            None
        },
        None => None,
    }
}

/// `代入` at `pos` right after a word call: removes that word call from
/// `exprs`, consumes 「代入」 and returns the assignment.
fn try_assign(tokens: &[Token], pos: &mut usize, exprs: &mut Vec<Expr>) -> (r: Option<Expr>)
    requires
        *old(pos) <= tokens@.len(),
        fits(tokens),
    ensures
        r matches Some(e) ==> grammar::assign_at(tv(tokens), *old(pos) as int, evs(old(exprs)@)) matches Some(name)
            && e@ == (SpecExpr::Assign { name, value_expr: seq![] })
            && evs(final(exprs)@) == evs(old(exprs)@).drop_last() && *final(pos) == *old(pos) + 1,
        r is None ==> grammar::assign_at(tv(tokens), *old(pos) as int, evs(old(exprs)@)) is None
            && final(exprs)@ == old(exprs)@ && *final(pos) == *old(pos),
{
    if !is_word(tokens, *pos, "代入") {
        return None;
    }
    let n = exprs.len();
    if n == 0 {
        return None;
    }
    proof {
        lemma_evs_drop_last(exprs@);
    }
    let is_call = match &exprs[n - 1] {
        Expr::WordCall(_) => true,
        _ => false,
    };
    if !is_call {
        return None;
    }
    let last = exprs.pop().unwrap();
    match last {
        Expr::WordCall(name) => {
            *pos = *pos + 1;
            let v: Vec<Expr> = Vec::new();
            proof {
                lemma_evs_empty();
                assert(v@ =~= Seq::<Expr>::empty());
            }
            Some(Expr::Assign { name, value_expr: v })
        },
        _ => None,
    }
}

/// One atomic expression at `pos` (see [`grammar::single_atom`]).
fn parse_single_atom(tokens: &[Token], pos: &mut usize, in_definition: bool) -> (r: Result<Expr, ParseError>)
    requires
        *old(pos) <= tokens@.len(),
        fits(tokens),
    ensures
        match r {
            Ok(e) => grammar::single_atom(tv(tokens), *old(pos) as int, in_definition) == Ok::<SpecExpr, SpecParseError>(e@)
                && *final(pos) == *old(pos) + 1,
            Err(x) => grammar::single_atom(tv(tokens), *old(pos) as int, in_definition) == Err::<SpecExpr, SpecParseError>(x@)
                && *final(pos) == *old(pos),
        },
{
    let p = *pos;
    if p >= tokens.len() {
        return Err(ParseError::new(string_from_str("式が必要ですが入力が終了しました"), tokens, p));
    }
    let e = match &tokens[p].kind {
        TokenKind::Word(w) => {
            if str_eq(w.as_str(), "。") {
                return Err(ParseError::new(
                    string_from_str("「。」はここでは使用できません（区切り記号としての「。」を式の中で使うことはできません）"),
                    tokens,
                    p,
                ));
            } else if str_eq(w.as_str(), "再帰") {
                if !in_definition {
                    return Err(ParseError::new(
                        string_from_str("「再帰」は処理単語の定義内でのみ使用できます"),
                        tokens,
                        p,
                    ));
                }
                Expr::SelfRecurse
            } else if str_eq(w.as_str(), "打切") {
                Expr::Break
            } else if str_eq(w.as_str(), "繰返") {
                return Err(ParseError::new(
                    string_from_str("「繰返」に対応するループの開始（「ここから」または「回数指定」）がありません"),
                    tokens,
                    p,
                ));
            } else {
                Expr::WordCall(w.clone())
            }
        },
        TokenKind::NumberLiteral(s) => Expr::NumberLiteral(parse_number_literal(s, tokens, p)?),
        TokenKind::StringLiteral(s) => Expr::StringLiteral(s.clone()),
        TokenKind::CharLiteral(c) => {
            let mut s = String::new();
            crate::text::push_char(&mut s, '\'');
            crate::text::push_char(&mut s, *c);
            crate::text::push_char(&mut s, '\'');
            proof {
                assert(s@ =~= seq!['\'', *c, '\'']);
            }
            Expr::WordCall(s)
        },
        _ => {
            return Err(ParseError::new(
                string_from_str("ここでは「（」「）」は使用できません（直前に添字アクセスの対象となる式がありません）"),
                tokens,
                p,
            ));
        },
    };
    *pos = p + 1;
    Ok(e)
}

/// The result of parsing an expression sequence from `op` to `fp` as `v`
/// agrees with the grammar.
pub open spec fn seq_result(
    tokens: &[Token],
    op: int,
    fp: int,
    r: Result<Vec<Expr>, ParseError>,
    end: SeqEnd,
    in_def: bool,
) -> bool {
    match r {
        Ok(v) => grammar::seq_from(tv(tokens), op, seq![], end, in_def) == Ok::<(Seq<SpecExpr>, int), SpecParseError>((evs(v@), fp))
            && op <= fp <= tokens@.len() && (end != SeqEnd::Branch ==> op < fp),
        Err(e) => grammar::seq_from(tv(tokens), op, seq![], end, in_def) == Err::<(Seq<SpecExpr>, int), SpecParseError>(e@),
    }
}

/// An atom with its subscript brackets at `pos`, appended to `out` (see
/// [`grammar::atom`]).  `a（i）` is desugared to `a`, 「の」, `i`, 「番目」.
pub fn parse_atom_with_subscripts(
    tokens: &[Token],
    pos: &mut usize,
    out: &mut Vec<Expr>,
    in_definition: bool,
) -> (r: Result<(), ParseError>)
    requires
        *old(pos) <= tokens@.len(),
        fits(tokens),
    ensures
        match r {
            Ok(()) => grammar::atom(tv(tokens), *old(pos) as int, evs(old(out)@), in_definition) == Ok::<(Seq<SpecExpr>, int), SpecParseError>((evs(final(out)@), *final(pos) as int))
                && *old(pos) < *final(pos) <= tokens@.len(),
            Err(e) => grammar::atom(tv(tokens), *old(pos) as int, evs(old(out)@), in_definition) == Err::<(Seq<SpecExpr>, int), SpecParseError>(e@),
        },
    decreases tokens@.len() - *old(pos),
{
    let ghost t = tv(tokens);
    let ghost p0 = *pos as int;
    let ghost out0 = evs(out@);
    let a = parse_single_atom(tokens, pos, in_definition)?;
    proof {
        lemma_evs_push(out@, a);
    }
    out.push(a);
    while is_open_paren(tokens, *pos)
        invariant
            p0 == *old(pos),
            out0 == evs(old(out)@),
            p0 < *pos <= tokens@.len(),
            fits(tokens),
            t == tv(tokens),
            grammar::atom(t, p0, out0, in_definition) == grammar::atom_subscripts(t, *pos as int, evs(out@), in_definition),
        decreases tokens@.len() - *pos,
    {
        *pos = *pos + 1;
        let no = Expr::WordCall(string_from_str("の"));
        proof {
            lemma_evs_push(out@, no);
        }
        out.push(no);
        let ghost q = *pos;
        while !is_close_paren(tokens, *pos)
            invariant
                p0 == *old(pos),
                out0 == evs(old(out)@),
                q <= *pos,
                p0 < *pos <= tokens@.len(),
                fits(tokens),
                t == tv(tokens),
                grammar::atom(t, p0, out0, in_definition) == grammar::atom_in_brackets(t, *pos as int, evs(out@), in_definition),
            decreases tokens@.len() - *pos,
        {
            if *pos >= tokens.len() {
                return Err(ParseError::new(
                    string_from_str("添字アクセスが「）」で閉じられないまま入力が終了しました"),
                    tokens,
                    *pos,
                ));
            }
            parse_atom_with_subscripts(tokens, pos, out, in_definition)?;
        }
        *pos = *pos + 1;
        let nth = Expr::WordCall(string_from_str("番目"));
        proof {
            lemma_evs_push(out@, nth);
        }
        out.push(nth);
    }
    Ok(())
}

/// The words that end an expression sequence at `pos`, and how many tokens
/// they take.
fn seq_end_exec(tokens: &[Token], pos: usize, end: SeqEnd) -> (r: Option<usize>)
    ensures
        r matches Some(k) ==> grammar::seq_end_at(tv(tokens), pos as int, end) == Some(k as int),
        r is None ==> grammar::seq_end_at(tv(tokens), pos as int, end) is None,
{
    match end {
        SeqEnd::TopLevel => if is_word(tokens, pos, "。") {
            Some(1)
        } else {
            None
        },
        SeqEnd::InitValue => if is_word(tokens, pos, "初期値") {
            Some(1)
        } else {
            None
        },
        SeqEnd::Branch => if is_word(tokens, pos, "そうでなければ") || is_word(tokens, pos, "つぎに") {
            Some(0)
        } else {
            None
        },
        SeqEnd::Loop => if is_word(tokens, pos, "繰返") {
            Some(1)
        } else {
            None
        },
    }
}

fn seq_eof_message(end: SeqEnd) -> (r: String)
    ensures
        r@ == grammar::seq_eof_message(end),
{
    match end {
        SeqEnd::TopLevel => string_from_str("トップレベルの式の列が「。」で閉じられないまま入力が終了しました"),
        SeqEnd::InitValue => string_from_str("可変値/定数値の宣言が「初期値」で閉じられないまま入力が終了しました"),
        SeqEnd::Branch => string_from_str("条件分岐が「つぎに」で閉じられないまま入力が終了しました"),
        SeqEnd::Loop => string_from_str("ループが「繰り返し」「繰り返す」で閉じられないまま入力が終了しました"),
    }
}

/// An expression sequence from `pos` up to its end (see [`grammar::seq_from`]).
fn parse_sequence(tokens: &[Token], pos: &mut usize, end: SeqEnd, in_definition: bool) -> (r: Result<Vec<Expr>, ParseError>)
    requires
        *old(pos) <= tokens@.len(),
        fits(tokens),
    ensures
        seq_result(tokens, *old(pos) as int, *final(pos) as int, r, end, in_definition),
    decreases tokens@.len() - *old(pos), 3int,
{
    let ghost t = tv(tokens);
    let ghost p0 = *pos as int;
    let mut exprs: Vec<Expr> = Vec::new();
    proof {
        lemma_evs_empty();
        assert(exprs@ =~= Seq::<Expr>::empty());
    }
    loop
        invariant
            p0 == *old(pos),
            p0 <= *pos <= tokens@.len(),
            fits(tokens),
            t == tv(tokens),
            grammar::seq_from(t, p0, seq![], end, in_definition) == grammar::seq_from(t, *pos as int, evs(exprs@), end, in_definition),
        decreases tokens@.len() - *pos,
    {
        match seq_end_exec(tokens, *pos, end) {
            Some(k) => {
                *pos = *pos + k;
                return Ok(exprs);
            },
            None => {},
        }
        if *pos >= tokens.len() {
            return Err(ParseError::new(seq_eof_message(end), tokens, *pos));
        }
        if matches!(end, SeqEnd::TopLevel) && is_word(tokens, *pos, "こと") && is_word(tokens, *pos + 1, "。") {
            return Err(ParseError::new(
                string_from_str("「こと。」に対応するワード定義がありません"),
                tokens,
                *pos,
            ));
        }
        match try_value_decl(tokens, pos, in_definition)? {
            Some(e) => {
                proof {
                    lemma_evs_push(exprs@, e);
                }
                exprs.push(e);
                continue;
            },
            None => {},
        }
        match try_assign(tokens, pos, &mut exprs) {
            Some(e) => {
                proof {
                    lemma_evs_push(exprs@, e);
                }
                exprs.push(e);
                continue;
            },
            None => {},
        }
        parse_element(tokens, pos, &mut exprs, in_definition)?;
    }
}

/// `Xは 可変値で 〈式〉が 初期値` / `Xは 定数値で 〈式〉が 初期値` at `pos`.
fn try_value_decl(tokens: &[Token], pos: &mut usize, in_definition: bool) -> (r: Result<Option<Expr>, ParseError>)
    requires
        *old(pos) <= tokens@.len(),
        fits(tokens),
    ensures
        match r {
            Ok(None) => grammar::value_decl_header_at(tv(tokens), *old(pos) as int) is None && *final(pos) == *old(pos),
            Ok(Some(e)) => grammar::value_decl_header_at(tv(tokens), *old(pos) as int) matches Some((name, c))
                && grammar::seq_from(tv(tokens), *old(pos) + 3, seq![], SeqEnd::InitValue, in_definition) matches Ok((init, p2))
                && p2 == *final(pos) && e@ == (SpecExpr::ValueDecl { name, is_constant: c, init_expr: init })
                && *old(pos) < *final(pos) <= tokens@.len(),
            Err(x) => grammar::value_decl_header_at(tv(tokens), *old(pos) as int) is Some
                && grammar::seq_from(tv(tokens), *old(pos) + 3, seq![], SeqEnd::InitValue, in_definition) == Err::<(Seq<SpecExpr>, int), SpecParseError>(x@),
        },
    decreases tokens@.len() - *old(pos), 1int,
{
    match try_value_decl_header(tokens, *pos) {
        None => Ok(None),
        Some((name, is_constant)) => {
            *pos = *pos + 3;
            let init_expr = parse_value_init_expr(tokens, pos, in_definition)?;
            Ok(Some(Expr::ValueDecl { name, is_constant, init_expr }))
        },
    }
}

/// The initial expression of a value declaration, up to 「初期値」.
fn parse_value_init_expr(tokens: &[Token], pos: &mut usize, in_definition: bool) -> (r: Result<Vec<Expr>, ParseError>)
    requires
        *old(pos) <= tokens@.len(),
        fits(tokens),
    ensures
        seq_result(tokens, *old(pos) as int, *final(pos) as int, r, SeqEnd::InitValue, in_definition),
    decreases tokens@.len() - *old(pos), 4int,
{
    parse_sequence(tokens, pos, SeqEnd::InitValue, in_definition)
}

/// A branch of a conditional, up to (not including) 「そうでなければ」 or 「つぎに」.
fn parse_branch(tokens: &[Token], pos: &mut usize, in_definition: bool) -> (r: Result<Vec<Expr>, ParseError>)
    requires
        *old(pos) <= tokens@.len(),
        fits(tokens),
    ensures
        seq_result(tokens, *old(pos) as int, *final(pos) as int, r, SeqEnd::Branch, in_definition),
    decreases tokens@.len() - *old(pos), 4int,
{
    parse_sequence(tokens, pos, SeqEnd::Branch, in_definition)
}

/// A loop body, up to 「繰返」.
fn parse_loop_body(tokens: &[Token], pos: &mut usize, in_definition: bool) -> (r: Result<Vec<Expr>, ParseError>)
    requires
        *old(pos) <= tokens@.len(),
        fits(tokens),
    ensures
        seq_result(tokens, *old(pos) as int, *final(pos) as int, r, SeqEnd::Loop, in_definition),
    decreases tokens@.len() - *old(pos), 4int,
{
    parse_sequence(tokens, pos, SeqEnd::Loop, in_definition)
}

/// A top-level expression sequence, up to 「。」.
fn parse_top_level_expr_sequence(tokens: &[Token], pos: &mut usize) -> (r: Result<Vec<Expr>, ParseError>)
    requires
        *old(pos) <= tokens@.len(),
        fits(tokens),
    ensures
        seq_result(tokens, *old(pos) as int, *final(pos) as int, r, SeqEnd::TopLevel, false),
{
    parse_sequence(tokens, pos, SeqEnd::TopLevel, false)
}

/// One body element at `pos`: a loop, a conditional (everything before it
/// in `exprs` becomes its condition) or an atom (see [`grammar::seq_step`]).
fn parse_element(tokens: &[Token], pos: &mut usize, exprs: &mut Vec<Expr>, in_definition: bool) -> (r: Result<(), ParseError>)
    requires
        *old(pos) <= tokens@.len(),
        fits(tokens),
    ensures
        match r {
            Ok(()) => grammar::seq_step(tv(tokens), *old(pos) as int, evs(old(exprs)@), in_definition) == Ok::<(Seq<SpecExpr>, int), SpecParseError>((evs(final(exprs)@), *final(pos) as int))
                && *old(pos) < *final(pos) <= tokens@.len(),
            Err(e) => grammar::seq_step(tv(tokens), *old(pos) as int, evs(old(exprs)@), in_definition) == Err::<(Seq<SpecExpr>, int), SpecParseError>(e@),
        },
    decreases tokens@.len() - *old(pos), 2int,
{
    let infinite = is_word(tokens, *pos, "ここから");
    if infinite || is_word(tokens, *pos, "回数指定") {
        *pos = *pos + 1;
        let body = parse_loop_body(tokens, pos, in_definition)?;
        let e = if infinite {
            Expr::InfiniteLoop { body }
        } else {
            Expr::CountedLoop { body }
        };
        proof {
            lemma_evs_push(exprs@, e);
        }
        exprs.push(e);
        return Ok(());
    }
    if is_word(tokens, *pos, "ならば") {
        *pos = *pos + 1;
        let mut cond: Vec<Expr> = Vec::new();
        std::mem::swap(&mut cond, exprs);
        let then_branch = parse_branch(tokens, pos, in_definition)?;
        let else_branch = if is_word(tokens, *pos, "そうでなければ") {
            *pos = *pos + 1;
            Some(parse_branch(tokens, pos, in_definition)?)
        } else {
            None
        };
        expect_word(tokens, pos, "つぎに")?;
        let e = Expr::IfElse { cond, then_branch, else_branch };
        proof {
            lemma_evs_push(exprs@, e);
            assert(exprs@ =~= Seq::<Expr>::empty());
            lemma_evs_empty();
        }
        exprs.push(e);
        proof {
            assert(evs(exprs@) =~= seq![ev(e)]);
        }
        return Ok(());
    }
    parse_atom_with_subscripts(tokens, pos, exprs, in_definition)
}

/// The model of a definition being read.
pub open spec fn acc_view(
    name: String,
    locals: Seq<Definition>,
    variables: Seq<String>,
    body: Seq<Expr>,
    started: bool,
) -> DefAcc {
    DefAcc {
        name: name@,
        locals: dvs(locals),
        variables: variables.map_values(|s: String| s@),
        body: evs(body),
        started,
    }
}

/// Consumes a word at `pos` and returns it.
fn expect_any_word(tokens: &[Token], pos: &mut usize) -> (r: Result<String, ParseError>)
    requires
        *old(pos) <= tokens@.len(),
        fits(tokens),
    ensures
        match r {
            Ok(w) => grammar::word_at(tv(tokens), *old(pos) as int) == Some(w@) && *final(pos) == *old(pos) + 1,
            Err(e) => grammar::word_at(tv(tokens), *old(pos) as int) is None && e@ == error::perr(tv(tokens), "単語が必要です"@, *old(pos) as int),
        },
{
    match word_at(tokens, *pos) {
        Some(w) => {
            let w = w.clone();
            *pos = *pos + 1;
            Ok(w)
        },
        None => Err(ParseError::new(string_from_str("単語が必要です"), tokens, *pos)),
    }
}

/// Consumes 「とは」 or 「は」 at `pos`.
fn expect_defining_keyword(tokens: &[Token], pos: &mut usize) -> (r: Result<(), ParseError>)
    requires
        *old(pos) <= tokens@.len(),
        fits(tokens),
    ensures
        match r {
            Ok(()) => grammar::is_defining_keyword(tv(tokens), *old(pos) as int) && *final(pos) == *old(pos) + 1,
            Err(e) => !grammar::is_defining_keyword(tv(tokens), *old(pos) as int) && e@ == error::perr(tv(tokens), "「とは」または「は」が必要です"@, *old(pos) as int),
        },
{
    if is_defining_keyword(tokens, *pos) {
        *pos = *pos + 1;
        Ok(())
    } else {
        Err(ParseError::new(string_from_str("「とは」または「は」が必要です"), tokens, *pos))
    }
}

proof fn lemma_vars_push(v: Seq<String>, s: String)
    ensures
        v.push(s).map_values(|x: String| x@) == v.map_values(|x: String| x@).push(s@),
{
    assert(v.push(s).map_values(|x: String| x@) =~= v.map_values(|x: String| x@).push(s@));
}

fn unexpected_local_error(tokens: &[Token], pos: usize, word: &String) -> (r: ParseError)
    ensures
        r@ == error::perr(tv(tokens), grammar::unexpected_local_message(word@), pos as int),
{
    let mut m = string_from_str("本体の中で予期しない局所処理単語の開始のようなもの「");
    push_str(&mut m, word.as_str());
    push_str(&mut m, "」に達しました（局所処理単語は本体より前に置いてください）");
    ParseError::new(m, tokens, pos)
}

/// A word definition (`is_local == false`) or a local word (`true`) at
/// `pos` (see [`grammar::definition`]).  A word definition closes at
/// 「こと。」 or 「。」; a local word closes where the next `単語 とは/は`
/// begins, without consuming it.
fn parse_definition(tokens: &[Token], pos: &mut usize, is_local: bool) -> (r: Result<Definition, ParseError>)
    requires
        *old(pos) <= tokens@.len(),
        fits(tokens),
    ensures
        match r {
            Ok(d) => grammar::definition(tv(tokens), *old(pos) as int, is_local) == Ok::<(SpecDef, int), SpecParseError>((dv(d), *final(pos) as int))
                && *old(pos) < *final(pos) <= tokens@.len(),
            Err(e) => grammar::definition(tv(tokens), *old(pos) as int, is_local) == Err::<(SpecDef, int), SpecParseError>(e@),
        },
    decreases tokens@.len() - *old(pos),
{
    let ghost t = tv(tokens);
    let ghost p0 = *pos as int;
    let name_pos = *pos;
    let name = expect_any_word(tokens, pos)?;
    if str_eq(name.as_str(), "再帰") {
        return Err(ParseError::new(
            string_from_str("「再帰」は予約された構文キーワードのため、処理単語名として定義できません"),
            tokens,
            name_pos,
        ));
    }
    expect_defining_keyword(tokens, pos)?;
    let mut locals: Vec<Definition> = Vec::new();
    let mut variables: Vec<String> = Vec::new();
    let mut body: Vec<Expr> = Vec::new();
    let mut body_started = false;
    proof {
        lemma_evs_empty();
        assert(body@ =~= Seq::<Expr>::empty());
        assert(locals@ =~= Seq::<Definition>::empty());
        assert(dvs(locals@) =~= Seq::<SpecDef>::empty());
        assert(variables@.map_values(|x: String| x@) =~= Seq::<Seq<char>>::empty());
    }
    loop
        invariant_except_break
            p0 == *old(pos),
            p0 + 2 <= *pos <= tokens@.len(),
            fits(tokens),
            t == tv(tokens),
            grammar::definition(t, p0, is_local) == grammar::definition_from(
                t,
                *pos as int,
                acc_view(name, locals@, variables@, body@, body_started),
                is_local,
            ),
        ensures
            p0 < *pos <= tokens@.len(),
            grammar::definition(t, p0, is_local) == Ok::<(SpecDef, int), SpecParseError>((
                def_of(acc_view(name, locals@, variables@, body@, body_started)),
                *pos as int,
            )),
        decreases tokens@.len() - *pos,
    {
        if !is_local && body_started {
            if is_word(tokens, *pos, "こと") && is_word(tokens, *pos + 1, "。") {
                *pos = *pos + 2;
                break;
            }
            if is_word(tokens, *pos, "。") {
                *pos = *pos + 1;
                break;
            }
        }
        if *pos >= tokens.len() {
            let msg = if is_local {
                string_from_str("局所処理単語が閉じられないまま入力が終了しました（本体とは、または次の定義が必要です）")
            } else {
                string_from_str("ワード定義が「。」で閉じられないまま入力が終了しました")
            };
            return Err(ParseError::new(msg, tokens, *pos));
        }
        match try_variable_decl(tokens, pos) {
            Some(v) => {
                proof {
                    lemma_vars_push(variables@, v);
                }
                variables.push(v);
                continue;
            },
            None => {},
        }
        match try_value_decl(tokens, pos, true)? {
            Some(e) => {
                proof {
                    lemma_evs_push(body@, e);
                }
                body.push(e);
                continue;
            },
            None => {},
        }
        match try_assign(tokens, pos, &mut body) {
            Some(e) => {
                proof {
                    lemma_evs_push(body@, e);
                }
                body.push(e);
                continue;
            },
            None => {},
        }
        if is_local {
            if peek_word_then_keyword(tokens, *pos).is_some() {
                break;
            }
            if is_word(tokens, *pos, "。") {
                return Err(ParseError::new(
                    string_from_str("局所処理単語は「。」で閉じません（本体とは、または次の局所処理単語の開始で暗黙に閉じます）"),
                    tokens,
                    *pos,
                ));
            }
        }
        if !is_local {
            match peek_word_then_keyword(tokens, *pos) {
                Some(word) => {
                    if !body_started {
                        if str_eq(word.as_str(), "本体") {
                            *pos = *pos + 2;
                            body_started = true;
                            continue;
                        }
                        let local = parse_definition(tokens, pos, true)?;
                        proof {
                            lemma_dvs_push(locals@, local);
                        }
                        locals.push(local);
                        continue;
                    }
                    return Err(unexpected_local_error(tokens, *pos, word));
                },
                None => {},
            }
        }
        if !body_started {
            if locals.len() > 0 {
                return Err(ParseError::new(
                    string_from_str("局所処理単語がある場合は「本体とは」が必要です"),
                    tokens,
                    *pos,
                ));
            }
            body_started = true;
        }
        parse_element(tokens, pos, &mut body, true)?;
    }
    Ok(Definition { name, locals, variables, body })
}

/// One top-level item at `pos` (see [`grammar::top_level_item`]): a
/// variable, value or alias declaration closed by 「。」 (as an expression
/// item), a word definition, or an expression sequence closed by 「。」.
pub fn parse_top_level_item(tokens: &[Token], pos: &mut usize) -> (r: Result<TopLevelItem, ParseError>)
    requires
        fits(tokens),
    ensures
        match r {
            Ok(item) => grammar::top_level_item(tv(tokens), *old(pos) as int) == Ok::<(SpecItem, int), SpecParseError>((item@, *final(pos) as int))
                && *old(pos) < *final(pos) <= tokens@.len(),
            Err(e) => grammar::top_level_item(tv(tokens), *old(pos) as int) == Err::<(SpecItem, int), SpecParseError>(e@),
        },
{
    if *pos > tokens.len() {
        // Past the end: no declaration, definition or closing 「。」 can
        // start here, so the input ends inside a top-level sequence.
        return Err(ParseError::new(seq_eof_message(SeqEnd::TopLevel), tokens, *pos));
    }
    let ghost p0 = *pos as int;
    match try_variable_decl(tokens, pos) {
        Some(varname) => {
            expect_word(tokens, pos, "。")?;
            let e = Expr::VariableDecl(varname);
            let v = vec![e];
            proof {
                assert(evs(v@) =~= seq![ev(e)]);
            }
            return Ok(TopLevelItem::Expr(v));
        },
        None => {},
    }
    match try_value_decl(tokens, pos, false)? {
        Some(e) => {
            expect_word(tokens, pos, "。")?;
            let v = vec![e];
            proof {
                assert(evs(v@) =~= seq![ev(e)]);
            }
            return Ok(TopLevelItem::Expr(v));
        },
        None => {},
    }
    match try_alias_decl(tokens, pos) {
        Some((new_name, existing_name)) => {
            expect_word(tokens, pos, "。")?;
            let e = Expr::AliasDecl { new_name, existing_name };
            let v = vec![e];
            proof {
                assert(evs(v@) =~= seq![ev(e)]);
            }
            return Ok(TopLevelItem::Expr(v));
        },
        None => {},
    }
    if peek_word_then_keyword(tokens, *pos).is_some() {
        let def = parse_definition(tokens, pos, false)?;
        return Ok(TopLevelItem::Definition(def));
    }
    let exprs = parse_top_level_expr_sequence(tokens, pos)?;
    Ok(TopLevelItem::Expr(exprs))
}

/// Parses a program made only of word definitions (see
/// [`grammar::program_from`]).
pub fn parse(tokens: &[Token]) -> (r: Result<Program, ParseError>)
    requires
        fits(tokens),
    ensures
        match r {
            Ok(p) => grammar::program_from(tv(tokens), 0, seq![]) == Ok::<Seq<SpecDef>, SpecParseError>(dvs(p.definitions@)),
            Err(e) => grammar::program_from(tv(tokens), 0, seq![]) == Err::<Seq<SpecDef>, SpecParseError>(e@),
        },
{
    let ghost t = tv(tokens);
    let mut pos: usize = 0;
    let mut definitions: Vec<Definition> = Vec::new();
    proof {
        assert(dvs(definitions@) =~= Seq::<SpecDef>::empty());
    }
    while pos < tokens.len()
        invariant
            pos <= tokens@.len(),
            fits(tokens),
            t == tv(tokens),
            grammar::program_from(t, 0, seq![]) == grammar::program_from(t, pos as int, dvs(definitions@)),
        decreases tokens@.len() - pos,
    {
        let d = parse_definition(tokens, &mut pos, false)?;
        proof {
            lemma_dvs_push(definitions@, d);
        }
        definitions.push(d);
    }
    Ok(Program { definitions })
}

} // verus!
