//! The grammar, as a model parser over token models: each function gives the
//! result (new items and the position after them) or the syntax error of
//! parsing from a position.  The executable parser is proved to compute
//! exactly these results.
use vstd::prelude::*;
use crate::tokenizer::{SpecToken, SpecTokenKind};
use super::ast::{SpecExpr, SpecDef, SpecItem};
use super::error::{SpecParseError, perr};

verus! {

/// The closing keyword of an expression sequence.
#[derive(Clone, Copy, PartialEq, Eq, Debug)]
pub enum SeqEnd {
    /// A top-level sequence, closed (and consumed) by 「。」.
    TopLevel,
    /// The initial expression of a value declaration, closed (and consumed)
    /// by 「初期値」.
    InitValue,
    /// A branch of a conditional, ended (not consumed) by 「そうでなければ」
    /// or 「つぎに」.
    Branch,
    /// A loop body, closed (and consumed) by 「繰返」.
    Loop,
}

pub type SeqResult = Result<(Seq<SpecExpr>, int), SpecParseError>;

pub type DefResult = Result<(SpecDef, int), SpecParseError>;

/// The word at position `p`, if that token is a word.
pub open spec fn word_at(t: Seq<SpecToken>, p: int) -> Option<Seq<char>> {
    if 0 <= p < t.len() {
        match t[p].kind {
            SpecTokenKind::Word(w) => Some(w),
            _ => None,
        }
    } else {
        None
    }
}

pub open spec fn is_word(t: Seq<SpecToken>, p: int, s: Seq<char>) -> bool {
    word_at(t, p) == Some(s)
}

/// 「とは」 or 「は」 at `p`.
pub open spec fn is_defining_keyword(t: Seq<SpecToken>, p: int) -> bool {
    is_word(t, p, "とは"@) || is_word(t, p, "は"@)
}

/// The word at `p` when it is followed by 「とは」/「は」 (a definition start).
pub open spec fn peek_word_then_keyword(t: Seq<SpecToken>, p: int) -> Option<Seq<char>> {
    match word_at(t, p) {
        Some(w) => if is_defining_keyword(t, p + 1) {
            Some(w)
        } else {
            None
        },
        None => None,
    }
}

pub open spec fn is_open_paren(t: Seq<SpecToken>, p: int) -> bool {
    0 <= p < t.len() && t[p].kind is OpenParen
}

pub open spec fn is_close_paren(t: Seq<SpecToken>, p: int) -> bool {
    0 <= p < t.len() && t[p].kind is CloseParen
}

/// `Xは 変数` at `p`: the name X (three tokens).
pub open spec fn variable_decl_at(t: Seq<SpecToken>, p: int) -> Option<Seq<char>> {
    match word_at(t, p) {
        Some(name) => if is_word(t, p + 1, "は"@) && is_word(t, p + 2, "変数"@) {
            Some(name)
        } else {
            None
        },
        None => None,
    }
}

/// `Xは 可変値` / `Xは 定数値` at `p`: the name and whether it is a
/// constant (three tokens).
pub open spec fn value_decl_header_at(t: Seq<SpecToken>, p: int) -> Option<(Seq<char>, bool)> {
    match word_at(t, p) {
        Some(name) => if !is_word(t, p + 1, "は"@) {
            None
        } else if is_word(t, p + 2, "可変値"@) {
            Some((name, false))
        } else if is_word(t, p + 2, "定数値"@) {
            Some((name, true))
        } else {
            None
        },
        None => None,
    }
}

/// `〈新語〉も 〈既存語〉の 別名` at `p` (five tokens).
pub open spec fn alias_decl_at(t: Seq<SpecToken>, p: int) -> Option<(Seq<char>, Seq<char>)> {
    match word_at(t, p) {
        Some(new_name) => if is_word(t, p + 1, "も"@) {
            match word_at(t, p + 2) {
                Some(existing) => if is_word(t, p + 3, "の"@) && is_word(t, p + 4, "別名"@) {
                    Some((new_name, existing))
                } else {
                    None
                },
                None => None,
            }
        } else {
            None
        },
        None => None,
    }
}

/// `代入` at `p` right after a word call: the assignment target.
pub open spec fn assign_at(t: Seq<SpecToken>, p: int, acc: Seq<SpecExpr>) -> Option<Seq<char>> {
    if is_word(t, p, "代入"@) && acc.len() > 0 {
        match acc.last() {
            SpecExpr::WordCall(name) => Some(name),
            _ => None,
        }
    } else {
        None
    }
}

// ----------------------------------------------------------------------
// Number literals

/// A number-literal character as ASCII: digits and '-' stay, full-width
/// digits and the full-width minus become ASCII; anything else is refused.
pub open spec fn ascii_number_char(c: char) -> Option<char> {
    if ('0' <= c <= '9') || c == '-' {
        Some(c)
    } else if '\u{FF10}' <= c <= '\u{FF19}' {
        Some(((c as u32) - 0xFF10 + 48) as char)
    } else if c == '\u{FF0D}' {
        Some('-')
    } else {
        None
    }
}

/// The ASCII form of a number literal, if every character has one.
pub open spec fn ascii_number(s: Seq<char>) -> Option<Seq<char>>
    decreases s.len(),
{
    if s.len() == 0 {
        Some(seq![])
    } else {
        match (ascii_number(s.drop_last()), ascii_number_char(s.last())) {
            (Some(a), Some(c)) => Some(a.push(c)),
            _ => None,
        }
    }
}

pub open spec fn all_ascii_digits(s: Seq<char>) -> bool {
    forall|i: int| 0 <= i < s.len() ==> '0' <= #[trigger] s[i] <= '9'
}

/// The value of a string of ASCII digits.
pub open spec fn digits_value(s: Seq<char>) -> nat
    decreases s.len(),
{
    if s.len() == 0 {
        0
    } else {
        digits_value(s.drop_last()) * 10 + ((s.last() as int - 48) as nat)
    }
}

/// `i64` parsing of an ASCII string of digits and '-': an optional leading
/// '-', then at least one digit, and a value that fits.
pub open spec fn parse_i64(s: Seq<char>) -> Option<i64> {
    if s.len() > 0 && s[0] == '-' {
        let d = s.skip(1);
        if d.len() > 0 && all_ascii_digits(d) && digits_value(d) <= 0x8000_0000_0000_0000 {
            Some((-(digits_value(d) as int)) as i64)
        } else {
            None
        }
    } else if s.len() > 0 && all_ascii_digits(s) && digits_value(s) <= 0x7FFF_FFFF_FFFF_FFFF {
        Some(digits_value(s) as i64)
    } else {
        None
    }
}

pub open spec fn number_not_integer_message(raw: Seq<char>) -> Seq<char> {
    "整数以外の数値リテラルはフェーズ1では未対応です: 「"@ + raw + "」"@
}

pub open spec fn number_parse_failed_message(raw: Seq<char>) -> Seq<char> {
    "数値リテラルの解析に失敗しました: 「"@ + raw + "」"@
}

/// The value of number literal `raw` (at token `p`): only integers, written
/// with ASCII or full-width digits and minus signs, are accepted.
pub open spec fn number_value(raw: Seq<char>, t: Seq<SpecToken>, p: int) -> Result<i64, SpecParseError> {
    match ascii_number(raw) {
        None => Err(perr(t, number_not_integer_message(raw), p)),
        Some(a) => match parse_i64(a) {
            None => Err(perr(t, number_parse_failed_message(raw), p)),
            Some(v) => Ok(v),
        },
    }
}

// ----------------------------------------------------------------------
// Atoms

/// One atomic expression at `p` (one token): a word call, 「再帰」 (inside
/// a definition only), 「打切」, a number, a string, or a character literal
/// (as the word call `'X'`).  「。」, 「繰返」 and brackets are errors here.
pub open spec fn single_atom(t: Seq<SpecToken>, p: int, in_def: bool) -> Result<SpecExpr, SpecParseError> {
    if p < 0 || p >= t.len() {
        Err(perr(t, "式が必要ですが入力が終了しました"@, p))
    } else {
        match t[p].kind {
            SpecTokenKind::Word(w) => if w == "。"@ {
                Err(perr(t, "「。」はここでは使用できません（区切り記号としての「。」を式の中で使うことはできません）"@, p))
            } else if w == "再帰"@ {
                if !in_def {
                    Err(perr(t, "「再帰」は処理単語の定義内でのみ使用できます"@, p))
                } else {
                    Ok(SpecExpr::SelfRecurse)
                }
            } else if w == "打切"@ {
                Ok(SpecExpr::Break)
            } else if w == "繰返"@ {
                Err(perr(t, "「繰返」に対応するループの開始（「ここから」または「回数指定」）がありません"@, p))
            } else {
                Ok(SpecExpr::WordCall(w))
            },
            SpecTokenKind::NumberLiteral(s) => match number_value(s, t, p) {
                Ok(v) => Ok(SpecExpr::NumberLiteral(v)),
                Err(e) => Err(e),
            },
            SpecTokenKind::StringLiteral(s) => Ok(SpecExpr::StringLiteral(s)),
            SpecTokenKind::CharLiteral(c) => Ok(SpecExpr::WordCall(seq!['\'', c, '\''])),
            _ => Err(perr(t, "ここでは「（」「）」は使用できません（直前に添字アクセスの対象となる式がありません）"@, p)),
        }
    }
}

pub open spec fn bad_progress(t: Seq<SpecToken>) -> SpecParseError {
    perr(t, seq![], 0)
}

/// An atom at `p` and the subscript brackets right after it, appended to
/// `out`: `a（i）` becomes `a`, 「の」, `i`, 「番目」 (brackets may chain).
pub open spec fn atom(t: Seq<SpecToken>, p: int, out: Seq<SpecExpr>, in_def: bool) -> SeqResult
    decreases t.len() - p, 0int,
{
    match single_atom(t, p, in_def) {
        Err(e) => Err(e),
        Ok(a) => atom_subscripts(t, p + 1, out.push(a), in_def),
    }
}

/// Subscript brackets from `p` on.
pub open spec fn atom_subscripts(t: Seq<SpecToken>, p: int, out: Seq<SpecExpr>, in_def: bool) -> SeqResult
    decreases t.len() - p, 1int,
{
    if p >= 0 && is_open_paren(t, p) {
        atom_in_brackets(t, p + 1, out.push(SpecExpr::WordCall("の"@)), in_def)
    } else {
        Ok((out, p))
    }
}

/// The inside of a subscript bracket from `p` on.
pub open spec fn atom_in_brackets(t: Seq<SpecToken>, p: int, out: Seq<SpecExpr>, in_def: bool) -> SeqResult
    decreases t.len() - p, 1int,
{
    if p < 0 {
        Err(bad_progress(t))
    } else if is_close_paren(t, p) {
        atom_subscripts(t, p + 1, out.push(SpecExpr::WordCall("番目"@)), in_def)
    } else if p >= t.len() {
        Err(perr(t, "添字アクセスが「）」で閉じられないまま入力が終了しました"@, p))
    } else {
        match atom(t, p, out, in_def) {
            Err(e) => Err(e),
            Ok((out2, p2)) => if p < p2 <= t.len() {
                atom_in_brackets(t, p2, out2, in_def)
            } else {
                Err(bad_progress(t))
            },
        }
    }
}

// ----------------------------------------------------------------------
// Expression sequences

/// Whether the sequence ends at `p`, and how many tokens the end consumes.
pub open spec fn seq_end_at(t: Seq<SpecToken>, p: int, end: SeqEnd) -> Option<int> {
    match end {
        SeqEnd::TopLevel => if is_word(t, p, "。"@) {
            Some(1)
        } else {
            None
        },
        SeqEnd::InitValue => if is_word(t, p, "初期値"@) {
            Some(1)
        } else {
            None
        },
        SeqEnd::Branch => if is_word(t, p, "そうでなければ"@) || is_word(t, p, "つぎに"@) {
            Some(0)
        } else {
            None
        },
        SeqEnd::Loop => if is_word(t, p, "繰返"@) {
            Some(1)
        } else {
            None
        },
    }
}

/// The error when the input ends inside a sequence.
pub open spec fn seq_eof_message(end: SeqEnd) -> Seq<char> {
    match end {
        SeqEnd::TopLevel => "トップレベルの式の列が「。」で閉じられないまま入力が終了しました"@,
        SeqEnd::InitValue => "可変値/定数値の宣言が「初期値」で閉じられないまま入力が終了しました"@,
        SeqEnd::Branch => "条件分岐が「つぎに」で閉じられないまま入力が終了しました"@,
        SeqEnd::Loop => "ループが「繰り返し」「繰り返す」で閉じられないまま入力が終了しました"@,
    }
}

pub open spec fn expect_message(s: Seq<char>) -> Seq<char> {
    "「"@ + s + "」が必要です"@
}

/// The expression sequence from `p` on, appended to `acc`, up to its end
/// (see [`seq_end_at`]).  At each position, in order: the end; the end of
/// the input (an error); 「こと。」 at top level (an error); a value
/// declaration; an assignment 「代入」 taking the word call before it as
/// its target; otherwise one element (see [`seq_step`]).
pub open spec fn seq_from(t: Seq<SpecToken>, p: int, acc: Seq<SpecExpr>, end: SeqEnd, in_def: bool) -> SeqResult
    decreases t.len() - p, 3int,
{
    if p < 0 {
        Err(bad_progress(t))
    } else {
        match seq_end_at(t, p, end) {
            Some(k) => Ok((acc, p + k)),
            None => if p >= t.len() {
                Err(perr(t, seq_eof_message(end), p))
            } else if end == SeqEnd::TopLevel && is_word(t, p, "こと"@) && is_word(t, p + 1, "。"@) {
                Err(perr(t, "「こと。」に対応するワード定義がありません"@, p))
            } else {
                match value_decl_header_at(t, p) {
                    Some((name, is_constant)) => match seq_from(t, p + 3, seq![], SeqEnd::InitValue, in_def) {
                        Err(e) => Err(e),
                        Ok((init, p2)) => if p < p2 <= t.len() {
                            seq_from(
                                t,
                                p2,
                                acc.push(SpecExpr::ValueDecl { name, is_constant, init_expr: init }),
                                end,
                                in_def,
                            )
                        } else {
                            Err(bad_progress(t))
                        },
                    },
                    None => match assign_at(t, p, acc) {
                        Some(name) => seq_from(
                            t,
                            p + 1,
                            acc.drop_last().push(SpecExpr::Assign { name, value_expr: seq![] }),
                            end,
                            in_def,
                        ),
                        None => match seq_step(t, p, acc, in_def) {
                            Err(e) => Err(e),
                            Ok((acc2, p2)) => if p < p2 <= t.len() {
                                seq_from(t, p2, acc2, end, in_def)
                            } else {
                                Err(bad_progress(t))
                            },
                        },
                    },
                }
            }
        }
    }
}

// ----------------------------------------------------------------------
// Definitions

/// A definition being read: its local words, variables, body so far, and
/// whether the body has started.
pub struct DefAcc {
    pub name: Seq<char>,
    pub locals: Seq<SpecDef>,
    pub variables: Seq<Seq<char>>,
    pub body: Seq<SpecExpr>,
    pub started: bool,
}

pub open spec fn def_of(a: DefAcc) -> SpecDef {
    SpecDef { name: a.name, locals: a.locals, variables: a.variables, body: a.body }
}

pub open spec fn unclosed_local_message() -> Seq<char> {
    "局所処理単語が閉じられないまま入力が終了しました（本体とは、または次の定義が必要です）"@
}

pub open spec fn unclosed_definition_message() -> Seq<char> {
    "ワード定義が「。」で閉じられないまま入力が終了しました"@
}

pub open spec fn local_period_message() -> Seq<char> {
    "局所処理単語は「。」で閉じません（本体とは、または次の局所処理単語の開始で暗黙に閉じます）"@
}

pub open spec fn unexpected_local_message(w: Seq<char>) -> Seq<char> {
    "本体の中で予期しない局所処理単語の開始のようなもの「"@ + w
        + "」に達しました（局所処理単語は本体より前に置いてください）"@
}

pub open spec fn body_marker_needed_message() -> Seq<char> {
    "局所処理単語がある場合は「本体とは」が必要です"@
}

/// A word definition (`is_local == false`) or a local word (`true`) at `p`:
/// a word that is not 「再帰」, then 「とは」/「は」, then the contents.
pub open spec fn definition(t: Seq<SpecToken>, p: int, is_local: bool) -> DefResult
    decreases t.len() - p, 4int,
{
    match word_at(t, p) {
        None => Err(perr(t, "単語が必要です"@, p)),
        Some(name) => if name == "再帰"@ {
            Err(perr(t, "「再帰」は予約された構文キーワードのため、処理単語名として定義できません"@, p))
        } else if !is_defining_keyword(t, p + 1) {
            Err(perr(t, "「とは」または「は」が必要です"@, p + 1))
        } else {
            definition_from(
                t,
                p + 2,
                DefAcc { name, locals: seq![], variables: seq![], body: seq![], started: false },
                is_local,
            )
        },
    }
}

/// The contents of a definition from `p` on.  A word definition closes at
/// 「こと。」 or 「。」 once its body has started; a local word closes
/// (without consuming) where the next `単語 とは/は` begins.  At each
/// position, in order: closing; end of input (an error); a variable
/// declaration; a value declaration; an assignment; for a local word, an
/// implicit close or a stray 「。」 (an error); for a word definition, a
/// local word or the 「本体とは」 marker before the body (an error inside
/// the body); a body is required once there are local words; then the body
/// expressions as in [`seq_from`].
pub open spec fn definition_from(t: Seq<SpecToken>, p: int, a: DefAcc, is_local: bool) -> DefResult
    decreases t.len() - p, 5int,
{
    if p < 0 {
        Err(bad_progress(t))
    } else if !is_local && a.started && is_word(t, p, "こと"@) && is_word(t, p + 1, "。"@) {
        Ok((def_of(a), p + 2))
    } else if !is_local && a.started && is_word(t, p, "。"@) {
        Ok((def_of(a), p + 1))
    } else if p >= t.len() {
        Err(perr(t, if is_local { unclosed_local_message() } else { unclosed_definition_message() }, p))
    } else {
        match variable_decl_at(t, p) {
            Some(v) => definition_from(t, p + 3, DefAcc { variables: a.variables.push(v), ..a }, is_local),
            None => match value_decl_header_at(t, p) {
                Some((name, is_constant)) => match seq_from(t, p + 3, seq![], SeqEnd::InitValue, true) {
                    Err(e) => Err(e),
                    Ok((init, p2)) => if p < p2 <= t.len() {
                        definition_from(
                            t,
                            p2,
                            DefAcc {
                                body: a.body.push(SpecExpr::ValueDecl { name, is_constant, init_expr: init }),
                                ..a
                            },
                            is_local,
                        )
                    } else {
                        Err(bad_progress(t))
                    },
                },
                None => match assign_at(t, p, a.body) {
                    Some(name) => definition_from(
                        t,
                        p + 1,
                        DefAcc {
                            body: a.body.drop_last().push(SpecExpr::Assign { name, value_expr: seq![] }),
                            ..a
                        },
                        is_local,
                    ),
                    None => if is_local && peek_word_then_keyword(t, p) is Some {
                        Ok((def_of(a), p))
                    } else if is_local && is_word(t, p, "。"@) {
                        Err(perr(t, local_period_message(), p))
                    } else if !is_local && peek_word_then_keyword(t, p) is Some {
                        let word = peek_word_then_keyword(t, p)->0;
                        if a.started {
                            Err(perr(t, unexpected_local_message(word), p))
                        } else if word == "本体"@ {
                            definition_from(t, p + 2, DefAcc { started: true, ..a }, is_local)
                        } else {
                            match definition(t, p, true) {
                                Err(e) => Err(e),
                                Ok((local, p2)) => if p < p2 <= t.len() {
                                    definition_from(t, p2, DefAcc { locals: a.locals.push(local), ..a }, is_local)
                                } else {
                                    Err(bad_progress(t))
                                },
                            }
                        }
                    } else if !a.started && a.locals.len() > 0 {
                        Err(perr(t, body_marker_needed_message(), p))
                    } else {
                        match seq_step(t, p, a.body, true) {
                            Err(e) => Err(e),
                            Ok((body2, p2)) => if p < p2 <= t.len() {
                                definition_from(t, p2, DefAcc { body: body2, started: true, ..a }, is_local)
                            } else {
                                Err(bad_progress(t))
                            },
                        }
                    },
                },
            },
        }
    }
}

/// One body element at `p` (a loop, a conditional taking everything
/// before it as its condition, or an atom), appended to `acc`.
pub open spec fn seq_step(t: Seq<SpecToken>, p: int, acc: Seq<SpecExpr>, in_def: bool) -> SeqResult
    decreases t.len() - p, 2int,
{
    if p < 0 {
        Err(bad_progress(t))
    } else if is_word(t, p, "ここから"@) || is_word(t, p, "回数指定"@) {
        match seq_from(t, p + 1, seq![], SeqEnd::Loop, in_def) {
            Err(e) => Err(e),
            Ok((body, p2)) => {
                let e = if is_word(t, p, "ここから"@) {
                    SpecExpr::InfiniteLoop { body }
                } else {
                    SpecExpr::CountedLoop { body }
                };
                Ok((acc.push(e), p2))
            },
        }
    } else if is_word(t, p, "ならば"@) {
        match seq_from(t, p + 1, seq![], SeqEnd::Branch, in_def) {
            Err(e) => Err(e),
            Ok((then_branch, p2)) => if p < p2 <= t.len() {
                if is_word(t, p2, "そうでなければ"@) {
                    match seq_from(t, p2 + 1, seq![], SeqEnd::Branch, in_def) {
                        Err(e) => Err(e),
                        Ok((else_branch, p3)) => if is_word(t, p3, "つぎに"@) {
                            Ok((seq![SpecExpr::IfElse { cond: acc, then_branch, else_branch: Some(else_branch) }], p3 + 1))
                        } else {
                            Err(perr(t, expect_message("つぎに"@), p3))
                        },
                    }
                } else if is_word(t, p2, "つぎに"@) {
                    Ok((seq![SpecExpr::IfElse { cond: acc, then_branch, else_branch: None }], p2 + 1))
                } else {
                    Err(perr(t, expect_message("つぎに"@), p2))
                }
            } else {
                Err(bad_progress(t))
            },
        }
    } else {
        atom(t, p, acc, in_def)
    }
}

// ----------------------------------------------------------------------
// Top level

/// One top-level item at `p`: `Xは 変数。`, a value declaration closed by
/// 「。」, `Xも Yの 別名。`, a word definition (`単語 とは/は ...`), or an
/// expression sequence closed by 「。」.
pub open spec fn top_level_item(t: Seq<SpecToken>, p: int) -> Result<(SpecItem, int), SpecParseError> {
    match variable_decl_at(t, p) {
        Some(v) => if is_word(t, p + 3, "。"@) {
            Ok((SpecItem::Expr(seq![SpecExpr::VariableDecl(v)]), p + 4))
        } else {
            Err(perr(t, expect_message("。"@), p + 3))
        },
        None => match value_decl_header_at(t, p) {
            Some((name, is_constant)) => match seq_from(t, p + 3, seq![], SeqEnd::InitValue, false) {
                Err(e) => Err(e),
                Ok((init, p2)) => if is_word(t, p2, "。"@) {
                    Ok((SpecItem::Expr(seq![SpecExpr::ValueDecl { name, is_constant, init_expr: init }]), p2 + 1))
                } else {
                    Err(perr(t, expect_message("。"@), p2))
                },
            },
            None => match alias_decl_at(t, p) {
                Some((new_name, existing_name)) => if is_word(t, p + 5, "。"@) {
                    Ok((SpecItem::Expr(seq![SpecExpr::AliasDecl { new_name, existing_name }]), p + 6))
                } else {
                    Err(perr(t, expect_message("。"@), p + 5))
                },
                None => if peek_word_then_keyword(t, p) is Some {
                    match definition(t, p, false) {
                        Err(e) => Err(e),
                        Ok((d, p2)) => Ok((SpecItem::Definition(d), p2)),
                    }
                } else {
                    match seq_from(t, p, seq![], SeqEnd::TopLevel, false) {
                        Err(e) => Err(e),
                        Ok((v, p2)) => Ok((SpecItem::Expr(v), p2)),
                    }
                },
            },
        },
    }
}

/// A whole program of word definitions from `p` on, appended to `acc`.
pub open spec fn program_from(t: Seq<SpecToken>, p: int, acc: Seq<SpecDef>) -> Result<Seq<SpecDef>, SpecParseError>
    decreases t.len() - p,
{
    if p < 0 || p >= t.len() {
        Ok(acc)
    } else {
        match definition(t, p, false) {
            Err(e) => Err(e),
            Ok((d, p2)) => if p < p2 <= t.len() {
                program_from(t, p2, acc.push(d))
            } else {
                Err(bad_progress(t))
            },
        }
    }
}

} // verus!
