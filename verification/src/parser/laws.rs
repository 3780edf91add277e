//! Properties of the grammar that hold for every token sequence.
use vstd::prelude::*;
use crate::tokenizer::SpecToken;
use super::ast::SpecExpr;
use super::scope::{SpecScopeError, expr_errors, exprs_errors, scope_message};
use vstd::seq_lib::lemma_flatten_alt_concat;
use super::grammar::{
    ascii_number, number_value,
    assign_at, definition_from, is_word, seq_end_at, seq_from, seq_step, top_level_item,
    value_decl_header_at, variable_decl_at, DefAcc, SeqEnd,
};

verus! {

/// An expression sequence that is read to its end does not move back; a
/// top-level one stops just after a 「。」.
proof fn top_level_sequences_end_with_a_period(t: Seq<SpecToken>, p: int, acc: Seq<SpecExpr>, end: SeqEnd, in_def: bool)
    ensures
        seq_from(t, p, acc, end, in_def) matches Ok((v, p2)) ==> p <= p2 <= t.len(),
        end == SeqEnd::TopLevel ==> (seq_from(t, p, acc, end, in_def) matches Ok((v, p2))
            ==> p < p2 && is_word(t, p2 - 1, "。"@)),
    decreases t.len() - p,
{
    if p >= 0 && seq_end_at(t, p, end) is None && p < t.len()
        && !(end == SeqEnd::TopLevel && is_word(t, p, "こと"@) && is_word(t, p + 1, "。"@)) {
        match value_decl_header_at(t, p) {
            Some((name, is_constant)) => match seq_from(t, p + 3, seq![], SeqEnd::InitValue, in_def) {
                Ok((init, p2)) => if p < p2 <= t.len() {
                    top_level_sequences_end_with_a_period(
                        t,
                        p2,
                        acc.push(SpecExpr::ValueDecl { name, is_constant, init_expr: init }),
                        end,
                        in_def,
                    );
                },
                Err(_) => {},
            },
            None => match assign_at(t, p, acc) {
                Some(name) => top_level_sequences_end_with_a_period(
                    t,
                    p + 1,
                    acc.drop_last().push(SpecExpr::Assign { name, value_expr: seq![] }),
                    end,
                    in_def,
                ),
                None => match seq_step(t, p, acc, in_def) {
                    Ok((acc2, p2)) => if p < p2 <= t.len() {
                        top_level_sequences_end_with_a_period(t, p2, acc2, end, in_def);
                    },
                    Err(_) => {},
                },
            },
        }
    }
}

/// The contents of a word definition that are read to their end stop just
/// after a 「。」 (of 「こと。」 or a bare 「。」).
proof fn definitions_end_with_a_period(t: Seq<SpecToken>, p: int, a: DefAcc)
    ensures
        definition_from(t, p, a, false) matches Ok((d, p2)) ==> p < p2 && is_word(t, p2 - 1, "。"@),
    decreases t.len() - p,
{
    if p >= 0 && !(a.started && is_word(t, p, "こと"@) && is_word(t, p + 1, "。"@))
        && !(a.started && is_word(t, p, "。"@)) && p < t.len() {
        match variable_decl_at(t, p) {
            Some(v) => definitions_end_with_a_period(t, p + 3, DefAcc { variables: a.variables.push(v), ..a }),
            None => match value_decl_header_at(t, p) {
                Some((name, is_constant)) => match seq_from(t, p + 3, seq![], SeqEnd::InitValue, true) {
                    Ok((init, p2)) => if p < p2 <= t.len() {
                        definitions_end_with_a_period(
                            t,
                            p2,
                            DefAcc { body: a.body.push(SpecExpr::ValueDecl { name, is_constant, init_expr: init }), ..a },
                        );
                    },
                    Err(_) => {},
                },
                None => match assign_at(t, p, a.body) {
                    Some(name) => definitions_end_with_a_period(
                        t,
                        p + 1,
                        DefAcc { body: a.body.drop_last().push(SpecExpr::Assign { name, value_expr: seq![] }), ..a },
                    ),
                    None => if super::grammar::peek_word_then_keyword(t, p) is Some {
                        let word = super::grammar::peek_word_then_keyword(t, p)->0;
                        if !a.started && word == "本体"@ {
                            definitions_end_with_a_period(t, p + 2, DefAcc { started: true, ..a });
                        } else if !a.started {
                            match super::grammar::definition(t, p, true) {
                                Ok((local, p2)) => if p < p2 <= t.len() {
                                    definitions_end_with_a_period(t, p2, DefAcc { locals: a.locals.push(local), ..a });
                                },
                                Err(_) => {},
                            }
                        }
                    } else {
                        match seq_step(t, p, a.body, true) {
                            Ok((body2, p2)) => if p < p2 <= t.len() {
                                definitions_end_with_a_period(t, p2, DefAcc { body: body2, started: true, ..a });
                            },
                            Err(_) => {},
                        }
                    },
                },
            },
        }
    }
}

/// Every top-level item that is read successfully consumes at least one
/// token and ends with a consumed 「。」: a declaration's closing 「。」, the
/// 「。」 of a word definition's 「こと。」 (or its bare 「。」), or the 「。」
/// that closes an expression sequence.  So reading items one after another
/// from the start moves forward and stops at the end of the tokens.
pub proof fn top_level_items_end_with_a_period(t: Seq<SpecToken>, p: int)
    ensures
        top_level_item(t, p) matches Ok((item, p2)) ==> p < p2 && is_word(t, p2 - 1, "。"@),
{
    if variable_decl_at(t, p) is None && value_decl_header_at(t, p) is Some {
        top_level_sequences_end_with_a_period(t, p + 3, seq![], SeqEnd::InitValue, false);
    }
    if variable_decl_at(t, p) is None && value_decl_header_at(t, p) is None
        && super::grammar::alias_decl_at(t, p) is None {
        if super::grammar::peek_word_then_keyword(t, p) is Some {
            match super::grammar::word_at(t, p) {
                Some(name) => if name != "再帰"@ && super::grammar::is_defining_keyword(t, p + 1) {
                    definitions_end_with_a_period(
                        t,
                        p + 2,
                        DefAcc { name, locals: seq![], variables: seq![], body: seq![], started: false },
                    );
                },
                None => {},
            }
        } else {
            top_level_sequences_end_with_a_period(t, p, seq![], SeqEnd::TopLevel, false);
        }
    }
}

/// An expression sequence read to its end neither moves back nor runs
/// past the end of the tokens.
pub(crate) proof fn sequences_do_not_move_back(t: Seq<SpecToken>, p: int, acc: Seq<SpecExpr>, end: SeqEnd, in_def: bool)
    ensures
        seq_from(t, p, acc, end, in_def) matches Ok((v, p2)) ==> p <= p2 <= t.len(),
{
    top_level_sequences_end_with_a_period(t, p, acc, end, in_def);
}

/// A word definition that is read to its end stops just after a 「。」.
pub(crate) proof fn word_definitions_end_with_a_period(t: Seq<SpecToken>, p: int)
    ensures
        super::grammar::definition(t, p, false) matches Ok((d, p2)) ==> p < p2 && is_word(t, p2 - 1, "。"@),
{
    if let Some(name) = super::grammar::word_at(t, p) {
        definitions_end_with_a_period(
            t,
            p + 2,
            DefAcc { name, locals: seq![], variables: seq![], body: seq![], started: false },
        );
    }
}

/// The errors of a sequence followed by another are the errors of the
/// first followed by those of the second.
proof fn errors_of_concatenation(a: Seq<SpecExpr>, b: Seq<SpecExpr>, def_name: Seq<char>, declared: Seq<Seq<char>>, visible: Seq<Seq<char>>)
    ensures
        exprs_errors(a + b, def_name, declared, visible).flatten_alt()
            == exprs_errors(a, def_name, declared, visible).flatten_alt() + exprs_errors(b, def_name, declared, visible).flatten_alt(),
{
    assert(exprs_errors(a + b, def_name, declared, visible)
        =~= exprs_errors(a, def_name, declared, visible) + exprs_errors(b, def_name, declared, visible));
    lemma_flatten_alt_concat(exprs_errors(a, def_name, declared, visible), exprs_errors(b, def_name, declared, visible));
}

/// The scope check looks into both branches of a conditional alike: the
/// violations of `cond ならば t そうでなければ e つぎに` are those of `cond
/// ならば t e つぎに`, the else branch checked as if it followed the then
/// branch.
pub proof fn else_branches_are_checked_like_then_branches(
    cond: Seq<SpecExpr>,
    t: Seq<SpecExpr>,
    e: Seq<SpecExpr>,
    def_name: Seq<char>,
    declared: Seq<Seq<char>>,
    visible: Seq<Seq<char>>,
)
    ensures
        expr_errors(SpecExpr::IfElse { cond, then_branch: t, else_branch: Some(e) }, def_name, declared, visible)
            == expr_errors(SpecExpr::IfElse { cond, then_branch: t + e, else_branch: None }, def_name, declared, visible),
{
    errors_of_concatenation(t, e, def_name, declared, visible);
    let c = exprs_errors(cond, def_name, declared, visible).flatten_alt();
    let x = exprs_errors(t, def_name, declared, visible).flatten_alt();
    let y = exprs_errors(e, def_name, declared, visible).flatten_alt();
    assert(c + x + y =~= c + (x + y) + Seq::<SpecScopeError>::empty());
}

/// A word call of a variable that the definition tree declares but that is
/// not visible is reported wherever it stands in the else branch of a
/// conditional: the variable and the definition are named.
pub proof fn violations_in_else_branches_are_reported(
    cond: Seq<SpecExpr>,
    t: Seq<SpecExpr>,
    e: Seq<SpecExpr>,
    k: int,
    v: Seq<char>,
    def_name: Seq<char>,
    declared: Seq<Seq<char>>,
    visible: Seq<Seq<char>>,
)
    requires
        0 <= k < e.len(),
        e[k] == SpecExpr::WordCall(v),
        declared.contains(v),
        !visible.contains(v),
    ensures
        expr_errors(SpecExpr::IfElse { cond, then_branch: t, else_branch: Some(e) }, def_name, declared, visible)
            .contains(SpecScopeError { variable: v, definition_name: def_name, message: scope_message(v, def_name) }),
{
    let err = SpecScopeError { variable: v, definition_name: def_name, message: scope_message(v, def_name) };
    let ee = exprs_errors(e, def_name, declared, visible);
    assert(ee[k] == seq![err]);
    assert(ee =~= ee.take(k) + seq![ee[k]] + ee.skip(k + 1));
    lemma_flatten_alt_concat(ee.take(k) + seq![ee[k]], ee.skip(k + 1));
    lemma_flatten_alt_concat(ee.take(k), seq![ee[k]]);
    let one = seq![seq![err]];
    assert(one.drop_last() =~= Seq::<Seq<SpecScopeError>>::empty());
    assert(one.flatten_alt() == one.drop_last().flatten_alt() + one.last());
    assert(one.flatten_alt() =~= seq![err]);
    let pre = ee.take(k).flatten_alt();
    let all = expr_errors(SpecExpr::IfElse { cond, then_branch: t, else_branch: Some(e) }, def_name, declared, visible);
    let c = exprs_errors(cond, def_name, declared, visible).flatten_alt();
    let x = exprs_errors(t, def_name, declared, visible).flatten_alt();
    assert(all == c + x + ee.flatten_alt());
    assert(ee.flatten_alt() == pre + seq![err] + ee.skip(k + 1).flatten_alt());
    assert(all[(c.len() + x.len() + pre.len()) as int] == err);
}

/// The full-width form of a number literal written with ASCII digits and
/// '-': each digit `d` as U+FF10 + d, the minus sign as U+FF0D.
pub open spec fn fullwidth_number(s: Seq<char>) -> Seq<char> {
    s.map_values(|c: char| if c == '-' { '\u{FF0D}' } else { ((c as u32) + 0xFEE0) as char })
}

/// A number literal written with full-width digits and minus signs reads
/// as the same literal in ASCII, and an ASCII literal reads as itself; so
/// both spellings have the same value.
pub proof fn fullwidth_numbers_read_as_ascii(s: Seq<char>, t: Seq<SpecToken>, p: int)
    requires
        forall|i: int| 0 <= i < s.len() ==> ('0' <= #[trigger] s[i] <= '9' || s[i] == '-'),
    ensures
        ascii_number(s) == Some(s),
        ascii_number(fullwidth_number(s)) == Some(s),
        number_value(s, t, p) is Ok ==> number_value(fullwidth_number(s), t, p) == number_value(s, t, p),
    decreases s.len(),
{
    if s.len() > 0 {
        let d = s.drop_last();
        assert forall|i: int| 0 <= i < d.len() implies ('0' <= #[trigger] d[i] <= '9' || d[i] == '-') by {
            assert(d[i] == s[i]);
        }
        fullwidth_numbers_read_as_ascii(d, t, p);
        let f = fullwidth_number(s);
        assert(f.drop_last() =~= fullwidth_number(d));
        let c = s.last();
        assert(f.last() == if c == '-' { '\u{FF0D}' } else { ((c as u32) + 0xFEE0) as char });
        if c != '-' {
            let w = ((c as u32) + 0xFEE0) as char;
            assert(w as u32 == (c as u32) + 0xFEE0);
            assert(((w as u32) - 0xFF10 + 48) as char == c);
        }
        assert(d.push(c) =~= s);
    }
}

} // verus!
