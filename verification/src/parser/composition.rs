//! Reading a token sequence that holds another one: what the grammar reads
//! of a sequence `t` it reads the same way where `t` stands inside a longer
//! sequence `u`, so programs can be parsed piece by piece.
use vstd::prelude::*;
use crate::tokenizer::SpecToken;
use super::ast::{SpecDef, SpecExpr};
use super::grammar::{
    assign_at, atom, atom_in_brackets, atom_subscripts, definition, definition_from, is_close_paren,
    is_open_paren, is_word, program_from, seq_end_at, seq_from, seq_step, single_atom,
    value_decl_header_at, variable_decl_at, word_at, DefAcc, SeqEnd,
};

verus! {

/// `u` holds the tokens of `t` from offset `d` on, and either `t` runs to
/// the end of `u` or `t` ends with 「。」.
pub open spec fn embeds(t: Seq<SpecToken>, u: Seq<SpecToken>, d: int) -> bool {
    &&& 0 <= d
    &&& d + t.len() <= u.len()
    &&& forall|q: int| 0 <= q < t.len() ==> u[d + q] == #[trigger] t[q]
    &&& (d + t.len() == u.len() || is_word(t, t.len() - 1, "。"@))
}

pub open spec fn runs_to_end(t: Seq<SpecToken>, u: Seq<SpecToken>, d: int) -> bool {
    d + t.len() == u.len()
}

/// Position `q` of `t` reads the same in `u`: inside `t`, or anywhere past
/// it when `t` runs to the end of `u`.
pub open spec fn reads_alike(t: Seq<SpecToken>, u: Seq<SpecToken>, d: int, q: int) -> bool {
    0 <= q && (q < t.len() || runs_to_end(t, u, d))
}

proof fn same_reads(t: Seq<SpecToken>, u: Seq<SpecToken>, d: int, q: int)
    requires
        embeds(t, u, d),
        reads_alike(t, u, d, q),
    ensures
        word_at(u, d + q) == word_at(t, q),
        is_open_paren(u, d + q) == is_open_paren(t, q),
        is_close_paren(u, d + q) == is_close_paren(t, q),
        q < t.len() ==> u[d + q] == t[q],
{
    if q < t.len() {
        assert(u[d + q] == t[q]);
    }
}

/// In a `t` that ends with 「。」, a position whose token is not 「。」 is
/// followed by one more position of `t`.
proof fn next_reads_alike(t: Seq<SpecToken>, u: Seq<SpecToken>, d: int, q: int)
    requires
        embeds(t, u, d),
        0 <= q < t.len(),
        !is_word(t, q, "。"@),
    ensures
        reads_alike(t, u, d, q + 1),
{
}

/// No keyword of the grammar is 「。」.
proof fn keywords_are_not_the_period()
    ensures
        "ここから"@ != "。"@,
        "回数指定"@ != "。"@,
        "ならば"@ != "。"@,
        "そうでなければ"@ != "。"@,
        "つぎに"@ != "。"@,
        "初期値"@ != "。"@,
        "繰返"@ != "。"@,
        "は"@ != "。"@,
        "とは"@ != "。"@,
        "可変値"@ != "。"@,
        "定数値"@ != "。"@,
        "変数"@ != "。"@,
        "代入"@ != "。"@,
        "こと"@ != "。"@,
        "本体"@ != "。"@,
{
    reveal_strlit("。");
    assert("。"@.len() == 1 && "。"@[0] == '。');
    reveal_strlit("ここから");
    assert("ここから"@.len() == 4 && "ここから"@[0] == 'こ');
    reveal_strlit("回数指定");
    assert("回数指定"@.len() == 4 && "回数指定"@[0] == '回');
    reveal_strlit("ならば");
    assert("ならば"@.len() == 3 && "ならば"@[0] == 'な');
    reveal_strlit("そうでなければ");
    assert("そうでなければ"@.len() == 7 && "そうでなければ"@[0] == 'そ');
    reveal_strlit("つぎに");
    assert("つぎに"@.len() == 3 && "つぎに"@[0] == 'つ');
    reveal_strlit("初期値");
    assert("初期値"@.len() == 3 && "初期値"@[0] == '初');
    reveal_strlit("繰返");
    assert("繰返"@.len() == 2 && "繰返"@[0] == '繰');
    reveal_strlit("は");
    assert("は"@.len() == 1 && "は"@[0] == 'は');
    reveal_strlit("とは");
    assert("とは"@.len() == 2 && "とは"@[0] == 'と');
    reveal_strlit("可変値");
    assert("可変値"@.len() == 3 && "可変値"@[0] == '可');
    reveal_strlit("定数値");
    assert("定数値"@.len() == 3 && "定数値"@[0] == '定');
    reveal_strlit("変数");
    assert("変数"@.len() == 2 && "変数"@[0] == '変');
    reveal_strlit("代入");
    assert("代入"@.len() == 2 && "代入"@[0] == '代');
    reveal_strlit("こと");
    assert("こと"@.len() == 2 && "こと"@[0] == 'こ');
    reveal_strlit("本体");
    assert("本体"@.len() == 2 && "本体"@[0] == '本');
}

proof fn agree_single_atom(t: Seq<SpecToken>, u: Seq<SpecToken>, d: int, p: int, in_def: bool)
    requires
        embeds(t, u, d),
        reads_alike(t, u, d, p),
    ensures
        single_atom(t, p, in_def) matches Ok(a) ==> single_atom(u, d + p, in_def) == Ok::<SpecExpr, super::error::SpecParseError>(a),
        single_atom(t, p, in_def) is Ok ==> p < t.len() && !is_word(t, p, "。"@),
{
    same_reads(t, u, d, p);
}

proof fn agree_atom(t: Seq<SpecToken>, u: Seq<SpecToken>, d: int, p: int, out: Seq<SpecExpr>, in_def: bool)
    requires
        embeds(t, u, d),
        reads_alike(t, u, d, p),
    ensures
        atom(t, p, out, in_def) matches Ok((x, p2)) ==> atom(u, d + p, out, in_def) == Ok::<(Seq<SpecExpr>, int), super::error::SpecParseError>((x, d + p2)),
    decreases t.len() - p, 0int,
{
    agree_single_atom(t, u, d, p, in_def);
    if let Ok(a) = single_atom(t, p, in_def) {
        next_reads_alike(t, u, d, p);
        agree_subscripts(t, u, d, p + 1, out.push(a), in_def);
    }
}

proof fn agree_subscripts(t: Seq<SpecToken>, u: Seq<SpecToken>, d: int, p: int, out: Seq<SpecExpr>, in_def: bool)
    requires
        embeds(t, u, d),
        reads_alike(t, u, d, p),
    ensures
        atom_subscripts(t, p, out, in_def) matches Ok((x, p2)) ==> atom_subscripts(u, d + p, out, in_def) == Ok::<(Seq<SpecExpr>, int), super::error::SpecParseError>((x, d + p2)),
    decreases t.len() - p, 1int,
{
    same_reads(t, u, d, p);
    if is_open_paren(t, p) {
        next_reads_alike(t, u, d, p);
        agree_brackets(t, u, d, p + 1, out.push(SpecExpr::WordCall("の"@)), in_def);
    }
}

proof fn agree_brackets(t: Seq<SpecToken>, u: Seq<SpecToken>, d: int, p: int, out: Seq<SpecExpr>, in_def: bool)
    requires
        embeds(t, u, d),
        reads_alike(t, u, d, p),
    ensures
        atom_in_brackets(t, p, out, in_def) matches Ok((x, p2)) ==> atom_in_brackets(u, d + p, out, in_def) == Ok::<(Seq<SpecExpr>, int), super::error::SpecParseError>((x, d + p2)),
    decreases t.len() - p, 1int,
{
    same_reads(t, u, d, p);
    if is_close_paren(t, p) {
        next_reads_alike(t, u, d, p);
        agree_subscripts(t, u, d, p + 1, out.push(SpecExpr::WordCall("番目"@)), in_def);
    } else if p < t.len() {
        agree_atom(t, u, d, p, out, in_def);
        if let Ok((out2, p2)) = atom(t, p, out, in_def) {
            if p < p2 <= t.len() {
                if reads_alike(t, u, d, p2) {
                    agree_brackets(t, u, d, p2, out2, in_def);
                } else {
                    assert(atom_in_brackets(t, p2, out2, in_def) is Err);
                }
            }
        }
    }
}

/// Facts on sequence ends needed below: a sequence read to its end does not
/// move back or past the end.
proof fn seq_from_bounds(t: Seq<SpecToken>, p: int, acc: Seq<SpecExpr>, end: SeqEnd, in_def: bool)
    ensures
        seq_from(t, p, acc, end, in_def) matches Ok((v, p2)) ==> p <= p2 <= t.len(),
{
    super::laws::sequences_do_not_move_back(t, p, acc, end, in_def);
}

proof fn agree_seq_step(t: Seq<SpecToken>, u: Seq<SpecToken>, d: int, p: int, acc: Seq<SpecExpr>, in_def: bool)
    requires
        embeds(t, u, d),
        reads_alike(t, u, d, p),
    ensures
        seq_step(t, p, acc, in_def) matches Ok((x, p2)) ==> seq_step(u, d + p, acc, in_def) == Ok::<(Seq<SpecExpr>, int), super::error::SpecParseError>((x, d + p2)),
    decreases t.len() - p, 2int,
{
    keywords_are_not_the_period();
    same_reads(t, u, d, p);
    if is_word(t, p, "ここから"@) || is_word(t, p, "回数指定"@) {
        next_reads_alike(t, u, d, p);
        agree_seq_from(t, u, d, p + 1, seq![], SeqEnd::Loop, in_def);
    } else if is_word(t, p, "ならば"@) {
        next_reads_alike(t, u, d, p);
        agree_seq_from(t, u, d, p + 1, seq![], SeqEnd::Branch, in_def);
        if let Ok((then_branch, p2)) = seq_from(t, p + 1, seq![], SeqEnd::Branch, in_def) {
            if p < p2 <= t.len() && reads_alike(t, u, d, p2) {
                same_reads(t, u, d, p2);
                if is_word(t, p2, "そうでなければ"@) {
                    next_reads_alike(t, u, d, p2);
                    agree_seq_from(t, u, d, p2 + 1, seq![], SeqEnd::Branch, in_def);
                    seq_from_bounds(t, p2 + 1, seq![], SeqEnd::Branch, in_def);
                    if let Ok((else_branch, p3)) = seq_from(t, p2 + 1, seq![], SeqEnd::Branch, in_def) {
                        if reads_alike(t, u, d, p3) {
                            same_reads(t, u, d, p3);
                        }
                    }
                }
            }
        }
    } else {
        agree_atom(t, u, d, p, acc, in_def);
    }
}

/// At the closing 「。」 of `t`, only a top-level sequence can be read to
/// its end.
proof fn only_top_level_ends_at_the_period(t: Seq<SpecToken>, p: int, acc: Seq<SpecExpr>, end: SeqEnd, in_def: bool)
    requires
        0 <= p == t.len() - 1,
        is_word(t, p, "。"@),
    ensures
        seq_from(t, p, acc, end, in_def) is Ok ==> end == SeqEnd::TopLevel,
{
    keywords_are_not_the_period();
    assert(single_atom(t, p, in_def) is Err);
    assert(atom(t, p, acc, in_def) is Err);
    assert(seq_step(t, p, acc, in_def) is Err);
}

/// What a sequence step looks at, at a position of `t` that is not its
/// closing 「。」, is the same in `u`.
proof fn sequence_heads_agree(t: Seq<SpecToken>, u: Seq<SpecToken>, d: int, p: int, acc: Seq<SpecExpr>, end: SeqEnd)
    requires
        embeds(t, u, d),
        reads_alike(t, u, d, p),
        runs_to_end(t, u, d) || p < t.len() - 1,
    ensures
        seq_end_at(u, d + p, end) == seq_end_at(t, p, end),
        (is_word(u, d + p, "こと"@) && is_word(u, d + p + 1, "。"@)) == (is_word(t, p, "こと"@) && is_word(t, p + 1, "。"@)),
        value_decl_header_at(u, d + p) == value_decl_header_at(t, p),
        assign_at(u, d + p, acc) == assign_at(t, p, acc),
        value_decl_header_at(t, p) is Some ==> reads_alike(t, u, d, p + 3),
        is_word(t, p, "代入"@) ==> reads_alike(t, u, d, p + 1),
{
    keywords_are_not_the_period();
    same_reads(t, u, d, p);
    same_reads(t, u, d, p + 1);
    assert(d + p + 1 == d + (p + 1));
    if is_word(t, p + 1, "は"@) {
        next_reads_alike(t, u, d, p + 1);
        same_reads(t, u, d, p + 2);
        assert(d + p + 2 == d + (p + 2));
        if value_decl_header_at(t, p) is Some {
            next_reads_alike(t, u, d, p + 2);
        }
    }
}

#[verifier::rlimit(30)]
proof fn agree_seq_from(t: Seq<SpecToken>, u: Seq<SpecToken>, d: int, p: int, acc: Seq<SpecExpr>, end: SeqEnd, in_def: bool)
    requires
        embeds(t, u, d),
        reads_alike(t, u, d, p),
    ensures
        seq_from(t, p, acc, end, in_def) matches Ok((x, p2)) ==> seq_from(u, d + p, acc, end, in_def) == Ok::<(Seq<SpecExpr>, int), super::error::SpecParseError>((x, d + p2)),
    decreases t.len() - p, 3int,
{
    same_reads(t, u, d, p);
    if !runs_to_end(t, u, d) && p == t.len() - 1 {
        only_top_level_ends_at_the_period(t, p, acc, end, in_def);
        if end == SeqEnd::TopLevel {
            assert(seq_end_at(t, p, end) == Some(1int));
        }
    } else if p < t.len() || runs_to_end(t, u, d) {
        sequence_heads_agree(t, u, d, p, acc, end);
        if seq_end_at(t, p, end) is None && p < t.len()
            && !(end == SeqEnd::TopLevel && is_word(t, p, "こと"@) && is_word(t, p + 1, "。"@)) {
            match value_decl_header_at(t, p) {
                Some((name, is_constant)) => {
                    agree_seq_from(t, u, d, p + 3, seq![], SeqEnd::InitValue, in_def);
                    if let Ok((init, p2)) = seq_from(t, p + 3, seq![], SeqEnd::InitValue, in_def) {
                        if p < p2 <= t.len() {
                            let acc2 = acc.push(SpecExpr::ValueDecl { name, is_constant, init_expr: init });
                            if reads_alike(t, u, d, p2) {
                                agree_seq_from(t, u, d, p2, acc2, end, in_def);
                            } else {
                                assert(seq_from(t, p2, acc2, end, in_def) is Err);
                            }
                        }
                    }
                },
                None => match assign_at(t, p, acc) {
                    Some(name) => {
                        agree_seq_from(t, u, d, p + 1, acc.drop_last().push(SpecExpr::Assign { name, value_expr: seq![] }), end, in_def);
                    },
                    None => {
                        agree_seq_step(t, u, d, p, acc, in_def);
                        if let Ok((acc2, p2)) = seq_step(t, p, acc, in_def) {
                            if p < p2 <= t.len() {
                                if reads_alike(t, u, d, p2) {
                                    agree_seq_from(t, u, d, p2, acc2, end, in_def);
                                } else {
                                    assert(seq_from(t, p2, acc2, end, in_def) is Err);
                                }
                            }
                        }
                    },
                },
            }
        }
    }
}

/// What the contents of a definition look at, at a position of `t` that
/// is not its closing 「。」, is the same in `u`.
proof fn definition_heads_agree(t: Seq<SpecToken>, u: Seq<SpecToken>, d: int, p: int, body: Seq<SpecExpr>)
    requires
        embeds(t, u, d),
        reads_alike(t, u, d, p),
        runs_to_end(t, u, d) || p < t.len() - 1,
    ensures
        (is_word(u, d + p, "こと"@) && is_word(u, d + p + 1, "。"@)) == (is_word(t, p, "こと"@) && is_word(t, p + 1, "。"@)),
        is_word(u, d + p, "。"@) == is_word(t, p, "。"@),
        variable_decl_at(u, d + p) == variable_decl_at(t, p),
        value_decl_header_at(u, d + p) == value_decl_header_at(t, p),
        assign_at(u, d + p, body) == assign_at(t, p, body),
        super::grammar::peek_word_then_keyword(u, d + p) == super::grammar::peek_word_then_keyword(t, p),
        variable_decl_at(t, p) is Some ==> reads_alike(t, u, d, p + 3),
        value_decl_header_at(t, p) is Some ==> reads_alike(t, u, d, p + 3),
        is_word(t, p, "代入"@) ==> reads_alike(t, u, d, p + 1),
        super::grammar::peek_word_then_keyword(t, p) is Some ==> reads_alike(t, u, d, p + 2),
{
    keywords_are_not_the_period();
    same_reads(t, u, d, p);
    same_reads(t, u, d, p + 1);
    assert(d + p + 1 == d + (p + 1));
    if is_word(t, p + 1, "は"@) || is_word(t, p + 1, "とは"@) {
        next_reads_alike(t, u, d, p + 1);
        same_reads(t, u, d, p + 2);
        assert(d + p + 2 == d + (p + 2));
        if is_word(t, p + 1, "は"@) && (is_word(t, p + 2, "変数"@) || is_word(t, p + 2, "可変値"@) || is_word(t, p + 2, "定数値"@)) {
            next_reads_alike(t, u, d, p + 2);
        }
    }
}

proof fn agree_definition(t: Seq<SpecToken>, u: Seq<SpecToken>, d: int, p: int, is_local: bool)
    requires
        embeds(t, u, d),
        reads_alike(t, u, d, p),
    ensures
        definition(t, p, is_local) matches Ok((x, p2)) ==> definition(u, d + p, is_local) == Ok::<(SpecDef, int), super::error::SpecParseError>((x, d + p2)),
    decreases t.len() - p, 4int,
{
    keywords_are_not_the_period();
    same_reads(t, u, d, p);
    if let Some(name) = word_at(t, p) {
        if reads_alike(t, u, d, p + 1) {
            same_reads(t, u, d, p + 1);
            assert(d + p + 1 == d + (p + 1));
            if super::grammar::is_defining_keyword(t, p + 1) && name != "再帰"@ {
                next_reads_alike(t, u, d, p + 1);
                assert(d + p + 2 == d + (p + 2));
                agree_definition_from(
                    t,
                    u,
                    d,
                    p + 2,
                    DefAcc { name, locals: seq![], variables: seq![], body: seq![], started: false },
                    is_local,
                );
            }
        }
    }
}

/// At the closing 「。」 of `t`, only a started word definition can be
/// closed.
proof fn only_started_definitions_end_at_the_period(t: Seq<SpecToken>, p: int, a: DefAcc, is_local: bool)
    requires
        0 <= p == t.len() - 1,
        is_word(t, p, "。"@),
    ensures
        definition_from(t, p, a, is_local) is Ok ==> !is_local && a.started,
{
    keywords_are_not_the_period();
    assert(single_atom(t, p, true) is Err);
    assert(atom(t, p, a.body, true) is Err);
    assert(seq_step(t, p, a.body, true) is Err);
}

#[verifier::rlimit(40)]
proof fn agree_definition_from(t: Seq<SpecToken>, u: Seq<SpecToken>, d: int, p: int, a: DefAcc, is_local: bool)
    requires
        embeds(t, u, d),
        reads_alike(t, u, d, p),
    ensures
        definition_from(t, p, a, is_local) matches Ok((x, p2)) ==> definition_from(u, d + p, a, is_local) == Ok::<(SpecDef, int), super::error::SpecParseError>((x, d + p2)),
    decreases t.len() - p, 5int,
{
    keywords_are_not_the_period();
    same_reads(t, u, d, p);
    if !runs_to_end(t, u, d) && p == t.len() - 1 {
        only_started_definitions_end_at_the_period(t, p, a, is_local);
    } else if p < t.len() || runs_to_end(t, u, d) {
        definition_heads_agree(t, u, d, p, a.body);
        if !(!is_local && a.started && is_word(t, p, "こと"@) && is_word(t, p + 1, "。"@))
            && !(!is_local && a.started && is_word(t, p, "。"@)) && p < t.len() {
            match variable_decl_at(t, p) {
                Some(v) => {
                    agree_definition_from(t, u, d, p + 3, DefAcc { variables: a.variables.push(v), ..a }, is_local);
                },
                None => match value_decl_header_at(t, p) {
                    Some((name, is_constant)) => {
                        agree_seq_from(t, u, d, p + 3, seq![], SeqEnd::InitValue, true);
                        if let Ok((init, p2)) = seq_from(t, p + 3, seq![], SeqEnd::InitValue, true) {
                            if p < p2 <= t.len() {
                                let a2 = DefAcc { body: a.body.push(SpecExpr::ValueDecl { name, is_constant, init_expr: init }), ..a };
                                if reads_alike(t, u, d, p2) {
                                    agree_definition_from(t, u, d, p2, a2, is_local);
                                } else {
                                    assert(definition_from(t, p2, a2, is_local) is Err);
                                }
                            }
                        }
                    },
                    None => match assign_at(t, p, a.body) {
                        Some(name) => {
                            agree_definition_from(
                                t,
                                u,
                                d,
                                p + 1,
                                DefAcc { body: a.body.drop_last().push(SpecExpr::Assign { name, value_expr: seq![] }), ..a },
                                is_local,
                            );
                        },
                        None => {
                            if super::grammar::peek_word_then_keyword(t, p) is Some {
                                if !is_local && !a.started {
                                    let word = super::grammar::peek_word_then_keyword(t, p)->0;
                                    if word == "本体"@ {
                                        agree_definition_from(t, u, d, p + 2, DefAcc { started: true, ..a }, is_local);
                                    } else {
                                        agree_definition(t, u, d, p, true);
                                        if let Ok((local, p2)) = definition(t, p, true) {
                                            if p < p2 <= t.len() {
                                                let a2 = DefAcc { locals: a.locals.push(local), ..a };
                                                if reads_alike(t, u, d, p2) {
                                                    agree_definition_from(t, u, d, p2, a2, is_local);
                                                } else {
                                                    assert(definition_from(t, p2, a2, is_local) is Err);
                                                }
                                            }
                                        }
                                    }
                                }
                            } else {
                                agree_seq_step(t, u, d, p, a.body, true);
                                if let Ok((body2, p2)) = seq_step(t, p, a.body, true) {
                                    if p < p2 <= t.len() {
                                        let a2 = DefAcc { body: body2, started: true, ..a };
                                        if reads_alike(t, u, d, p2) {
                                            agree_definition_from(t, u, d, p2, a2, is_local);
                                        } else {
                                            assert(definition_from(t, p2, a2, is_local) is Err);
                                        }
                                    }
                                }
                            }
                        },
                    },
                },
            }
        }
    }
}

/// The definitions read from `p` on, after those in `acc`.
proof fn program_accumulates(t: Seq<SpecToken>, p: int, acc: Seq<SpecDef>)
    ensures
        program_from(t, p, acc) == (match program_from(t, p, seq![]) {
            Ok(ds) => Ok::<Seq<SpecDef>, super::error::SpecParseError>(acc + ds),
            Err(e) => Err(e),
        }),
    decreases t.len() - p,
{
    if p < 0 || p >= t.len() {
        assert(acc + Seq::<SpecDef>::empty() =~= acc);
    } else if let Ok((d, p2)) = definition(t, p, false) {
        if p < p2 <= t.len() {
            program_accumulates(t, p2, acc.push(d));
            program_accumulates(t, p2, seq![d]);
            if let Ok(ds) = program_from(t, p2, seq![]) {
                assert(acc.push(d) + ds =~= acc + (seq![d] + ds));
            }
        }
    }
}

/// A program that is read to its end, and holds a definition, ends with
/// 「。」.
proof fn programs_end_with_a_period(t: Seq<SpecToken>, p: int, acc: Seq<SpecDef>)
    requires
        0 <= p < t.len(),
    ensures
        program_from(t, p, acc) is Ok ==> is_word(t, t.len() - 1, "。"@),
    decreases t.len() - p,
{
    super::laws::word_definitions_end_with_a_period(t, p);
    if let Ok((d, p2)) = definition(t, p, false) {
        if p < p2 < t.len() {
            programs_end_with_a_period(t, p2, acc.push(d));
        }
    }
}

/// The definitions of `t` are read alike at the front of `u`.
proof fn programs_agree_in_front(t: Seq<SpecToken>, u: Seq<SpecToken>, p: int, acc: Seq<SpecDef>)
    requires
        embeds(t, u, 0),
        0 <= p <= t.len(),
    ensures
        program_from(t, p, acc) matches Ok(ds) ==> program_from(u, p, acc) == program_from(u, t.len() as int, ds),
    decreases t.len() - p,
{
    if p < t.len() {
        agree_definition(t, u, 0, p, false);
        if let Ok((d, p2)) = definition(t, p, false) {
            if p < p2 <= t.len() {
                programs_agree_in_front(t, u, p2, acc.push(d));
            }
        }
    }
}

/// The definitions of `t` are read alike at the end of `u`.
proof fn programs_agree_at_the_end(t: Seq<SpecToken>, u: Seq<SpecToken>, d: int, q: int, acc: Seq<SpecDef>)
    requires
        embeds(t, u, d),
        runs_to_end(t, u, d),
        0 <= q,
    ensures
        program_from(t, q, acc) matches Ok(ds) ==> program_from(u, d + q, acc) == Ok::<Seq<SpecDef>, super::error::SpecParseError>(ds),
    decreases t.len() - q,
{
    if q < t.len() {
        agree_definition(t, u, d, q, false);
        if let Ok((x, p2)) = definition(t, q, false) {
            if q < p2 <= t.len() {
                programs_agree_at_the_end(t, u, d, p2, acc.push(x));
            }
        }
    }
}

/// Programs compose: the tokens of two programs, one after the other, read
/// as the definitions of the first followed by those of the second.
pub proof fn concatenated_programs_parse_to_concatenated_definitions(t1: Seq<SpecToken>, t2: Seq<SpecToken>)
    ensures
        program_from(t1, 0, seq![]) matches Ok(d1) ==> (program_from(t2, 0, seq![]) matches Ok(d2)
            ==> program_from(t1 + t2, 0, seq![]) == Ok::<Seq<SpecDef>, super::error::SpecParseError>(d1 + d2)),
{
    let u = t1 + t2;
    if let (Ok(d1), Ok(d2)) = (program_from(t1, 0, seq![]), program_from(t2, 0, seq![])) {
        if t1.len() == 0 {
            assert(u =~= t2);
            assert(d1 =~= Seq::<SpecDef>::empty());
            assert(d1 + d2 =~= d2);
        } else {
            programs_end_with_a_period(t1, 0, seq![]);
            assert(embeds(t1, u, 0)) by {
                assert forall|q: int| 0 <= q < t1.len() implies u[0 + q] == #[trigger] t1[q] by {
                    assert(u[q] == t1[q]);
                }
            }
            programs_agree_in_front(t1, u, 0, seq![]);
            assert(embeds(t2, u, t1.len() as int)) by {
                assert forall|q: int| 0 <= q < t2.len() implies u[t1.len() + q] == #[trigger] t2[q] by {
                    assert(u[t1.len() + q] == t2[q]);
                }
            }
            programs_agree_at_the_end(t2, u, t1.len() as int, 0, seq![]);
            program_accumulates(u, t1.len() as int, d1);
        }
    }
}

} // verus!
