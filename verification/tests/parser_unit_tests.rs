//! Parser tests: definitions, local words, branches, variables, subscript
//! desugaring, aliases and the scope check.

use umor::parser::parse_atom_with_subscripts;
use umor::{check_scopes, parse, parse_top_level_item, tokenize, Expr, Program, TopLevelItem};

fn parse_src(src: &str) -> Program {
    let tokens = tokenize(src).unwrap();
    parse(&tokens).unwrap_or_else(|e| panic!("parse failed for {src:?}: {e:?}"))
}

#[test]
fn mod_case1_simple_word_definition() {
    let program = parse_src("挨拶する とは、\n「こんにちは」を　表示すること。");
    assert_eq!(program.definitions.len(), 1);
    let def = &program.definitions[0];
    assert_eq!(def.locals, vec![]);
    assert_eq!(def.variables, Vec::<String>::new());
    assert_eq!(
        def.body,
        vec![
            Expr::StringLiteral("こんにちは".to_string()),
            Expr::WordCall("を".to_string()),
            Expr::WordCall("表示".to_string()),
        ]
    );
}

#[test]
fn case2_local_word_with_honntai_towa() {
    let program = parse_src(
        "親処理 とは\n    子処理 とは\n        なにかする\n    本体 とは\n        子処理\nこと。",
    );
    assert_eq!(program.definitions.len(), 1);
    let parent = &program.definitions[0];
    assert_eq!(parent.name, "親処理");
    assert_eq!(parent.variables, Vec::<String>::new());
    assert_eq!(parent.body, vec![Expr::WordCall("子処理".to_string())]);
    assert_eq!(parent.locals.len(), 1);
    let child = &parent.locals[0];
    assert_eq!(child.name, "子処理");
    assert_eq!(child.locals, vec![]);
    assert_eq!(child.variables, Vec::<String>::new());
    assert_eq!(child.body, vec![Expr::WordCall("なにかする".to_string())]);
}

#[test]
fn case3_if_else() {
    let program = parse_src(
        "判定する とは\n    雨降り？ ならば\n        傘を差す\n    そうでなければ\n        何もしない\n    つぎに\nこと。",
    );
    assert_eq!(program.definitions.len(), 1);
    let def = &program.definitions[0];
    assert_eq!(def.body.len(), 1);
    match &def.body[0] {
        Expr::IfElse {
            cond,
            then_branch,
            else_branch,
        } => {
            assert_eq!(cond, &vec![Expr::WordCall("雨降?".to_string())]);
            assert_eq!(then_branch, &vec![Expr::WordCall("傘差".to_string())]);
            assert_eq!(else_branch, &Some(vec![Expr::WordCall("何".to_string())]));
        }
        other => panic!("expected IfElse, got {other:?}"),
    }
}

#[test]
fn mod_case4_variable_declaration() {
    let program = parse_src("カウンター とは\n    X は 変数\n    0を　X に　いれる\nこと。");
    let def = &program.definitions[0];
    assert_eq!(def.variables, vec!["x".to_string()]);
    assert_eq!(
        def.body,
        vec![
            Expr::NumberLiteral(0),
            Expr::WordCall("x".to_string()),
            Expr::WordCall("に".to_string()),
            Expr::WordCall("いれる".to_string()),
        ]
    );
}

#[test]
fn case5_sibling_scope_violation_is_rejected_by_scope_check() {
    let program = parse_src(
        "親処理 とは\n    子処理１ とは\n        Y は 変数\n    子処理２ とは\n        Y に　1を　いれる\n    本体 とは\n        子処理１\n        子処理２\nこと。",
    );
    let result = check_scopes(&program);
    assert!(result.is_err());
    let errors = result.unwrap_err();
    assert!(errors.iter().any(|e| e.variable == "y"));
}

#[test]
fn case6_subscript_desugaring() {
    let tokens = tokenize("売り上げ（1）").unwrap();
    let mut pos = 0usize;
    let mut out = Vec::new();
    parse_atom_with_subscripts(&tokens, &mut pos, &mut out, false).unwrap();
    assert_eq!(
        out,
        vec![
            Expr::WordCall("売上".to_string()),
            Expr::WordCall("の".to_string()),
            Expr::NumberLiteral(1),
            Expr::WordCall("番目".to_string()),
        ]
    );
}

#[test]
fn chained_subscript_desugaring() {
    let tokens = tokenize("ダンジョンマップ（X軸座標）（Y座標）").unwrap();
    let mut pos = 0usize;
    let mut out = Vec::new();
    parse_atom_with_subscripts(&tokens, &mut pos, &mut out, false).unwrap();
    assert_eq!(
        out,
        vec![
            Expr::WordCall("ダンジョンマップ".to_string()),
            Expr::WordCall("の".to_string()),
            Expr::WordCall("x軸座標".to_string()),
            Expr::WordCall("番目".to_string()),
            Expr::WordCall("の".to_string()),
            Expr::WordCall("y座標".to_string()),
            Expr::WordCall("番目".to_string()),
        ]
    );
}

#[test]
fn no_locals_variable_is_visible_within_own_definition() {
    let program = parse_src("カウンター とは\n    X は 変数\n    0を　X に　いれる\nこと。");
    assert_eq!(check_scopes(&program), Ok(()));
}

#[test]
fn local_can_see_parent_variable() {
    let program = parse_src(
        "親処理 とは\n    X は 変数\n    子処理 とは\n        X に　1を　いれる\n    本体 とは\n        子処理\nこと。",
    );
    assert_eq!(check_scopes(&program), Ok(()));
}

#[test]
fn adr0030_alias_decl_is_recognized() {
    let tokens = tokenize("交換 も 取替 の 別名。").unwrap();
    let mut pos = 0usize;
    match parse_top_level_item(&tokens, &mut pos).unwrap() {
        TopLevelItem::Expr(exprs) => {
            assert_eq!(
                exprs,
                vec![Expr::AliasDecl {
                    new_name: "交換".to_string(),
                    existing_name: "取替".to_string(),
                }]
            );
        }
        other => panic!("expected Expr, got {other:?}"),
    }
    assert_eq!(pos, tokens.len());
}

#[test]
fn unclosed_definition_is_a_parse_error() {
    let tokens = tokenize("挨拶する とは\n「こんにちは」を　表示する").unwrap();
    assert!(parse(&tokens).is_err());
}

#[test]
fn a_position_past_the_end_is_an_unclosed_top_level_sequence() {
    let tokens = tokenize("1 表示。\n2 表示。").unwrap();
    let mut pos = tokens.len() + 3;
    let err = parse_top_level_item(&tokens, &mut pos).unwrap_err();
    assert_eq!(err.message, "トップレベルの式の列が「。」で閉じられないまま入力が終了しました");
    assert_eq!(err.token_index, tokens.len() + 3);
    assert_eq!(err.line, 2);
}

#[test]
fn two_programs_one_after_the_other_parse_to_both_definitions() {
    let t1 = tokenize("挨拶 とは 「やあ」 表示 こと。").unwrap();
    let t2 = tokenize("足す とは 加 こと。\n二倍 とは 2 掛 。").unwrap();
    let both = parse(&[t1.clone(), t2.clone()].concat()).unwrap();
    let mut want = parse(&t1).unwrap().definitions;
    want.extend(parse(&t2).unwrap().definitions);
    assert_eq!(both.definitions, want);
    assert_eq!(both.definitions.len(), 3);
}
