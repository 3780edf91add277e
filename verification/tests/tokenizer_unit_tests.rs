//! Lexer tests: splitting, literals, comments, normalisation.

use umor::tokenizer::{tokenize, Token, TokenKind};

fn words(tokens: &[Token]) -> Vec<&str> {
    tokens
        .iter()
        .filter_map(|t| match &t.kind {
            TokenKind::Word(w) => Some(w.as_str()),
            _ => None,
        })
        .collect()
}

#[test]
fn splits_on_various_delimiters() {
    let tokens = tokenize("あ　い,う，え､お、か").unwrap();
    let ws = words(&tokens);
    assert_eq!(ws, vec!["あ", "い", "う", "え", "お", "か"]);
}

#[test]
fn okurigana_variants_normalize_to_same_word() {
    for input in ["反応し", "反応する", "反応させる"] {
        let tokens = tokenize(input).unwrap();
        assert_eq!(tokens.len(), 1);
        assert_eq!(tokens[0].kind, TokenKind::Word("反応".to_string()));
    }
}

#[test]
fn all_hiragana_words_are_preserved() {
    for input in ["ならば", "つぎに", "さもなければ"] {
        let tokens = tokenize(input).unwrap();
        assert_eq!(tokens.len(), 1);
        assert_eq!(tokens[0].kind, TokenKind::Word(input.to_string()));
    }
}

#[test]
fn unsegmented_long_string_is_a_single_word() {
    let tokens = tokenize("赤い色で表示する").unwrap();
    assert_eq!(tokens.len(), 1);
    match &tokens[0].kind {
        TokenKind::Word(w) => assert_eq!(w, "赤色表示"),
        other => panic!("expected Word, got {other:?}"),
    }
}

#[test]
fn string_literal_with_kagi_brackets() {
    let tokens = tokenize("「こんにちは。」を　表示する").unwrap();
    assert_eq!(
        tokens[0].kind,
        TokenKind::StringLiteral("こんにちは。".to_string())
    );
    assert_eq!(tokens[1].kind, TokenKind::Word("を".to_string()));
    assert_eq!(tokens[2].kind, TokenKind::Word("表示".to_string()));
}

#[test]
fn string_literal_with_double_quotes() {
    let tokens = tokenize(r#""hello world""#).unwrap();
    assert_eq!(
        tokens[0].kind,
        TokenKind::StringLiteral("hello world".to_string())
    );
}

#[test]
fn char_literal() {
    let tokens = tokenize("'A'").unwrap();
    assert_eq!(tokens[0].kind, TokenKind::CharLiteral('A'));
}

#[test]
fn number_literal_suffix_is_folded_away_per_adr_0002() {
    let tokens = tokenize("５６０円を　売り上げに　入れ").unwrap();
    assert_eq!(
        tokens[0].kind,
        TokenKind::NumberLiteral("５６０".to_string())
    );
    assert!(!tokens
        .iter()
        .any(|t| matches!(&t.kind, TokenKind::Word(w) if w == "円")));
    assert_eq!(words(&tokens), vec!["売上", "入"]);
}

#[test]
fn counter_word_adjacent_to_number_is_folded_not_a_separate_word() {
    let tokens = tokenize("1つ　摘み").unwrap();
    assert_eq!(tokens[0].kind, TokenKind::NumberLiteral("1".to_string()));
    assert_eq!(words(&tokens), vec!["摘"]);
}

#[test]
fn counter_word_separated_by_space_stays_an_independent_word() {
    let tokens = tokenize("1 番目").unwrap();
    assert_eq!(tokens[0].kind, TokenKind::NumberLiteral("1".to_string()));
    assert_eq!(words(&tokens), vec!["番目"]);
}

#[test]
fn plain_number_literal() {
    let tokens = tokenize("-1.23E-2").unwrap();
    assert_eq!(tokens.len(), 1);
    assert_eq!(
        tokens[0].kind,
        TokenKind::NumberLiteral("-1.23E-2".to_string())
    );
}

#[test]
fn parenthetical_comment_is_removed() {
    let tokens =
        tokenize("「こんにちは。」を 表示すること。 　　（これは暫定的な表示）").unwrap();
    for t in &tokens {
        match &t.kind {
            TokenKind::Word(w) => assert!(!w.contains("暫定的")),
            TokenKind::StringLiteral(s) => assert!(!s.contains("暫定的")),
            _ => {}
        }
    }
}

#[test]
fn halfwidth_paren_comment_is_removed() {
    let tokens = tokenize("表示する (これはコメント)").unwrap();
    assert_eq!(tokens.len(), 1);
    assert_eq!(tokens[0].kind, TokenKind::Word("表示".to_string()));
}

#[test]
fn line_comment_runs_to_end_of_line() {
    let tokens = tokenize("表示する ※ ここはコメント\n実行する").unwrap();
    let ws = words(&tokens);
    assert_eq!(ws, vec!["表示", "実行"]);
}

#[test]
fn block_comment_is_removed() {
    let tokens =
        tokenize("表示する コンパイル抑止。 これは無効 コンパイル抑止終り。 実行する").unwrap();
    let ws = words(&tokens);
    assert_eq!(ws, vec!["表示", "実行"]);
}

#[test]
fn keyword_suffix_with_no_space_is_absorbed_as_okurigana() {
    let tokens = tokenize("挨拶するとは").unwrap();
    assert_eq!(tokens.len(), 1);
    assert_eq!(tokens[0].kind, TokenKind::Word("挨拶".to_string()));
}

#[test]
fn standalone_keyword_is_not_split_further() {
    let tokens = tokenize("とは").unwrap();
    assert_eq!(tokens.len(), 1);
    assert_eq!(tokens[0].kind, TokenKind::Word("とは".to_string()));
}

#[test]
fn wa_particle_with_leading_space_stays_a_separate_token() {
    let tokens = tokenize("Xは 変数").unwrap();
    assert_eq!(words(&tokens), vec!["x", "変数"]);

    let tokens = tokenize("X は 変数").unwrap();
    assert_eq!(words(&tokens), vec!["x", "は", "変数"]);
}

#[test]
fn period_is_always_its_own_token() {
    let tokens = tokenize("すること。").unwrap();
    let kinds: Vec<&TokenKind> = tokens.iter().map(|t| &t.kind).collect();
    assert_eq!(
        kinds,
        vec![
            &TokenKind::Word("すること".to_string()),
            &TokenKind::Word("。".to_string()),
        ]
    );
}

#[test]
fn paren_adjacent_to_preceding_word_is_subscript_access() {
    let tokens = tokenize("売り上げ（1）").unwrap();
    assert_eq!(
        tokens.iter().map(|t| &t.kind).collect::<Vec<_>>(),
        vec![
            &TokenKind::Word("売上".to_string()),
            &TokenKind::OpenParen,
            &TokenKind::NumberLiteral("1".to_string()),
            &TokenKind::CloseParen,
        ]
    );
}

#[test]
fn chained_subscript_access_produces_two_bracket_pairs() {
    let tokens = tokenize("ダンジョンマップ（X軸座標）（Y座標）").unwrap();
    let kinds: Vec<&TokenKind> = tokens.iter().map(|t| &t.kind).collect();
    assert_eq!(
        kinds,
        vec![
            &TokenKind::Word("ダンジョンマップ".to_string()),
            &TokenKind::OpenParen,
            &TokenKind::Word("x軸座標".to_string()),
            &TokenKind::CloseParen,
            &TokenKind::OpenParen,
            &TokenKind::Word("y座標".to_string()),
            &TokenKind::CloseParen,
        ]
    );
}

#[test]
fn paren_preceded_by_space_is_still_a_comment_not_subscript() {
    let tokens = tokenize("実行する （これは説明）").unwrap();
    let ws = words(&tokens);
    assert_eq!(ws, vec!["実行"]);
    assert!(!tokens
        .iter()
        .any(|t| matches!(t.kind, TokenKind::OpenParen | TokenKind::CloseParen)));
}

#[test]
fn line_numbers_are_tracked() {
    let tokens = tokenize("あ\nい\nう").unwrap();
    assert_eq!(tokens[0].line, 1);
    assert_eq!(tokens[1].line, 2);
    assert_eq!(tokens[2].line, 3);
}

#[test]
fn raw_form_is_preserved_before_normalization() {
    let tokens = tokenize("ﾊﾞｽﾞる").unwrap();
    match &tokens[0].kind {
        TokenKind::Word(w) => assert_eq!(w, "バズ"),
        other => panic!("expected Word, got {other:?}"),
    }
    assert_eq!(tokens[0].raw, "ﾊﾞｽﾞる");
}

#[test]
fn slash_line_comment_is_equivalent_to_mind_comment() {
    let a = tokenize("5 を X に いれる ※ Mindスタイル").unwrap();
    let b = tokenize("5 を X に いれる // Cスタイル").unwrap();
    let c = tokenize("5 を X に いれる ／／ 全角Cスタイル").unwrap();
    let expected = vec![
        TokenKind::NumberLiteral("5".to_string()),
        TokenKind::Word("を".to_string()),
        TokenKind::Word("x".to_string()),
        TokenKind::Word("に".to_string()),
        TokenKind::Word("いれる".to_string()),
    ];
    for tokens in [a, b, c] {
        let kinds: Vec<TokenKind> = tokens.into_iter().map(|t| t.kind).collect();
        assert_eq!(kinds, expected);
    }
}

#[test]
fn mixed_width_slash_line_comment_is_recognized() {
    let tokens = tokenize("表示する /／ 半角全角混在\n実行する").unwrap();
    assert_eq!(words(&tokens), vec!["表示", "実行"]);
}

#[test]
fn nested_block_comments_are_fully_removed() {
    let tokens = tokenize(
        "処理 とは\n    /* これは\n       /* ネストした */\n       コメント全体 */\n    なにかする\nこと。",
    )
    .unwrap();
    for t in &tokens {
        if let TokenKind::Word(w) = &t.kind {
            assert!(!w.contains("これ"));
            assert!(!w.contains("ネスト"));
            assert!(!w.contains("コメント全体"));
        }
    }
    assert!(words(&tokens).contains(&"なにかする"));
}

#[test]
fn fullwidth_block_comment_marker_is_removed() {
    let tokens = tokenize("／＊ 全角開始、半角終了 */\nなにかする").unwrap();
    assert_eq!(words(&tokens), vec!["なにかする"]);
}

#[test]
fn unterminated_block_comment_is_a_lex_error() {
    let err = tokenize("処理 とは\n    /* 閉じ忘れ\n    なにかする\nこと。").unwrap_err();
    assert_eq!(err.line, 2);
}

#[test]
fn slash_inside_string_literal_is_not_a_comment() {
    let tokens = tokenize("「// これはコメントではない」を 表示する").unwrap();
    assert_eq!(
        tokens[0].kind,
        TokenKind::StringLiteral("// これはコメントではない".to_string())
    );
    assert_eq!(words(&tokens), vec!["を", "表示"]);
}
