//! Lexer acceptance cases: splitting, okurigana, numbers, comments, quoting.

use umor::{tokenize, TokenKind};

#[test]
fn case1_basic_wakachigaki_and_okurigana_removal() {
    let tokens = tokenize("「こんにちは。」を　表示する").unwrap();
    let kinds: Vec<TokenKind> = tokens.into_iter().map(|t| t.kind).collect();
    assert_eq!(
        kinds,
        vec![
            TokenKind::StringLiteral("こんにちは。".to_string()),
            TokenKind::Word("を".to_string()),
            TokenKind::Word("表示".to_string()),
        ]
    );
}

#[test]
fn case2_okurigana_variants_normalize_to_same_word() {
    for input in ["反応し", "反応する", "反応させる"] {
        let tokens = tokenize(input).unwrap();
        assert_eq!(tokens.len(), 1);
        assert_eq!(tokens[0].kind, TokenKind::Word("反応".to_string()));
    }
}

#[test]
fn case3_all_hiragana_words_are_not_stripped() {
    assert_eq!(
        tokenize("ならば").unwrap()[0].kind,
        TokenKind::Word("ならば".to_string())
    );
    assert_eq!(
        tokenize("つぎに").unwrap()[0].kind,
        TokenKind::Word("つぎに".to_string())
    );
    assert_eq!(
        tokenize("さもなければ").unwrap()[0].kind,
        TokenKind::Word("さもなければ".to_string())
    );
}

#[test]
fn case4_number_and_josuushi() {
    let tokens = tokenize("５６０円を　売り上げに　入れ").unwrap();
    assert_eq!(
        tokens[0].kind,
        TokenKind::NumberLiteral("５６０".to_string())
    );
    assert!(!tokens
        .iter()
        .any(|t| matches!(&t.kind, TokenKind::Word(w) if w.chars().any(|c| c.is_ascii_digit() || ('\u{FF10}'..='\u{FF19}').contains(&c)))));
}

#[test]
fn case5_parenthetical_comment_is_excluded() {
    let tokens = tokenize("「こんにちは。」を 表示すること。 　　（これは暫定的な表示）").unwrap();
    for t in &tokens {
        match &t.kind {
            TokenKind::Word(w) => assert!(!w.contains("暫定的")),
            TokenKind::StringLiteral(s) => assert!(!s.contains("暫定的")),
            TokenKind::NumberLiteral(s) => assert!(!s.contains("暫定的")),
            TokenKind::CharLiteral(_) => {}
            TokenKind::OpenParen | TokenKind::CloseParen => {}
        }
    }
}

#[test]
fn case6_unsegmented_long_word_stays_one_token() {
    let tokens = tokenize("赤い色で表示する").unwrap();
    assert_eq!(tokens.len(), 1);
    assert!(matches!(&tokens[0].kind, TokenKind::Word(_)));
}

#[test]
fn adr0024_hiragana_word_particle_splitting() {
    let tokens = tokenize("ほにに ほにを ほには ほにが ほにへ ほにと ほにで ほにも ほにや ほにから ほにまで ほにより").unwrap();
    let words: Vec<&str> = tokens
        .iter()
        .filter_map(|t| match &t.kind {
            TokenKind::Word(w) => Some(w.as_str()),
            _ => None,
        })
        .collect();
    assert_eq!(
        words,
        vec![
            "ほに", "に",
            "ほに", "を",
            "ほに", "は",
            "ほに", "が",
            "ほに", "へ",
            "ほに", "と",
            "ほに", "で",
            "ほに", "も",
            "ほに", "や",
            "ほに", "から",
            "ほに", "まで",
            "ほに", "より",
        ]
    );
}

#[test]
fn adr0024_protected_keywords_are_not_split() {
    for kw in [
        "ここから",
        "つぎに",
        "こと",
        "とは",
        "ならば",
        "そうでなければ",
        "さよなら",
        "または",
    ] {
        let tokens = tokenize(kw).unwrap();
        assert_eq!(tokens.len(), 1);
        assert_eq!(tokens[0].kind, TokenKind::Word(kw.to_string()));
    }
}

#[test]
fn adr0032_quoted_identifiers_with_kagi_and_curly_quotes() {
    let tokens = tokenize("『わに』に 『ほげ』を").unwrap();
    let words: Vec<&str> = tokens
        .iter()
        .filter_map(|t| match &t.kind {
            TokenKind::Word(w) => Some(w.as_str()),
            _ => None,
        })
        .collect();
    assert_eq!(words, vec!["わに", "に", "ほげ", "を"]);

    let tokens = tokenize("“わに”に “ほげ”を").unwrap();
    let words: Vec<&str> = tokens
        .iter()
        .filter_map(|t| match &t.kind {
            TokenKind::Word(w) => Some(w.as_str()),
            _ => None,
        })
        .collect();
    assert_eq!(words, vec!["わに", "に", "ほげ", "を"]);

    let tokens = tokenize("『わに』").unwrap();
    assert_eq!(tokens.len(), 1);
    assert_eq!(tokens[0].kind, TokenKind::Word("わに".to_string()));
}


#[test]
fn an_unclosed_block_comment_is_reported_at_its_opening_slash() {
    let err = tokenize("1 2 加\n  表示 ／* まだ /* 閉じない */ \n").unwrap_err();
    assert_eq!(err.message, "ブロックコメントが閉じられていません");
    assert_eq!((err.line, err.column), (2, 6));
    assert!(tokenize("1 2 加 表示。\n「*」 表示。 * \\ ").is_ok());
}

#[test]
fn token_lines_follow_the_text_in_order() {
    let lines: Vec<usize> = tokenize("あ\nい\nう").unwrap().iter().map(|t| t.line).collect();
    assert_eq!(lines, vec![1, 2, 3]);
    let lines: Vec<usize> = tokenize("「一\n二」 三\n/* x\ny */ 四 ※ 五\n六").unwrap().iter().map(|t| t.line).collect();
    assert_eq!(lines, vec![1, 2, 4, 5]);
}
