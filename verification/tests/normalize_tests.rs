//! Width/case normalisation, okurigana and half-width katakana tests.

use umor::tokenizer::{halfwidth_katakana_variant, normalize_okurigana, normalize_width_and_case};

#[test]
fn converts_halfwidth_katakana_to_fullwidth() {
    assert_eq!(normalize_width_and_case("ｱｲｳｴｵ"), "アイウエオ");
}

#[test]
fn combines_dakuten_and_handakuten() {
    assert_eq!(normalize_width_and_case("ﾊﾞﾋﾟｶﾞ"), "バピガ");
}

#[test]
fn converts_fullwidth_ascii_to_halfwidth() {
    assert_eq!(normalize_width_and_case("ＡＢＣ１２３"), "abc123");
}

#[test]
fn lowercases_ascii_letters() {
    assert_eq!(normalize_width_and_case("Hello"), "hello");
}

#[test]
fn leaves_kanji_and_hiragana_untouched() {
    assert_eq!(normalize_width_and_case("表示する"), "表示する");
}

#[test]
fn strips_trailing_hiragana_after_kanji() {
    assert_eq!(normalize_okurigana("反応し"), "反応");
    assert_eq!(normalize_okurigana("反応する"), "反応");
    assert_eq!(normalize_okurigana("反応させる"), "反応");
    assert_eq!(normalize_okurigana("表示する"), "表示");
    assert_eq!(normalize_okurigana("表示し"), "表示");
}

#[test]
fn strips_infix_and_suffix_hiragana_for_compound_words() {
    assert_eq!(normalize_okurigana("繰り返し"), "繰返");
    assert_eq!(normalize_okurigana("繰り返す"), "繰返");
    assert_eq!(normalize_okurigana("打ち切り"), "打切");
    assert_eq!(normalize_okurigana("打ち切る"), "打切");
    assert_eq!(normalize_okurigana("回数指定し"), "回数指定");
}

#[test]
fn keeps_all_hiragana_tokens_untouched() {
    assert_eq!(normalize_okurigana("ならば"), "ならば");
    assert_eq!(normalize_okurigana("つぎに"), "つぎに");
    assert_eq!(normalize_okurigana("さもなければ"), "さもなければ");
    assert_eq!(normalize_okurigana("ここから"), "ここから");
}

#[test]
fn keeps_leading_hiragana() {
    assert_eq!(normalize_okurigana("ご案内する"), "ご案内");
}

#[test]
fn does_not_strip_choonpu() {
    assert_eq!(normalize_okurigana("そーする"), "そーする");
}

#[test]
fn token_without_trailing_hiragana_is_unchanged() {
    assert_eq!(normalize_okurigana("表示"), "表示");
    assert_eq!(normalize_okurigana("円"), "円");
}

#[test]
fn maps_plain_kana() {
    assert_eq!(halfwidth_katakana_variant('ｱ'), Some(('ア', None, None)));
}

#[test]
fn maps_voiced_and_semivoiced_variants() {
    assert_eq!(
        halfwidth_katakana_variant('ﾊ'),
        Some(('ハ', Some('バ'), Some('パ')))
    );
    assert_eq!(halfwidth_katakana_variant('ｶ'), Some(('カ', Some('ガ'), None)));
}

#[test]
fn non_halfwidth_katakana_returns_none() {
    assert_eq!(halfwidth_katakana_variant('あ'), None);
    assert_eq!(halfwidth_katakana_variant('A'), None);
}

#[test]
fn stripping_okurigana_twice_is_stripping_once() {
    for w in ["繰り返し", "ご案内する", "ならば", "打ち切り", "反応させる", "そーする"] {
        let once = normalize_okurigana(w);
        assert_eq!(normalize_okurigana(&once), once);
    }
}

#[test]
fn fullwidth_ascii_names_its_halfwidth_form() {
    for (full, half) in [("！", "!"), ("～", "~"), ("Ｚ", "Z"), ("９", "9")] {
        assert_eq!(normalize_width_and_case(full), normalize_width_and_case(half));
    }
}

#[test]
fn normalising_twice_is_normalising_once() {
    let s = "ｶﾞｷﾞＡＢＣ　漢字ﾟﾊﾟ｢Ｘ｣ー";
    let once = normalize_width_and_case(s);
    assert_eq!(once, "ガギabc 漢字ﾟパ「x」ー");
    assert_eq!(normalize_width_and_case(&once), once);
}
