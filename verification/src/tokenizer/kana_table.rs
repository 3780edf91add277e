//! Half-width katakana to full-width katakana (JIS X 0201).  Each entry
//! gives the full-width base form and, where they exist, the forms with the
//! voiced mark (U+FF9E) and the semi-voiced mark (U+FF9F) applied.
use vstd::prelude::*;

verus! {

/// The voiced-sound mark that may follow a half-width katakana (U+FF9E).
pub const VOICED_MARK: char = '\u{FF9E}';
/// The semi-voiced-sound mark that may follow a half-width katakana (U+FF9F).
pub const SEMI_VOICED_MARK: char = '\u{FF9F}';

/// The conversion entry of a half-width katakana (or half-width
/// punctuation) character: `(base, voiced, semi_voiced)`; `None` for every
/// other character.
pub open spec fn katakana_entry(c: char) -> Option<(char, Option<char>, Option<char>)> {
    match c {
        '｡' => Some(('。', None, None)),
        '｢' => Some(('「', None, None)),
        '｣' => Some(('」', None, None)),
        '､' => Some(('、', None, None)),
        '･' => Some(('・', None, None)),
        'ｦ' => Some(('ヲ', None, None)),
        'ｧ' => Some(('ァ', None, None)),
        'ｨ' => Some(('ィ', None, None)),
        'ｩ' => Some(('ゥ', None, None)),
        'ｪ' => Some(('ェ', None, None)),
        'ｫ' => Some(('ォ', None, None)),
        'ｬ' => Some(('ャ', None, None)),
        'ｭ' => Some(('ュ', None, None)),
        'ｮ' => Some(('ョ', None, None)),
        'ｯ' => Some(('ッ', None, None)),
        'ｰ' => Some(('ー', None, None)),
        'ｱ' => Some(('ア', None, None)),
        'ｲ' => Some(('イ', None, None)),
        'ｳ' => Some(('ウ', Some('ヴ'), None)),
        'ｴ' => Some(('エ', None, None)),
        'ｵ' => Some(('オ', None, None)),
        'ｶ' => Some(('カ', Some('ガ'), None)),
        'ｷ' => Some(('キ', Some('ギ'), None)),
        'ｸ' => Some(('ク', Some('グ'), None)),
        'ｹ' => Some(('ケ', Some('ゲ'), None)),
        'ｺ' => Some(('コ', Some('ゴ'), None)),
        'ｻ' => Some(('サ', Some('ザ'), None)),
        'ｼ' => Some(('シ', Some('ジ'), None)),
        'ｽ' => Some(('ス', Some('ズ'), None)),
        'ｾ' => Some(('セ', Some('ゼ'), None)),
        'ｿ' => Some(('ソ', Some('ゾ'), None)),
        'ﾀ' => Some(('タ', Some('ダ'), None)),
        'ﾁ' => Some(('チ', Some('ヂ'), None)),
        'ﾂ' => Some(('ツ', Some('ヅ'), None)),
        'ﾃ' => Some(('テ', Some('デ'), None)),
        'ﾄ' => Some(('ト', Some('ド'), None)),
        'ﾅ' => Some(('ナ', None, None)),
        'ﾆ' => Some(('ニ', None, None)),
        'ﾇ' => Some(('ヌ', None, None)),
        'ﾈ' => Some(('ネ', None, None)),
        'ﾉ' => Some(('ノ', None, None)),
        'ﾊ' => Some(('ハ', Some('バ'), Some('パ'))),
        'ﾋ' => Some(('ヒ', Some('ビ'), Some('ピ'))),
        'ﾌ' => Some(('フ', Some('ブ'), Some('プ'))),
        'ﾍ' => Some(('ヘ', Some('ベ'), Some('ペ'))),
        'ﾎ' => Some(('ホ', Some('ボ'), Some('ポ'))),
        'ﾏ' => Some(('マ', None, None)),
        'ﾐ' => Some(('ミ', None, None)),
        'ﾑ' => Some(('ム', None, None)),
        'ﾒ' => Some(('メ', None, None)),
        'ﾓ' => Some(('モ', None, None)),
        'ﾔ' => Some(('ヤ', None, None)),
        'ﾕ' => Some(('ユ', None, None)),
        'ﾖ' => Some(('ヨ', None, None)),
        'ﾗ' => Some(('ラ', None, None)),
        'ﾘ' => Some(('リ', None, None)),
        'ﾙ' => Some(('ル', None, None)),
        'ﾚ' => Some(('レ', None, None)),
        'ﾛ' => Some(('ロ', None, None)),
        'ﾜ' => Some(('ワ', None, None)),
        'ﾝ' => Some(('ン', None, None)),
        _ => None,
    }
}

/// The conversion entry of `c` (see [`katakana_entry`]).
pub fn halfwidth_katakana_variant(c: char) -> (r: Option<(char, Option<char>, Option<char>)>)
    ensures
        r == katakana_entry(c),
{
    match c {
        '｡' => Some(('。', None, None)),
        '｢' => Some(('「', None, None)),
        '｣' => Some(('」', None, None)),
        '､' => Some(('、', None, None)),
        '･' => Some(('・', None, None)),
        'ｦ' => Some(('ヲ', None, None)),
        'ｧ' => Some(('ァ', None, None)),
        'ｨ' => Some(('ィ', None, None)),
        'ｩ' => Some(('ゥ', None, None)),
        'ｪ' => Some(('ェ', None, None)),
        'ｫ' => Some(('ォ', None, None)),
        'ｬ' => Some(('ャ', None, None)),
        'ｭ' => Some(('ュ', None, None)),
        'ｮ' => Some(('ョ', None, None)),
        'ｯ' => Some(('ッ', None, None)),
        'ｰ' => Some(('ー', None, None)),
        'ｱ' => Some(('ア', None, None)),
        'ｲ' => Some(('イ', None, None)),
        'ｳ' => Some(('ウ', Some('ヴ'), None)),
        'ｴ' => Some(('エ', None, None)),
        'ｵ' => Some(('オ', None, None)),
        'ｶ' => Some(('カ', Some('ガ'), None)),
        'ｷ' => Some(('キ', Some('ギ'), None)),
        'ｸ' => Some(('ク', Some('グ'), None)),
        'ｹ' => Some(('ケ', Some('ゲ'), None)),
        'ｺ' => Some(('コ', Some('ゴ'), None)),
        'ｻ' => Some(('サ', Some('ザ'), None)),
        'ｼ' => Some(('シ', Some('ジ'), None)),
        'ｽ' => Some(('ス', Some('ズ'), None)),
        'ｾ' => Some(('セ', Some('ゼ'), None)),
        'ｿ' => Some(('ソ', Some('ゾ'), None)),
        'ﾀ' => Some(('タ', Some('ダ'), None)),
        'ﾁ' => Some(('チ', Some('ヂ'), None)),
        'ﾂ' => Some(('ツ', Some('ヅ'), None)),
        'ﾃ' => Some(('テ', Some('デ'), None)),
        'ﾄ' => Some(('ト', Some('ド'), None)),
        'ﾅ' => Some(('ナ', None, None)),
        'ﾆ' => Some(('ニ', None, None)),
        'ﾇ' => Some(('ヌ', None, None)),
        'ﾈ' => Some(('ネ', None, None)),
        'ﾉ' => Some(('ノ', None, None)),
        'ﾊ' => Some(('ハ', Some('バ'), Some('パ'))),
        'ﾋ' => Some(('ヒ', Some('ビ'), Some('ピ'))),
        'ﾌ' => Some(('フ', Some('ブ'), Some('プ'))),
        'ﾍ' => Some(('ヘ', Some('ベ'), Some('ペ'))),
        'ﾎ' => Some(('ホ', Some('ボ'), Some('ポ'))),
        'ﾏ' => Some(('マ', None, None)),
        'ﾐ' => Some(('ミ', None, None)),
        'ﾑ' => Some(('ム', None, None)),
        'ﾒ' => Some(('メ', None, None)),
        'ﾓ' => Some(('モ', None, None)),
        'ﾔ' => Some(('ヤ', None, None)),
        'ﾕ' => Some(('ユ', None, None)),
        'ﾖ' => Some(('ヨ', None, None)),
        'ﾗ' => Some(('ラ', None, None)),
        'ﾘ' => Some(('リ', None, None)),
        'ﾙ' => Some(('ル', None, None)),
        'ﾚ' => Some(('レ', None, None)),
        'ﾛ' => Some(('ロ', None, None)),
        'ﾜ' => Some(('ワ', None, None)),
        'ﾝ' => Some(('ン', None, None)),
        _ => None,
    }
}

} // verus!
