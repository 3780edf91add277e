//! Properties of word normalisation that hold for every input.
use vstd::prelude::*;
use super::normalize::{ascii_lowercase, fullwidth_to_halfwidth, lower_case, spec_normalize_width_and_case};
use super::kana_table::katakana_entry;
use super::{is_slash, is_star};
use super::{classify, tok, SpecToken, SpecTokenKind};
use super::scan::{
    count_nl, flush, lex_from, lex_rule, lex_step, line_col, scan_block, scan_to, spec_tokenize,
    unclosed_block_message, LexState,
};
use super::okurigana::{
    all_kana_or_bar, drop_hiragana, is_first_non_kana, is_kana_or_bar, spec_is_hiragana,
    spec_okurigana,
};

verus! {

/// The characters that words are made of: ASCII, CJK punctuation and kana
/// (U+3000..=U+30FF), the CJK unified ideographs (U+4E00..=U+9FFF), and the
/// full-width and half-width forms (U+FF01..=U+FF9F).
pub open spec fn is_word_char(c: char) -> bool {
    ||| (c as u32) < 128
    ||| 0x3000 <= c as u32 <= 0x30FF
    ||| 0x4E00 <= c as u32 <= 0x9FFF
    ||| 0xFF01 <= c as u32 <= 0xFF9F
}

/// A character that width and case normalisation leaves as it is, whatever
/// follows it.
spec fn norm_fixed(c: char) -> bool {
    &&& katakana_entry(c) is None
    &&& c != '\u{3000}'
    &&& fullwidth_to_halfwidth(c) is None
    &&& lower_case(c) == seq![c]
}

/// Only half-width katakana and punctuation have a conversion entry, and
/// they convert to full-width characters of U+3001..=U+30FC.
proof fn katakana_entries_are_fullwidth(c: char)
    ensures
        katakana_entry(c) is Some ==> 0xFF61 <= c as u32 <= 0xFF9D,
        katakana_entry(c) matches Some((b, v, sv)) ==> {
            &&& 0x3001 <= b as u32 <= 0x30FC
            &&& (v matches Some(x) ==> 0x3001 <= x as u32 <= 0x30FC)
            &&& (sv matches Some(x) ==> 0x3001 <= x as u32 <= 0x30FC)
        },
{
}

proof fn kana_and_ideographs_are_fixed(c: char)
    requires
        0x3001 <= c as u32 <= 0x30FF || 0x4E00 <= c as u32 <= 0x9FFF || 0xFF5F <= c as u32 <= 0xFF9F,
        katakana_entry(c) is None,
    ensures
        norm_fixed(c),
{
}

proof fn other_word_chars_are_caseless(c: char)
    requires
        is_word_char(c),
        (c as u32) >= 128,
        c != '\u{3000}',
        fullwidth_to_halfwidth(c) is None,
    ensures
        0x3001 <= c as u32 <= 0x30FF || 0x4E00 <= c as u32 <= 0x9FFF || 0xFF5F <= c as u32 <= 0xFF9F,
{
}

proof fn lower_ascii_is_fixed(c: char)
    requires
        (c as u32) < 128,
    ensures
        norm_fixed(ascii_lowercase(c)),
{
    katakana_entries_are_fullwidth(c);
    let l = ascii_lowercase(c);
    if 'A' <= c <= 'Z' {
        assert((l as u32) == (c as u32) + 32);
    }
    assert((l as u32) < 128);
    katakana_entries_are_fullwidth(l);
    assert(!('A' <= l <= 'Z'));
}

/// A text of characters that normalisation leaves as they are is its own
/// normal form.
proof fn fixed_text_is_normal(s: Seq<char>)
    requires
        forall|i: int| 0 <= i < s.len() ==> norm_fixed(#[trigger] s[i]),
    ensures
        spec_normalize_width_and_case(s) == s,
    decreases s.len(),
{
    if s.len() > 0 {
        assert(norm_fixed(s[0]));
        let t = s.skip(1);
        assert forall|i: int| 0 <= i < t.len() implies norm_fixed(#[trigger] t[i]) by {
            assert(t[i] == s[i + 1]);
        }
        fixed_text_is_normal(t);
        assert(seq![s[0]] + t =~= s);
    }
}

/// Normalising a text of word characters gives characters that
/// normalisation leaves as they are.
proof fn normal_form_is_fixed(s: Seq<char>)
    requires
        forall|i: int| 0 <= i < s.len() ==> is_word_char(#[trigger] s[i]),
    ensures
        forall|i: int| 0 <= i < spec_normalize_width_and_case(s).len()
            ==> norm_fixed(#[trigger] spec_normalize_width_and_case(s)[i]),
    decreases s.len(),
{
    if s.len() > 0 {
        let c = s[0];
        assert(is_word_char(c));
        katakana_entries_are_fullwidth(c);
        let n = spec_normalize_width_and_case(s);
        let head: Seq<char> = match katakana_entry(c) {
            Some((base, voiced, semi)) => {
                if s.len() >= 2 && s[1] == super::kana_table::VOICED_MARK && voiced is Some {
                    seq![voiced->0]
                } else if s.len() >= 2 && s[1] == super::kana_table::SEMI_VOICED_MARK && semi is Some {
                    seq![semi->0]
                } else {
                    seq![base]
                }
            },
            None => if c == '\u{3000}' {
                seq![' ']
            } else {
                match fullwidth_to_halfwidth(c) {
                    Some(h) => lower_case(h),
                    None => lower_case(c),
                }
            },
        };
        let k: int = match katakana_entry(c) {
            Some((base, voiced, semi)) => {
                if s.len() >= 2 && s[1] == super::kana_table::VOICED_MARK && voiced is Some {
                    2
                } else if s.len() >= 2 && s[1] == super::kana_table::SEMI_VOICED_MARK && semi is Some {
                    2
                } else {
                    1
                }
            },
            None => 1,
        };
        let rest = s.skip(k);
        assert(n == head + spec_normalize_width_and_case(rest));
        assert forall|i: int| 0 <= i < rest.len() implies is_word_char(#[trigger] rest[i]) by {
            assert(rest[i] == s[i + k]);
        }
        normal_form_is_fixed(rest);
        assert forall|i: int| 0 <= i < head.len() implies norm_fixed(#[trigger] head[i]) by {
            match katakana_entry(c) {
                Some((base, voiced, semi)) => {
                    katakana_entries_are_fullwidth(head[i]);
                    kana_and_ideographs_are_fixed(head[i]);
                },
                None => {
                    if c == '\u{3000}' {
                        lower_ascii_is_fixed(' ');
                    } else {
                        match fullwidth_to_halfwidth(c) {
                            Some(h) => {
                                assert((h as u32) < 128);
                                lower_ascii_is_fixed(h);
                            },
                            None => {
                                if (c as u32) < 128 {
                                    lower_ascii_is_fixed(c);
                                } else {
                                    other_word_chars_are_caseless(c);
                                    kana_and_ideographs_are_fixed(c);
                                }
                            },
                        }
                    }
                },
            }
        }
        assert forall|i: int| 0 <= i < n.len() implies norm_fixed(#[trigger] n[i]) by {
            if i < head.len() {
                assert(n[i] == head[i]);
            } else {
                assert(n[i] == spec_normalize_width_and_case(rest)[i - head.len()]);
            }
        }
    }
}

/// Width and case normalisation of a text of word characters is
/// idempotent: normalising its normal form changes nothing.
pub proof fn normalize_width_and_case_is_idempotent(s: Seq<char>)
    requires
        forall|i: int| 0 <= i < s.len() ==> is_word_char(#[trigger] s[i]),
    ensures
        spec_normalize_width_and_case(spec_normalize_width_and_case(s)) == spec_normalize_width_and_case(s),
{
    normal_form_is_fixed(s);
    fixed_text_is_normal(spec_normalize_width_and_case(s));
}

/// Removing hiragana from a concatenation removes them from each part.
pub proof fn drop_hiragana_concat(a: Seq<char>, b: Seq<char>)
    ensures
        drop_hiragana(a + b) == drop_hiragana(a) + drop_hiragana(b),
    decreases b.len(),
{
    if b.len() == 0 {
        assert(a + b =~= a);
        assert(drop_hiragana(a) + drop_hiragana(b) =~= drop_hiragana(a));
    } else {
        assert((a + b).drop_last() =~= a + b.drop_last());
        assert((a + b).last() == b.last());
        drop_hiragana_concat(a, b.drop_last());
        if spec_is_hiragana(b.last()) {
        } else {
            assert(drop_hiragana(a) + drop_hiragana(b.drop_last()).push(b.last())
                =~= (drop_hiragana(a) + drop_hiragana(b.drop_last())).push(b.last()));
        }
    }
}

/// Hiragana alone leave nothing.
pub proof fn drop_hiragana_of_hiragana(h: Seq<char>)
    requires
        forall|i: int| 0 <= i < h.len() ==> spec_is_hiragana(#[trigger] h[i]),
    ensures
        drop_hiragana(h) == Seq::<char>::empty(),
    decreases h.len(),
{
    if h.len() > 0 {
        assert(spec_is_hiragana(h[h.len() - 1]));
        drop_hiragana_of_hiragana(h.drop_last());
    }
}

/// What is left after removing hiragana holds no hiragana, so removing them
/// again changes nothing.
pub proof fn drop_hiragana_is_idempotent(s: Seq<char>)
    ensures
        drop_hiragana(drop_hiragana(s)) == drop_hiragana(s),
        forall|i: int| 0 <= i < drop_hiragana(s).len() ==> !spec_is_hiragana(#[trigger] drop_hiragana(s)[i]),
    decreases s.len(),
{
    if s.len() > 0 {
        drop_hiragana_is_idempotent(s.drop_last());
        if !spec_is_hiragana(s.last()) {
            let d = drop_hiragana(s.drop_last());
            assert(d.push(s.last()).drop_last() =~= d);
        }
    }
}

/// A word that is all hiragana (and 「ー」) is kept as it is.
pub proof fn kana_words_are_kept(s: Seq<char>)
    requires
        all_kana_or_bar(s),
    ensures
        spec_okurigana(s) == s,
{
}

/// The hiragana before the first other character are kept, and that
/// character too.
pub proof fn leading_kana_are_kept(s: Seq<char>, k: int)
    requires
        is_first_non_kana(s, k),
    ensures
        spec_okurigana(s).take(k) == s.take(k),
        spec_okurigana(s)[k] == s[k],
{
    assert(!all_kana_or_bar(s)) by {
        assert(!is_kana_or_bar(s[k]));
    }
    let k2 = choose|k2: int| is_first_non_kana(s, k2);
    lemma_first_unique(s, k, k2);
    let rest = s.skip(k);
    assert(rest =~= seq![s[k]] + rest.skip(1));
    drop_hiragana_concat(seq![s[k]], rest.skip(1));
    assert(drop_hiragana(seq![s[k]]) =~= seq![s[k]]) by {
        let one = seq![s[k]];
        assert(one.drop_last() =~= Seq::<char>::empty());
        assert(one.last() == s[k]);
        assert(drop_hiragana(Seq::<char>::empty()) == Seq::<char>::empty());
        assert(drop_hiragana(one) == drop_hiragana(one.drop_last()).push(one.last()));
    }
    assert((s.take(k) + drop_hiragana(rest)).take(k) =~= s.take(k));
}

/// Inflected forms name the same word: hiragana added after a word that
/// holds a character other than hiragana and 「ー」 are dropped.
pub proof fn okurigana_endings_are_ignored(s: Seq<char>, h: Seq<char>)
    requires
        !all_kana_or_bar(s),
        forall|i: int| 0 <= i < h.len() ==> spec_is_hiragana(#[trigger] h[i]),
    ensures
        spec_okurigana(s + h) == spec_okurigana(s),
{
    let k = choose|k: int| is_first_non_kana(s, k);
    lemma_has_first_non_kana(s);
    assert(is_first_non_kana(s + h, k)) by {
        assert forall|j: int| 0 <= j < k implies is_kana_or_bar(#[trigger] (s + h)[j]) by {
            assert((s + h)[j] == s[j]);
        }
    }
    assert(!all_kana_or_bar(s + h)) by {
        assert(!is_kana_or_bar((s + h)[k]));
    }
    let k2 = choose|k2: int| is_first_non_kana(s + h, k2);
    lemma_first_unique(s + h, k, k2);
    assert((s + h).take(k) =~= s.take(k));
    assert((s + h).skip(k) =~= s.skip(k) + h);
    drop_hiragana_concat(s.skip(k), h);
    drop_hiragana_of_hiragana(h);
    assert(drop_hiragana(s.skip(k)) + drop_hiragana(h) =~= drop_hiragana(s.skip(k)));
}

/// Stripping okurigana twice is stripping them once.
pub proof fn okurigana_is_idempotent(s: Seq<char>)
    ensures
        spec_okurigana(spec_okurigana(s)) == spec_okurigana(s),
{
    if !all_kana_or_bar(s) {
        lemma_has_first_non_kana(s);
        let k = choose|k: int| is_first_non_kana(s, k);
        let rest = s.skip(k);
        assert(rest =~= seq![s[k]] + rest.skip(1));
        drop_hiragana_concat(seq![s[k]], rest.skip(1));
        assert(!spec_is_hiragana(s[k]));
        assert(drop_hiragana(seq![s[k]]) =~= seq![s[k]]) by {
            let one = seq![s[k]];
            assert(one.drop_last() =~= Seq::<char>::empty());
            assert(one.last() == s[k]);
            assert(drop_hiragana(Seq::<char>::empty()) == Seq::<char>::empty());
            assert(drop_hiragana(one) == drop_hiragana(one.drop_last()).push(one.last()));
        }
        let r = s.take(k) + drop_hiragana(rest);
        assert(r[k] == s[k]);
        assert(is_first_non_kana(r, k)) by {
            assert forall|j: int| 0 <= j < k implies is_kana_or_bar(#[trigger] r[j]) by {
                assert(r[j] == s[j]);
            }
        }
        assert(!all_kana_or_bar(r)) by {
            assert(!is_kana_or_bar(r[k]));
        }
        let k2 = choose|k2: int| is_first_non_kana(r, k2);
        lemma_first_unique(r, k, k2);
        assert(r.take(k) =~= s.take(k));
        assert(r.skip(k) =~= drop_hiragana(rest));
        drop_hiragana_is_idempotent(rest);
    }
}

proof fn lemma_has_first_non_kana(s: Seq<char>)
    requires
        !all_kana_or_bar(s),
    ensures
        exists|k: int| is_first_non_kana(s, k),
        is_first_non_kana(s, choose|k: int| is_first_non_kana(s, k)),
{
    let i = choose|i: int| 0 <= i < s.len() && !is_kana_or_bar(s[i]);
    lemma_first_below(s, i);
}

proof fn lemma_first_below(s: Seq<char>, i: int)
    requires
        0 <= i < s.len(),
        !is_kana_or_bar(s[i]),
    ensures
        exists|k: int| is_first_non_kana(s, k),
    decreases i,
{
    if forall|j: int| 0 <= j < i ==> is_kana_or_bar(#[trigger] s[j]) {
        assert(is_first_non_kana(s, i));
    } else {
        let j = choose|j: int| 0 <= j < i && !is_kana_or_bar(s[j]);
        lemma_first_below(s, j);
    }
}

proof fn lemma_first_unique(s: Seq<char>, k1: int, k2: int)
    requires
        is_first_non_kana(s, k1),
        is_first_non_kana(s, k2),
    ensures
        k1 == k2,
{
    if k1 < k2 {
        assert(is_kana_or_bar(s[k1]));
    } else if k2 < k1 {
        assert(is_kana_or_bar(s[k2]));
    }
}

/// Full-width ASCII characters name the same as their half-width forms.
pub proof fn fullwidth_ascii_is_halfwidth(c: char)
    requires
        0x21 <= c as u32 <= 0x7E,
    ensures
        spec_normalize_width_and_case(seq![((c as u32) + 0xFEE0) as char]) == spec_normalize_width_and_case(seq![c]),
{
    let f = ((c as u32) + 0xFEE0) as char;
    assert(fullwidth_to_halfwidth(f) == Some(c));
    assert(katakana_entry(f) is None);
    assert(katakana_entry(c) is None);
    assert(fullwidth_to_halfwidth(c) is None);
    assert(seq![f].skip(1) =~= Seq::<char>::empty());
    assert(seq![c].skip(1) =~= Seq::<char>::empty());
}

/// A block comment opens at `i`: a slash, then a star (half- or
/// full-width each).
pub open spec fn block_comment_opens_at(chars: Seq<char>, i: int) -> bool {
    0 <= i && i + 1 < chars.len() && is_slash(chars[i]) && is_star(chars[i + 1])
}

proof fn lexing_fails_only_at_unclosed_block_comments(chars: Seq<char>, st: LexState)
    ensures
        lex_from(chars, st) matches Err(e) ==> e.message == unclosed_block_message()
            && exists|i: int| #[trigger] block_comment_opens_at(chars, i) && line_col(chars, i) == (e.line, e.column),
    decreases chars.len() - st.i,
{
    if 0 <= st.i < chars.len() {
        match lex_step(chars, st) {
            Err(e) => {
                assert(lex_rule(chars, st) == 3);
                assert(block_comment_opens_at(chars, st.i));
            },
            Ok(next) => if st.i < next.i <= chars.len() {
                lexing_fails_only_at_unclosed_block_comments(chars, next);
            },
        }
    }
}

/// The only lexical error is an unclosed block comment, reported at the
/// 1-based line and column (see [`line_col`]) of the slash that opens it;
/// so a text without a slash (half- or full-width) always lexes.
pub proof fn lexing_fails_only_at_unclosed_block_comments_law(chars: Seq<char>)
    ensures
        spec_tokenize(chars) matches Err(e) ==> e.message == unclosed_block_message()
            && exists|i: int| #[trigger] block_comment_opens_at(chars, i) && line_col(chars, i) == (e.line, e.column),
        (forall|i: int| 0 <= i < chars.len() ==> !is_slash(#[trigger] chars[i])) ==> spec_tokenize(chars) is Ok,
{
    lexing_fails_only_at_unclosed_block_comments(
        chars,
        LexState { i: 0, line: 1, tokens: seq![], buf: seq![], buf_line: 1, parens: seq![] },
    );
    if spec_tokenize(chars) is Err {
        let e = spec_tokenize(chars)->Err_0;
        let i = choose|i: int| #[trigger] block_comment_opens_at(chars, i) && line_col(chars, i) == (e.line, e.column);
        assert(is_slash(chars[i]));
    }
}

/// Every token's line lies in `1..=hi`, and lines never go down along
/// the sequence.
pub open spec fn lines_within(ts: Seq<SpecToken>, hi: int) -> bool {
    &&& forall|j: int| 0 <= j < ts.len() ==> 1 <= #[trigger] ts[j].line <= hi
    &&& forall|j: int, k: int| 0 <= j < k < ts.len() ==> #[trigger] ts[j].line <= #[trigger] ts[k].line
}

proof fn count_nl_concat(a: Seq<char>, b: Seq<char>)
    ensures
        count_nl(a + b) == count_nl(a) + count_nl(b),
    decreases b.len(),
{
    if b.len() == 0 {
        assert(a + b =~= a);
    } else {
        assert((a + b).drop_last() =~= a + b.drop_last());
        count_nl_concat(a, b.drop_last());
    }
}

/// Newlines up to `to` are those up to `i` and those from `i` to `to`.
proof fn count_nl_split(chars: Seq<char>, i: int, to: int)
    requires
        0 <= i <= to <= chars.len(),
    ensures
        count_nl(chars.take(to)) == count_nl(chars.take(i)) + count_nl(chars.subrange(i, to)),
{
    assert(chars.take(to) =~= chars.take(i) + chars.subrange(i, to));
    count_nl_concat(chars.take(i), chars.subrange(i, to));
}

proof fn scan_to_bounds(chars: Seq<char>, k: int, a: char, b: char)
    requires
        0 <= k <= chars.len(),
    ensures
        k <= scan_to(chars, k, a, b) <= chars.len(),
    decreases chars.len() - k,
{
    if k < chars.len() && chars[k] != a && chars[k] != b {
        scan_to_bounds(chars, k + 1, a, b);
    }
}

/// A block comment scan counts exactly the newlines it passes.
proof fn scan_block_lines(chars: Seq<char>, j: int, depth: int, line: int)
    requires
        0 <= j <= chars.len(),
    ensures
        j <= scan_block(chars, j, depth, line).0 <= chars.len(),
        scan_block(chars, j, depth, line).2 == line + count_nl(chars.subrange(j, scan_block(chars, j, depth, line).0)),
    decreases chars.len() - j,
{
    let r = scan_block(chars, j, depth, line);
    if j >= chars.len() || depth <= 0 {
        assert(chars.subrange(j, j) =~= Seq::<char>::empty());
    } else {
        let step: int = if (is_slash(chars[j]) && j + 1 < chars.len() && is_star(chars[j + 1]))
            || (is_star(chars[j]) && j + 1 < chars.len() && is_slash(chars[j + 1])) { 2 } else { 1 };
        let d2 = if is_slash(chars[j]) && j + 1 < chars.len() && is_star(chars[j + 1]) {
            depth + 1
        } else if is_star(chars[j]) && j + 1 < chars.len() && is_slash(chars[j + 1]) {
            depth - 1
        } else {
            depth
        };
        let l2 = if step == 1 && chars[j] == '\n' { line + 1 } else { line };
        assert(r == scan_block(chars, j + step, d2, l2));
        scan_block_lines(chars, j + step, d2, l2);
        assert(chars.subrange(j, r.0) =~= chars.subrange(j, j + step) + chars.subrange(j + step, r.0));
        count_nl_concat(chars.subrange(j, j + step), chars.subrange(j + step, r.0));
        if step == 2 {
            let two = chars.subrange(j, j + 2);
            let one = seq![chars[j]];
            assert(two.drop_last() =~= one);
            assert(one.drop_last() =~= Seq::<char>::empty());
            assert(count_nl(one) == count_nl(one.drop_last()) + if one.last() == '\n' { 1nat } else { 0nat });
            assert(count_nl(two) == count_nl(two.drop_last()) + if two.last() == '\n' { 1nat } else { 0nat });
            assert(count_nl(two) == 0);
        } else {
            let one = chars.subrange(j, j + 1);
            assert(one.drop_last() =~= Seq::<char>::empty());
            assert(one.last() == chars[j]);
            assert(count_nl(one) == count_nl(one.drop_last()) + if one.last() == '\n' { 1nat } else { 0nat });
        }
    }
}

/// The lexer's bookkeeping of lines: the current line is at least 1 and
/// at most one more than the newlines read so far; the tokens so far are in
/// line order up to the current line; a pending word started on a line
/// between the last token's and the current one.
spec fn lines_tracked(chars: Seq<char>, st: LexState) -> bool {
    &&& 0 <= st.i <= chars.len()
    &&& 1 <= st.line <= 1 + count_nl(chars.take(st.i))
    &&& lines_within(st.tokens, st.line)
    &&& st.buf.len() > 0 ==> 1 <= st.buf_line <= st.line && lines_within(st.tokens, st.buf_line)
}

proof fn lines_within_widen(ts: Seq<SpecToken>, lo: int, hi: int)
    requires
        lines_within(ts, lo),
        lo <= hi,
    ensures
        lines_within(ts, hi),
{
}

proof fn lines_within_push(ts: Seq<SpecToken>, t: SpecToken, hi: int)
    requires
        lines_within(ts, t.line),
        1 <= t.line <= hi,
    ensures
        lines_within(ts.push(t), hi),
{
    let u = ts.push(t);
    assert forall|j: int, k: int| 0 <= j < k < u.len() implies #[trigger] u[j].line <= #[trigger] u[k].line by {
        if k == ts.len() {
            assert(u[j] == ts[j]);
        } else {
            assert(u[j] == ts[j] && u[k] == ts[k]);
        }
    }
    assert forall|j: int| 0 <= j < u.len() implies 1 <= #[trigger] u[j].line <= hi by {
        if j < ts.len() {
            assert(u[j] == ts[j]);
        }
    }
}

/// Flushing the pending word keeps the tokens in line order, up to the
/// current line.
proof fn flush_keeps_lines(chars: Seq<char>, st: LexState)
    requires
        lines_tracked(chars, st),
    ensures
        lines_within(flush(st).tokens, st.line),
        flush(st).buf.len() == 0,
{
    if st.buf.len() > 0 {
        let c = classify(st.buf, st.buf_line);
        let u = st.tokens + c;
        assert(forall|j: int| 0 <= j < c.len() ==> #[trigger] c[j].line == st.buf_line);
        assert forall|j: int, k: int| 0 <= j < k < u.len() implies #[trigger] u[j].line <= #[trigger] u[k].line by {
            if k < st.tokens.len() {
                assert(u[j] == st.tokens[j] && u[k] == st.tokens[k]);
            } else if j < st.tokens.len() {
                assert(u[j] == st.tokens[j] && u[k] == c[k - st.tokens.len()]);
            } else {
                assert(u[j] == c[j - st.tokens.len()] && u[k] == c[k - st.tokens.len()]);
            }
        }
        assert forall|j: int| 0 <= j < u.len() implies 1 <= #[trigger] u[j].line <= st.line by {
            if j < st.tokens.len() {
                assert(u[j] == st.tokens[j]);
            } else {
                assert(u[j] == c[j - st.tokens.len()]);
            }
        }
    }
}

/// The token a lexer step by rule `r` (5 to 11) adds, when it adds one.
spec fn step_token(chars: Seq<char>, st: LexState, r: int) -> SpecToken {
    let n = chars.len();
    let i = st.i;
    let c = chars[i];
    if r == 5 {
        tok(SpecTokenKind::Word(seq!['。']), seq!['。'], st.line)
    } else if r == 6 {
        tok(SpecTokenKind::OpenParen, seq![c], st.line)
    } else if r == 7 {
        tok(SpecTokenKind::CloseParen, seq![c], st.line)
    } else if r == 8 {
        let close = if c == '『' { '』' } else { '”' };
        let other = if c == '『' { '』' } else { '“' };
        let e = scan_to(chars, i + 1, close, other);
        let content = chars.subrange(i + 1, e);
        let raw = if e < n { seq![c] + content + seq![chars[e]] } else { seq![c] + content };
        tok(SpecTokenKind::Word(super::spec_normalize_word(content)), raw, st.line)
    } else if r == 9 || r == 10 {
        let close = if r == 9 { '」' } else { c };
        let e = scan_to(chars, i + 1, close, close);
        let content = chars.subrange(i + 1, e);
        tok(SpecTokenKind::StringLiteral(content), seq![c] + content + seq![close], st.line)
    } else {
        tok(SpecTokenKind::CharLiteral(chars[i + 1]), chars.subrange(i, i + 3), st.line)
    }
}

/// Whether a lexer step by rule `r` adds a token.
spec fn step_emits(chars: Seq<char>, st: LexState, r: int) -> bool {
    ||| r == 5 || r == 7 || r == 8 || r == 9 || r == 10 || r == 11
    ||| r == 6 && st.i > 0 && !super::is_delimiter(chars[st.i - 1])
}

/// What one lexer step does to the tokens, the pending word and the line:
/// every rule but the last flushes the pending word and then adds no token
/// or one token on the current line, and no rule moves back a line.
#[verifier::rlimit(40)]
proof fn lex_step_shape(chars: Seq<char>, st: LexState)
    requires
        0 <= st.i < chars.len(),
    ensures
        lex_step(chars, st) matches Ok(next) ==> {
            &&& next.line >= st.line
            &&& lex_rule(chars, st) == 13 ==> next.tokens == st.tokens && next.line == st.line && next.buf == st.buf.push(chars[st.i])
                && next.buf_line == (if st.buf.len() == 0 { st.line } else { st.buf_line }) && next.i == st.i + 1
            &&& lex_rule(chars, st) != 13 ==> next.buf.len() == 0
            &&& lex_rule(chars, st) != 13 && !step_emits(chars, st, lex_rule(chars, st)) ==> next.tokens == flush(st).tokens
            &&& step_emits(chars, st, lex_rule(chars, st)) ==> next.tokens == flush(st).tokens.push(step_token(chars, st, lex_rule(chars, st)))
        },
{
    flush_buf_empty(st);
    if lex_rule(chars, st) == 3 {
        scan_block_lines(chars, st.i + 2, 1, st.line);
    }
}

proof fn flush_buf_empty(st: LexState)
    ensures
        flush(st).buf.len() == 0,
        flush(st).line == st.line,
        flush(st).i == st.i,
{
}

/// One lexer step keeps the bookkeeping of lines.
proof fn lex_step_keeps_lines(chars: Seq<char>, st: LexState)
    requires
        lines_tracked(chars, st),
        st.i < chars.len(),
    ensures
        lex_step(chars, st) matches Ok(next) ==> (st.i < next.i <= chars.len() ==> lines_tracked(chars, next)),
{
    let n = chars.len();
    let i = st.i;
    let c = chars[i];
    let f = flush(st);
    flush_keeps_lines(chars, st);
    lex_step_shape(chars, st);
    let r = lex_rule(chars, st);
    if let Ok(next) = lex_step(chars, st) {
        if i < next.i <= n {
            count_nl_split(chars, i, next.i);
            // The lines passed are at most the newlines passed.
            if r == 3 {
                scan_block_lines(chars, i + 2, 1, st.line);
                let j = scan_block(chars, i + 2, 1, st.line).0;
                assert(chars.subrange(i, j) =~= chars.subrange(i, i + 2) + chars.subrange(i + 2, j));
                count_nl_concat(chars.subrange(i, i + 2), chars.subrange(i + 2, j));
            } else if r == 8 || r == 9 || r == 10 || (r == 6 && !(i > 0 && !super::is_delimiter(chars[i - 1]))) {
                let close = if r == 6 { if c == '（' { '）' } else { ')' } }
                    else if r == 8 { if c == '『' { '』' } else { '”' } }
                    else if r == 9 { '」' } else { c };
                let other = if r == 8 { if c == '『' { '』' } else { '“' } } else { close };
                scan_to_bounds(chars, i + 1, close, other);
                let e = scan_to(chars, i + 1, close, other);
                assert(chars.subrange(i, next.i) =~= chars.subrange(i, i + 1) + chars.subrange(i + 1, e) + chars.subrange(e, next.i));
                count_nl_concat(chars.subrange(i, i + 1) + chars.subrange(i + 1, e), chars.subrange(e, next.i));
                count_nl_concat(chars.subrange(i, i + 1), chars.subrange(i + 1, e));
            } else if r == 12 {
                let one = chars.subrange(i, i + 1);
                assert(one.drop_last() =~= Seq::<char>::empty());
                assert(count_nl(one) == count_nl(one.drop_last()) + if one.last() == '\n' { 1nat } else { 0nat });
            }
            if r == 13 {
                if st.buf.len() == 0 {
                    lines_within_widen(st.tokens, st.line, st.line);
                }
            } else {
                lines_within_widen(f.tokens, st.line, next.line);
                if step_emits(chars, st, r) {
                    lines_within_push(f.tokens, step_token(chars, st, r), next.line);
                }
            }
        }
    }
}

proof fn lex_from_keeps_lines(chars: Seq<char>, st: LexState)
    requires
        lines_tracked(chars, st),
    ensures
        lex_from(chars, st) matches Ok(ts) ==> lines_within(ts, count_nl(chars) + 1int),
    decreases chars.len() - st.i,
{
    if st.i >= chars.len() {
        flush_keeps_lines(chars, st);
        assert(chars.take(st.i) =~= chars);
        lines_within_widen(flush(st).tokens, st.line, count_nl(chars) + 1int);
    } else {
        lex_step_keeps_lines(chars, st);
        if let Ok(next) = lex_step(chars, st) {
            if st.i < next.i <= chars.len() {
                lex_from_keeps_lines(chars, next);
            }
        }
    }
}

/// Every token's line lies between 1 and one more than the number of
/// newlines in the text, and lines never go down along the tokens.
pub proof fn token_lines_are_ordered_and_in_range(chars: Seq<char>)
    ensures
        spec_tokenize(chars) matches Ok(ts) ==> lines_within(ts, count_nl(chars) + 1int),
{
    let st = LexState { i: 0, line: 1, tokens: seq![], buf: seq![], buf_line: 1, parens: seq![] };
    assert(chars.take(0) =~= Seq::<char>::empty());
    lex_from_keeps_lines(chars, st);
}

/// The half-width katakana letters ｱ..ﾝ (U+FF71..=U+FF9D), by position.
pub open spec fn half_katakana(k: int) -> char {
    ((0xFF71 + k) as u32) as char
}

/// The small full-width katakana (ァ ィ ゥ ェ ォ ッ ャ ュ ョ ヮ).
pub open spec fn small_katakana(x: u32) -> bool {
    x == 0x30A1
        || x == 0x30A3
        || x == 0x30A5
        || x == 0x30A7
        || x == 0x30A9
        || x == 0x30C3
        || x == 0x30E3
        || x == 0x30E5
        || x == 0x30E7
        || x == 0x30EE
}

/// The full-width katakana written with a voiced or semi-voiced mark
/// (ガ … ド, バ … ポ, ヴ, ヷ … ヺ).
pub open spec fn marked_katakana(x: u32) -> bool {
    x == 0x30AC
        || x == 0x30AE
        || x == 0x30B0
        || x == 0x30B2
        || x == 0x30B4
        || x == 0x30B6
        || x == 0x30B8
        || x == 0x30BA
        || x == 0x30BC
        || x == 0x30BE
        || x == 0x30C0
        || x == 0x30C2
        || x == 0x30C5
        || x == 0x30C7
        || x == 0x30C9
        || x == 0x30D0
        || x == 0x30D1
        || x == 0x30D3
        || x == 0x30D4
        || x == 0x30D6
        || x == 0x30D7
        || x == 0x30D9
        || x == 0x30DA
        || x == 0x30DC
        || x == 0x30DD
        || x == 0x30F4
        || x == 0x30F7
        || x == 0x30F8
        || x == 0x30F9
        || x == 0x30FA
}

/// The plain full-width katakana letters ア … ン: neither small, nor with
/// a mark, nor the archaic ヰ ヱ, nor ヲ.
pub open spec fn plain_katakana(x: u32) -> bool {
    0x30A1 <= x <= 0x30F3 && !small_katakana(x) && !marked_katakana(x) && x != 0x30F0 && x != 0x30F1 && x != 0x30F2
}

/// The full-width letter half-width `c` converts to.
pub open spec fn katakana_base(c: char) -> u32 {
    katakana_entry(c).unwrap().0 as u32
}

proof fn consecutive_letters_ascend(k: int)
    requires
        0 <= k < 44,
    ensures
        katakana_entry(half_katakana(k)) is Some,
        katakana_base(half_katakana(k)) < katakana_base(half_katakana(k + 1)),
{
    if k == 0 {
        assert(half_katakana(k) == 'ｱ');
        assert(half_katakana(k + 1) == 'ｲ');
    } else if k == 1 {
        assert(half_katakana(k) == 'ｲ');
        assert(half_katakana(k + 1) == 'ｳ');
    } else if k == 2 {
        assert(half_katakana(k) == 'ｳ');
        assert(half_katakana(k + 1) == 'ｴ');
    } else if k == 3 {
        assert(half_katakana(k) == 'ｴ');
        assert(half_katakana(k + 1) == 'ｵ');
    } else if k == 4 {
        assert(half_katakana(k) == 'ｵ');
        assert(half_katakana(k + 1) == 'ｶ');
    } else if k == 5 {
        assert(half_katakana(k) == 'ｶ');
        assert(half_katakana(k + 1) == 'ｷ');
    } else if k == 6 {
        assert(half_katakana(k) == 'ｷ');
        assert(half_katakana(k + 1) == 'ｸ');
    } else if k == 7 {
        assert(half_katakana(k) == 'ｸ');
        assert(half_katakana(k + 1) == 'ｹ');
    } else if k == 8 {
        assert(half_katakana(k) == 'ｹ');
        assert(half_katakana(k + 1) == 'ｺ');
    } else if k == 9 {
        assert(half_katakana(k) == 'ｺ');
        assert(half_katakana(k + 1) == 'ｻ');
    } else if k == 10 {
        assert(half_katakana(k) == 'ｻ');
        assert(half_katakana(k + 1) == 'ｼ');
    } else if k == 11 {
        assert(half_katakana(k) == 'ｼ');
        assert(half_katakana(k + 1) == 'ｽ');
    } else if k == 12 {
        assert(half_katakana(k) == 'ｽ');
        assert(half_katakana(k + 1) == 'ｾ');
    } else if k == 13 {
        assert(half_katakana(k) == 'ｾ');
        assert(half_katakana(k + 1) == 'ｿ');
    } else if k == 14 {
        assert(half_katakana(k) == 'ｿ');
        assert(half_katakana(k + 1) == 'ﾀ');
    } else if k == 15 {
        assert(half_katakana(k) == 'ﾀ');
        assert(half_katakana(k + 1) == 'ﾁ');
    } else if k == 16 {
        assert(half_katakana(k) == 'ﾁ');
        assert(half_katakana(k + 1) == 'ﾂ');
    } else if k == 17 {
        assert(half_katakana(k) == 'ﾂ');
        assert(half_katakana(k + 1) == 'ﾃ');
    } else if k == 18 {
        assert(half_katakana(k) == 'ﾃ');
        assert(half_katakana(k + 1) == 'ﾄ');
    } else if k == 19 {
        assert(half_katakana(k) == 'ﾄ');
        assert(half_katakana(k + 1) == 'ﾅ');
    } else if k == 20 {
        assert(half_katakana(k) == 'ﾅ');
        assert(half_katakana(k + 1) == 'ﾆ');
    } else if k == 21 {
        assert(half_katakana(k) == 'ﾆ');
        assert(half_katakana(k + 1) == 'ﾇ');
    } else if k == 22 {
        assert(half_katakana(k) == 'ﾇ');
        assert(half_katakana(k + 1) == 'ﾈ');
    } else if k == 23 {
        assert(half_katakana(k) == 'ﾈ');
        assert(half_katakana(k + 1) == 'ﾉ');
    } else if k == 24 {
        assert(half_katakana(k) == 'ﾉ');
        assert(half_katakana(k + 1) == 'ﾊ');
    } else if k == 25 {
        assert(half_katakana(k) == 'ﾊ');
        assert(half_katakana(k + 1) == 'ﾋ');
    } else if k == 26 {
        assert(half_katakana(k) == 'ﾋ');
        assert(half_katakana(k + 1) == 'ﾌ');
    } else if k == 27 {
        assert(half_katakana(k) == 'ﾌ');
        assert(half_katakana(k + 1) == 'ﾍ');
    } else if k == 28 {
        assert(half_katakana(k) == 'ﾍ');
        assert(half_katakana(k + 1) == 'ﾎ');
    } else if k == 29 {
        assert(half_katakana(k) == 'ﾎ');
        assert(half_katakana(k + 1) == 'ﾏ');
    } else if k == 30 {
        assert(half_katakana(k) == 'ﾏ');
        assert(half_katakana(k + 1) == 'ﾐ');
    } else if k == 31 {
        assert(half_katakana(k) == 'ﾐ');
        assert(half_katakana(k + 1) == 'ﾑ');
    } else if k == 32 {
        assert(half_katakana(k) == 'ﾑ');
        assert(half_katakana(k + 1) == 'ﾒ');
    } else if k == 33 {
        assert(half_katakana(k) == 'ﾒ');
        assert(half_katakana(k + 1) == 'ﾓ');
    } else if k == 34 {
        assert(half_katakana(k) == 'ﾓ');
        assert(half_katakana(k + 1) == 'ﾔ');
    } else if k == 35 {
        assert(half_katakana(k) == 'ﾔ');
        assert(half_katakana(k + 1) == 'ﾕ');
    } else if k == 36 {
        assert(half_katakana(k) == 'ﾕ');
        assert(half_katakana(k + 1) == 'ﾖ');
    } else if k == 37 {
        assert(half_katakana(k) == 'ﾖ');
        assert(half_katakana(k + 1) == 'ﾗ');
    } else if k == 38 {
        assert(half_katakana(k) == 'ﾗ');
        assert(half_katakana(k + 1) == 'ﾘ');
    } else if k == 39 {
        assert(half_katakana(k) == 'ﾘ');
        assert(half_katakana(k + 1) == 'ﾙ');
    } else if k == 40 {
        assert(half_katakana(k) == 'ﾙ');
        assert(half_katakana(k + 1) == 'ﾚ');
    } else if k == 41 {
        assert(half_katakana(k) == 'ﾚ');
        assert(half_katakana(k + 1) == 'ﾛ');
    } else if k == 42 {
        assert(half_katakana(k) == 'ﾛ');
        assert(half_katakana(k + 1) == 'ﾜ');
    } else if k == 43 {
        assert(half_katakana(k) == 'ﾜ');
        assert(half_katakana(k + 1) == 'ﾝ');
    }
}

proof fn letters_are_plain(k: int)
    requires
        0 <= k < 45,
    ensures
        katakana_entry(half_katakana(k)) is Some,
        plain_katakana(katakana_base(half_katakana(k))),
        katakana_entry(half_katakana(k)).unwrap().1 matches Some(v) ==> marked_katakana(v as u32),
        katakana_entry(half_katakana(k)).unwrap().2 matches Some(v) ==> marked_katakana(v as u32),
        k != 2 ==> (katakana_entry(half_katakana(k)).unwrap().1 matches Some(v)
            ==> v as u32 == katakana_base(half_katakana(k)) + 1),
        katakana_entry(half_katakana(k)).unwrap().2 matches Some(v) ==> v as u32 == katakana_base(half_katakana(k)) + 2,
{
    if k == 0 {
        assert(half_katakana(k) == 'ｱ');
    } else if k == 1 {
        assert(half_katakana(k) == 'ｲ');
    } else if k == 2 {
        assert(half_katakana(k) == 'ｳ');
    } else if k == 3 {
        assert(half_katakana(k) == 'ｴ');
    } else if k == 4 {
        assert(half_katakana(k) == 'ｵ');
    } else if k == 5 {
        assert(half_katakana(k) == 'ｶ');
    } else if k == 6 {
        assert(half_katakana(k) == 'ｷ');
    } else if k == 7 {
        assert(half_katakana(k) == 'ｸ');
    } else if k == 8 {
        assert(half_katakana(k) == 'ｹ');
    } else if k == 9 {
        assert(half_katakana(k) == 'ｺ');
    } else if k == 10 {
        assert(half_katakana(k) == 'ｻ');
    } else if k == 11 {
        assert(half_katakana(k) == 'ｼ');
    } else if k == 12 {
        assert(half_katakana(k) == 'ｽ');
    } else if k == 13 {
        assert(half_katakana(k) == 'ｾ');
    } else if k == 14 {
        assert(half_katakana(k) == 'ｿ');
    } else if k == 15 {
        assert(half_katakana(k) == 'ﾀ');
    } else if k == 16 {
        assert(half_katakana(k) == 'ﾁ');
    } else if k == 17 {
        assert(half_katakana(k) == 'ﾂ');
    } else if k == 18 {
        assert(half_katakana(k) == 'ﾃ');
    } else if k == 19 {
        assert(half_katakana(k) == 'ﾄ');
    } else if k == 20 {
        assert(half_katakana(k) == 'ﾅ');
    } else if k == 21 {
        assert(half_katakana(k) == 'ﾆ');
    } else if k == 22 {
        assert(half_katakana(k) == 'ﾇ');
    } else if k == 23 {
        assert(half_katakana(k) == 'ﾈ');
    } else if k == 24 {
        assert(half_katakana(k) == 'ﾉ');
    } else if k == 25 {
        assert(half_katakana(k) == 'ﾊ');
    } else if k == 26 {
        assert(half_katakana(k) == 'ﾋ');
    } else if k == 27 {
        assert(half_katakana(k) == 'ﾌ');
    } else if k == 28 {
        assert(half_katakana(k) == 'ﾍ');
    } else if k == 29 {
        assert(half_katakana(k) == 'ﾎ');
    } else if k == 30 {
        assert(half_katakana(k) == 'ﾏ');
    } else if k == 31 {
        assert(half_katakana(k) == 'ﾐ');
    } else if k == 32 {
        assert(half_katakana(k) == 'ﾑ');
    } else if k == 33 {
        assert(half_katakana(k) == 'ﾒ');
    } else if k == 34 {
        assert(half_katakana(k) == 'ﾓ');
    } else if k == 35 {
        assert(half_katakana(k) == 'ﾔ');
    } else if k == 36 {
        assert(half_katakana(k) == 'ﾕ');
    } else if k == 37 {
        assert(half_katakana(k) == 'ﾖ');
    } else if k == 38 {
        assert(half_katakana(k) == 'ﾗ');
    } else if k == 39 {
        assert(half_katakana(k) == 'ﾘ');
    } else if k == 40 {
        assert(half_katakana(k) == 'ﾙ');
    } else if k == 41 {
        assert(half_katakana(k) == 'ﾚ');
    } else if k == 42 {
        assert(half_katakana(k) == 'ﾛ');
    } else if k == 43 {
        assert(half_katakana(k) == 'ﾜ');
    } else if k == 44 {
        assert(half_katakana(k) == 'ﾝ');
    }
}

proof fn letters_ascend(i: int, j: int)
    requires
        0 <= i < j < 45,
    ensures
        katakana_base(half_katakana(i)) < katakana_base(half_katakana(j)),
    decreases j - i,
{
    consecutive_letters_ascend(j - 1);
    if i < j - 1 {
        letters_ascend(i, j - 1);
    }
}

/// Half-width katakana letters ｱ … ﾝ convert to the plain full-width
/// letters ア … ン in the same order: each converts to a plain letter
/// (neither small nor marked), a later half-width letter to a later
/// full-width one.  There are as many plain letters as half-width ones, so
/// each half-width letter converts to the full-width letter of the same
/// sound; with the voiced mark ﾞ a letter converts to the letter after it
/// (ｳﾞ to ヴ), with the semi-voiced mark ﾟ to the one two after it.
pub proof fn halfwidth_letters_convert_in_order(c: char, d: char)
    requires
        0xFF71 <= c as u32 <= 0xFF9D,
        0xFF71 <= d as u32 <= 0xFF9D,
    ensures
        katakana_entry(c) is Some,
        plain_katakana(katakana_base(c)),
        (c as u32) < (d as u32) ==> katakana_base(c) < katakana_base(d),
        katakana_entry(c).unwrap().1 matches Some(v) ==> marked_katakana(v as u32)
            && (c != 'ｳ' ==> v as u32 == katakana_base(c) + 1),
        katakana_entry(c).unwrap().2 matches Some(v) ==> marked_katakana(v as u32) && v as u32 == katakana_base(c) + 2,
{
    let i = (c as u32 - 0xFF71) as int;
    let j = (d as u32 - 0xFF71) as int;
    assert(half_katakana(i) == c);
    assert(half_katakana(j) == d);
    letters_are_plain(i);
    if i < j {
        letters_ascend(i, j);
    }
}


/// Every plain full-width letter ア … ン is what some half-width letter
/// ｱ … ﾝ converts to, so together with [`halfwidth_letters_convert_in_order`]
/// the k-th half-width letter converts to the k-th plain letter.
pub proof fn every_plain_letter_has_a_halfwidth_form(x: u32)
    requires
        plain_katakana(x),
    ensures
        exists|k: int| 0 <= k < 45 && #[trigger] katakana_base(half_katakana(k)) == x,
{
        if x == 0x30A2 {
            assert(half_katakana(0) == 'ｱ');
            assert(katakana_base(half_katakana(0)) == x);
        } else if x == 0x30A4 {
            assert(half_katakana(1) == 'ｲ');
            assert(katakana_base(half_katakana(1)) == x);
        } else if x == 0x30A6 {
            assert(half_katakana(2) == 'ｳ');
            assert(katakana_base(half_katakana(2)) == x);
        } else if x == 0x30A8 {
            assert(half_katakana(3) == 'ｴ');
            assert(katakana_base(half_katakana(3)) == x);
        } else if x == 0x30AA {
            assert(half_katakana(4) == 'ｵ');
            assert(katakana_base(half_katakana(4)) == x);
        } else if x == 0x30AB {
            assert(half_katakana(5) == 'ｶ');
            assert(katakana_base(half_katakana(5)) == x);
        } else if x == 0x30AD {
            assert(half_katakana(6) == 'ｷ');
            assert(katakana_base(half_katakana(6)) == x);
        } else if x == 0x30AF {
            assert(half_katakana(7) == 'ｸ');
            assert(katakana_base(half_katakana(7)) == x);
        } else if x == 0x30B1 {
            assert(half_katakana(8) == 'ｹ');
            assert(katakana_base(half_katakana(8)) == x);
        } else if x == 0x30B3 {
            assert(half_katakana(9) == 'ｺ');
            assert(katakana_base(half_katakana(9)) == x);
        } else if x == 0x30B5 {
            assert(half_katakana(10) == 'ｻ');
            assert(katakana_base(half_katakana(10)) == x);
        } else if x == 0x30B7 {
            assert(half_katakana(11) == 'ｼ');
            assert(katakana_base(half_katakana(11)) == x);
        } else if x == 0x30B9 {
            assert(half_katakana(12) == 'ｽ');
            assert(katakana_base(half_katakana(12)) == x);
        } else if x == 0x30BB {
            assert(half_katakana(13) == 'ｾ');
            assert(katakana_base(half_katakana(13)) == x);
        } else if x == 0x30BD {
            assert(half_katakana(14) == 'ｿ');
            assert(katakana_base(half_katakana(14)) == x);
        } else if x == 0x30BF {
            assert(half_katakana(15) == 'ﾀ');
            assert(katakana_base(half_katakana(15)) == x);
        } else if x == 0x30C1 {
            assert(half_katakana(16) == 'ﾁ');
            assert(katakana_base(half_katakana(16)) == x);
        } else if x == 0x30C4 {
            assert(half_katakana(17) == 'ﾂ');
            assert(katakana_base(half_katakana(17)) == x);
        } else if x == 0x30C6 {
            assert(half_katakana(18) == 'ﾃ');
            assert(katakana_base(half_katakana(18)) == x);
        } else if x == 0x30C8 {
            assert(half_katakana(19) == 'ﾄ');
            assert(katakana_base(half_katakana(19)) == x);
        } else if x == 0x30CA {
            assert(half_katakana(20) == 'ﾅ');
            assert(katakana_base(half_katakana(20)) == x);
        } else if x == 0x30CB {
            assert(half_katakana(21) == 'ﾆ');
            assert(katakana_base(half_katakana(21)) == x);
        } else if x == 0x30CC {
            assert(half_katakana(22) == 'ﾇ');
            assert(katakana_base(half_katakana(22)) == x);
        } else if x == 0x30CD {
            assert(half_katakana(23) == 'ﾈ');
            assert(katakana_base(half_katakana(23)) == x);
        } else if x == 0x30CE {
            assert(half_katakana(24) == 'ﾉ');
            assert(katakana_base(half_katakana(24)) == x);
        } else if x == 0x30CF {
            assert(half_katakana(25) == 'ﾊ');
            assert(katakana_base(half_katakana(25)) == x);
        } else if x == 0x30D2 {
            assert(half_katakana(26) == 'ﾋ');
            assert(katakana_base(half_katakana(26)) == x);
        } else if x == 0x30D5 {
            assert(half_katakana(27) == 'ﾌ');
            assert(katakana_base(half_katakana(27)) == x);
        } else if x == 0x30D8 {
            assert(half_katakana(28) == 'ﾍ');
            assert(katakana_base(half_katakana(28)) == x);
        } else if x == 0x30DB {
            assert(half_katakana(29) == 'ﾎ');
            assert(katakana_base(half_katakana(29)) == x);
        } else if x == 0x30DE {
            assert(half_katakana(30) == 'ﾏ');
            assert(katakana_base(half_katakana(30)) == x);
        } else if x == 0x30DF {
            assert(half_katakana(31) == 'ﾐ');
            assert(katakana_base(half_katakana(31)) == x);
        } else if x == 0x30E0 {
            assert(half_katakana(32) == 'ﾑ');
            assert(katakana_base(half_katakana(32)) == x);
        } else if x == 0x30E1 {
            assert(half_katakana(33) == 'ﾒ');
            assert(katakana_base(half_katakana(33)) == x);
        } else if x == 0x30E2 {
            assert(half_katakana(34) == 'ﾓ');
            assert(katakana_base(half_katakana(34)) == x);
        } else if x == 0x30E4 {
            assert(half_katakana(35) == 'ﾔ');
            assert(katakana_base(half_katakana(35)) == x);
        } else if x == 0x30E6 {
            assert(half_katakana(36) == 'ﾕ');
            assert(katakana_base(half_katakana(36)) == x);
        } else if x == 0x30E8 {
            assert(half_katakana(37) == 'ﾖ');
            assert(katakana_base(half_katakana(37)) == x);
        } else if x == 0x30E9 {
            assert(half_katakana(38) == 'ﾗ');
            assert(katakana_base(half_katakana(38)) == x);
        } else if x == 0x30EA {
            assert(half_katakana(39) == 'ﾘ');
            assert(katakana_base(half_katakana(39)) == x);
        } else if x == 0x30EB {
            assert(half_katakana(40) == 'ﾙ');
            assert(katakana_base(half_katakana(40)) == x);
        } else if x == 0x30EC {
            assert(half_katakana(41) == 'ﾚ');
            assert(katakana_base(half_katakana(41)) == x);
        } else if x == 0x30ED {
            assert(half_katakana(42) == 'ﾛ');
            assert(katakana_base(half_katakana(42)) == x);
        } else if x == 0x30EF {
            assert(half_katakana(43) == 'ﾜ');
            assert(katakana_base(half_katakana(43)) == x);
        } else if x == 0x30F3 {
            assert(half_katakana(44) == 'ﾝ');
            assert(katakana_base(half_katakana(44)) == x);
        }
}

} // verus!
