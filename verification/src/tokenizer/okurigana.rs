//! Okurigana stripping: the kanji stem of a word is kept and the hiragana
//! inflection around it dropped, so that 「反応する」 and 「反応し」 name the
//! same word.  Words made only of hiragana (and the long-vowel mark 「ー」)
//! are left untouched, and hiragana before the first other character are
//! kept (「ご案内する」 becomes 「ご案内」).
use vstd::prelude::*;
use crate::text::{str_chars, string_from_chars};

verus! {

/// Hiragana: U+3041..=U+3096 and U+309D..=U+309F.  「ー」 is not hiragana.
pub open spec fn spec_is_hiragana(c: char) -> bool {
    (0x3041 <= c as u32 <= 0x3096) || (0x309D <= c as u32 <= 0x309F)
}

/// Hiragana or the long-vowel mark 「ー」.
pub open spec fn is_kana_or_bar(c: char) -> bool {
    spec_is_hiragana(c) || c == 'ー'
}

/// Every character of `s` is hiragana or 「ー」.
pub open spec fn all_kana_or_bar(s: Seq<char>) -> bool {
    forall|i: int| 0 <= i < s.len() ==> is_kana_or_bar(#[trigger] s[i])
}

/// `s` with every hiragana character removed.
pub open spec fn drop_hiragana(s: Seq<char>) -> Seq<char>
    decreases s.len(),
{
    if s.len() == 0 {
        s
    } else if spec_is_hiragana(s.last()) {
        drop_hiragana(s.drop_last())
    } else {
        drop_hiragana(s.drop_last()).push(s.last())
    }
}

/// `k` is the position of the first character that is neither hiragana nor 「ー」.
pub open spec fn is_first_non_kana(s: Seq<char>, k: int) -> bool {
    &&& 0 <= k < s.len()
    &&& !is_kana_or_bar(s[k])
    &&& forall|j: int| 0 <= j < k ==> is_kana_or_bar(#[trigger] s[j])
}

/// The word stem of `s`: unchanged when `s` is all hiragana / 「ー」,
/// otherwise the leading hiragana run followed by the rest of the word
/// with every hiragana removed.
pub open spec fn spec_okurigana(s: Seq<char>) -> Seq<char> {
    if all_kana_or_bar(s) {
        s
    } else {
        let k = choose|k: int| is_first_non_kana(s, k);
        s.take(k) + drop_hiragana(s.skip(k))
    }
}

/// Whether `c` is hiragana (U+3041..=U+3096, U+309D..=U+309F).
pub fn is_hiragana(c: char) -> (r: bool)
    ensures
        r == spec_is_hiragana(c),
{
    let u = c as u32;
    (0x3041 <= u && u <= 0x3096) || (0x309D <= u && u <= 0x309F)
}

pub(crate) fn is_kana_or_bar_exec(c: char) -> (r: bool)
    ensures
        r == is_kana_or_bar(c),
{
    is_hiragana(c) || c == 'ー'
}

proof fn lemma_first_non_kana_unique(s: Seq<char>, k1: int, k2: int)
    requires
        is_first_non_kana(s, k1),
        is_first_non_kana(s, k2),
    ensures
        k1 == k2,
{
    if k1 < k2 {
        assert(is_kana_or_bar(s[k1]));
    } else if k2 < k1 {
        assert(is_kana_or_bar(s[k2]));
    }
}

/// Strips the okurigana of `chars` (see [`spec_okurigana`]).
pub(crate) fn okurigana_chars(chars: &Vec<char>) -> (r: Vec<char>)
    ensures
        r@ == spec_okurigana(chars@),
{
    let n = chars.len();
    let mut k: usize = 0;
    while k < n && is_kana_or_bar_exec(chars[k])
        invariant
            n == chars@.len(),
            k <= n,
            forall|j: int| 0 <= j < k ==> is_kana_or_bar(#[trigger] chars@[j]),
        decreases n - k,
    {
        k = k + 1;
    }
    if k == n {
        proof {
            assert(all_kana_or_bar(chars@));
        }
        return chars.clone();
    }
    proof {
        assert(is_first_non_kana(chars@, k as int));
        let kk = choose|kk: int| is_first_non_kana(chars@, kk);
        lemma_first_non_kana_unique(chars@, k as int, kk);
        assert(!all_kana_or_bar(chars@)) by {
            assert(!is_kana_or_bar(chars@[k as int]));
        }
    }
    let mut out: Vec<char> = Vec::new();
    let mut i: usize = 0;
    while i < k
        invariant
            i <= k < n,
            n == chars@.len(),
            out@ == chars@.take(i as int),
        decreases k - i,
    {
        out.push(chars[i]);
        i = i + 1;
        proof {
            assert(out@ =~= chars@.take(i as int));
        }
    }
    let ghost prefix = out@;
    let mut j: usize = k;
    while j < n
        invariant
            k <= j <= n,
            n == chars@.len(),
            prefix == chars@.take(k as int),
            out@ == prefix + drop_hiragana(chars@.subrange(k as int, j as int)),
        decreases n - j,
    {
        let c = chars[j];
        proof {
            let sub = chars@.subrange(k as int, j as int + 1);
            assert(sub.drop_last() =~= chars@.subrange(k as int, j as int));
            assert(sub.last() == c);
        }
        if !is_hiragana(c) {
            out.push(c);
        }
        j = j + 1;
        proof {
            assert(out@ =~= prefix + drop_hiragana(chars@.subrange(k as int, j as int)));
        }
    }
    proof {
        assert(chars@.subrange(k as int, n as int) =~= chars@.skip(k as int));
    }
    out
}

/// Strips the okurigana of `token` (see [`spec_okurigana`]): an all-hiragana
/// token is returned as is; otherwise the hiragana before the first other
/// character are kept and every later hiragana is removed.
pub fn normalize_okurigana(token: &str) -> (r: String)
    ensures
        r@ == spec_okurigana(token@),
{
    let chars = str_chars(token);
    let out = okurigana_chars(&chars);
    string_from_chars(out.as_slice())
}

} // verus!
