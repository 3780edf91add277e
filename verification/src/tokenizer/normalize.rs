//! Width and case normalisation.  When words are compared or looked up,
//! half-width katakana and full-width katakana, half-width and full-width
//! ASCII, and upper and lower case are identified: half-width katakana
//! become full-width, full-width ASCII becomes half-width, letters become
//! lower case.
use vstd::prelude::*;
use super::kana_table::{halfwidth_katakana_variant, katakana_entry, SEMI_VOICED_MARK, VOICED_MARK};
use crate::text::{str_chars};

verus! {

/// What std's `char::to_lowercase` yields for `c` (the Unicode lower-case
/// mapping, one or more characters).
pub uninterp spec fn char_lowercase(c: char) -> Seq<char>;

/// ASCII lower-casing: `A`..=`Z` map to `a`..=`z`, other ASCII characters
/// to themselves.
pub open spec fn ascii_lowercase(c: char) -> char {
    if 'A' <= c <= 'Z' {
        ((c as u32) + 32) as char
    } else {
        c
    }
}

/// Characters that have no case in Unicode: CJK symbols and punctuation,
/// hiragana and katakana (U+3000..=U+30FF), the CJK unified ideographs
/// (U+4E00..=U+9FFF), and the full-width white parentheses and the
/// half-width katakana block (U+FF5F..=U+FF9F).
pub open spec fn is_caseless(c: char) -> bool {
    ||| 0x3000 <= c as u32 <= 0x30FF
    ||| 0x4E00 <= c as u32 <= 0x9FFF
    ||| 0xFF5F <= c as u32 <= 0xFF9F
}

/// The lower case of `c`: ASCII letters per [`ascii_lowercase`], a
/// caseless character itself, any other character what std's
/// `char::to_lowercase` yields ([`char_lowercase`]).
pub open spec fn lower_case(c: char) -> Seq<char> {
    if (c as u32) < 128 {
        seq![ascii_lowercase(c)]
    } else if is_caseless(c) {
        seq![c]
    } else {
        char_lowercase(c)
    }
}

/// std's `char::to_lowercase`, collected.  Trusted: the result is
/// [`char_lowercase`] of `c`; for an ASCII character it is the single ASCII
/// lower-case character (as std documents for ASCII input); a character
/// without a lower-case mapping in Unicode's data, as every character of
/// [`is_caseless`] is, yields itself (as std documents).  What it yields for
/// other characters is not stated beyond the name.
#[verifier::external_body]
fn lowercase_of(c: char) -> (r: Vec<char>)
    ensures
        r@ == char_lowercase(c),
        (c as u32) < 128 ==> r@ == seq![ascii_lowercase(c)],
        is_caseless(c) ==> r@ == seq![c],
{
    c.to_lowercase().collect()
}

/// Full-width ASCII (U+FF01..=U+FF5E) to its half-width counterpart.
pub open spec fn fullwidth_to_halfwidth(c: char) -> Option<char> {
    if 0xFF01 <= c as u32 <= 0xFF5E {
        Some(((c as u32) - 0xFEE0) as char)
    } else {
        None
    }
}

fn fullwidth_ascii_to_halfwidth(c: char) -> (r: Option<char>)
    ensures
        r == fullwidth_to_halfwidth(c),
{
    let u = c as u32;
    if 0xFF01 <= u && u <= 0xFF5E {
        Some(((u - 0xFEE0) as u8) as char)
    } else {
        None
    }
}

/// Width and case normalisation of `s`, character by character from the
/// front: a half-width katakana followed by a voiced / semi-voiced mark that
/// it has a combined form for becomes that combined full-width character
/// (both input characters are consumed); any other half-width katakana
/// becomes its full-width base form; the ideographic space becomes a space;
/// full-width ASCII becomes the lower case of its half-width form; every
/// other character is lower-cased.
pub open spec fn spec_normalize_width_and_case(s: Seq<char>) -> Seq<char>
    decreases s.len(),
{
    if s.len() == 0 {
        seq![]
    } else {
        let c = s[0];
        match katakana_entry(c) {
            Some((base, voiced, semi)) => {
                if s.len() >= 2 && s[1] == VOICED_MARK && voiced is Some {
                    seq![voiced->0] + spec_normalize_width_and_case(s.skip(2))
                } else if s.len() >= 2 && s[1] == SEMI_VOICED_MARK && semi is Some {
                    seq![semi->0] + spec_normalize_width_and_case(s.skip(2))
                } else {
                    seq![base] + spec_normalize_width_and_case(s.skip(1))
                }
            },
            None => {
                if c == '\u{3000}' {
                    seq![' '] + spec_normalize_width_and_case(s.skip(1))
                } else {
                    match fullwidth_to_halfwidth(c) {
                        Some(h) => lower_case(h) + spec_normalize_width_and_case(s.skip(1)),
                        None => lower_case(c) + spec_normalize_width_and_case(s.skip(1)),
                    }
                }
            },
        }
    }
}

fn push_all(out: &mut Vec<char>, v: &Vec<char>)
    ensures
        final(out)@ == old(out)@ + v@,
{
    let ghost o = out@;
    let mut i: usize = 0;
    while i < v.len()
        invariant
            i <= v@.len(),
            out@ == o + v@.take(i as int),
        decreases v@.len() - i,
    {
        out.push(v[i]);
        i = i + 1;
        proof {
            assert(out@ =~= o + v@.take(i as int));
        }
    }
    proof {
        assert(v@.take(v@.len() as int) =~= v@);
    }
}

/// Width and case normalisation of a character sequence.
pub(crate) fn normalize_width_and_case_chars(chars: &Vec<char>) -> (r: Vec<char>)
    ensures
        r@ == spec_normalize_width_and_case(chars@),
{
    let n = chars.len();
    let mut out: Vec<char> = Vec::new();
    let mut i: usize = 0;
    proof {
        assert(chars@.skip(0) =~= chars@);
    }
    while i < n
        invariant
            n == chars@.len(),
            i <= n,
            spec_normalize_width_and_case(chars@)
                == out@ + spec_normalize_width_and_case(chars@.skip(i as int)),
        decreases n - i,
    {
        let ghost rest = chars@.skip(i as int);
        let c = chars[i];
        assert(rest[0] == c);
        match halfwidth_katakana_variant(c) {
            Some((base, voiced, semivoiced)) => {
                let next: Option<char> = if i + 1 < n { Some(chars[i + 1]) } else { None };
                if next == Some(VOICED_MARK) && voiced.is_some() {
                    out.push(voiced.unwrap());
                    proof {
                        assert(rest.skip(2) =~= chars@.skip(i + 2));
                        assert(rest[1] == chars@[i + 1]);
                    }
                    i = i + 2;
                    continue;
                }
                if next == Some(SEMI_VOICED_MARK) && semivoiced.is_some() {
                    out.push(semivoiced.unwrap());
                    proof {
                        assert(rest.skip(2) =~= chars@.skip(i + 2));
                        assert(rest[1] == chars@[i + 1]);
                    }
                    i = i + 2;
                    continue;
                }
                out.push(base);
                proof {
                    assert(rest.skip(1) =~= chars@.skip(i + 1));
                    if rest.len() >= 2 {
                        assert(rest[1] == chars@[i + 1]);
                    }
                }
                i = i + 1;
                continue;
            },
            None => {},
        }
        proof {
            assert(rest.skip(1) =~= chars@.skip(i + 1));
        }
        if c == '\u{3000}' {
            out.push(' ');
            i = i + 1;
            continue;
        }
        match fullwidth_ascii_to_halfwidth(c) {
            Some(half) => {
                let lower = lowercase_of(half);
                push_all(&mut out, &lower);
            },
            None => {
                let lower = lowercase_of(c);
                push_all(&mut out, &lower);
            },
        }
        i = i + 1;
    }
    proof {
        assert(chars@.skip(n as int) =~= Seq::<char>::empty());
        assert(out@ + seq![] =~= out@);
    }
    out
}

/// Width and case normalisation of `s` (see
/// [`spec_normalize_width_and_case`]); okurigana are not touched.
pub fn normalize_width_and_case(s: &str) -> (r: String)
    ensures
        r@ == spec_normalize_width_and_case(s@),
{
    let chars = str_chars(s);
    let out = normalize_width_and_case_chars(&chars);
    crate::text::string_from_chars(out.as_slice())
}

} // verus!
