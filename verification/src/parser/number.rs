//! Number literals: conversion of a number token to an integer.
use vstd::prelude::*;
use crate::tokenizer::{Token, toks_view};
use super::error::ParseError;
use super::grammar::{
    ascii_number, ascii_number_char, all_ascii_digits, digits_value, parse_i64, number_value,
};
use crate::text::{push_str, string_from_str};

verus! {

proof fn lemma_ascii_number(s: Seq<char>)
    ensures
        (ascii_number(s) is Some) <==> (forall|i: int|
            0 <= i < s.len() ==> #[trigger] ascii_number_char(s[i]) is Some),
        ascii_number(s) is Some ==> ascii_number(s)->0.len() == s.len() && (forall|i: int|
            0 <= i < s.len() ==> ascii_number(s)->0[i] == #[trigger] ascii_number_char(s[i])->0),
    decreases s.len(),
{
    if s.len() > 0 {
        let d = s.drop_last();
        lemma_ascii_number(d);
        assert forall|i: int| 0 <= i < d.len() implies d[i] == s[i] by {}
        if !(ascii_number_char(s.last()) is Some) {
            assert(!(ascii_number_char(s[s.len() - 1]) is Some));
        }
    }
}

proof fn lemma_digits_monotone(s: Seq<char>, k: int)
    requires
        all_ascii_digits(s),
        0 <= k <= s.len(),
    ensures
        digits_value(s.take(k)) <= digits_value(s),
    decreases s.len(),
{
    if k < s.len() {
        let d = s.drop_last();
        assert(all_ascii_digits(d)) by {
            assert forall|i: int| 0 <= i < d.len() implies '0' <= #[trigger] d[i] <= '9' by {
                assert(d[i] == s[i]);
            }
        }
        lemma_digits_monotone(d, k);
        assert(d.take(k) =~= s.take(k));
        assert('0' <= s[s.len() - 1] <= '9');
    } else {
        assert(s.take(k) =~= s);
    }
}

/// Maps every character of a number literal to ASCII, if it can be.
fn ascii_number_exec(raw: &Vec<char>) -> (r: Option<Vec<char>>)
    ensures
        r matches Some(v) ==> ascii_number(raw@) == Some(v@),
        r is None ==> ascii_number(raw@) is None,
{
    let mut out: Vec<char> = Vec::new();
    let mut j: usize = 0;
    while j < raw.len()
        invariant
            j <= raw@.len(),
            out@.len() == j,
            forall|i: int| 0 <= i < j ==> #[trigger] ascii_number_char(raw@[i]) is Some,
            forall|i: int| 0 <= i < j ==> out@[i] == #[trigger] ascii_number_char(raw@[i])->0,
        decreases raw@.len() - j,
    {
        let c = raw[j];
        let m: char = if ('0' <= c && c <= '9') || c == '-' {
            c
        } else if '\u{FF10}' <= c && c <= '\u{FF19}' {
            (((c as u32) - 0xFF10 + 48) as u8) as char
        } else if c == '\u{FF0D}' {
            '-'
        } else {
            proof {
                lemma_ascii_number(raw@);
                assert(!(ascii_number_char(raw@[j as int]) is Some));
            }
            return None;
        };
        out.push(m);
        j = j + 1;
    }
    proof {
        lemma_ascii_number(raw@);
        assert(ascii_number(raw@)->0 =~= out@);
    }
    Some(out)
}

/// `i64` parsing of ASCII digits with an optional leading '-'.
fn parse_i64_exec(a: &Vec<char>) -> (r: Option<i64>)
    ensures
        r == parse_i64(a@),
{
    let n = a.len();
    let neg = n > 0 && a[0] == '-';
    let start: usize = if neg { 1 } else { 0 };
    if n <= start {
        return None;
    }
    let limit: u64 = if neg { 0x8000_0000_0000_0000u64 } else { 0x7FFF_FFFF_FFFF_FFFFu64 };
    let ghost d = a@.subrange(start as int, n as int);
    proof {
        if neg {
            assert(a@.skip(1) =~= d);
        } else {
            assert(a@ =~= d);
        }
    }
    let mut acc: u64 = 0;
    let mut j = start;
    proof {
        assert(d.take(0) =~= Seq::<char>::empty());
    }
    while j < n
        invariant
            start <= j <= n == a@.len(),
            d == a@.subrange(start as int, n as int),
            acc as nat == digits_value(d.take(j - start)),
            acc <= limit,
            limit >= 9,
            neg == (a@.len() > 0 && a@[0] == '-'),
            start == (if neg { 1usize } else { 0usize }),
            limit == (if neg { 0x8000_0000_0000_0000u64 } else { 0x7FFF_FFFF_FFFF_FFFFu64 }),
            neg ==> d == a@.skip(1),
            !neg ==> d == a@,
            all_ascii_digits(d.take(j - start)),
        decreases n - j,
    {
        let c = a[j];
        assert(d[j - start] == c);
        if !('0' <= c && c <= '9') {
            proof {
                assert(!all_ascii_digits(d));
            }
            return None;
        }
        let dig: u64 = (c as u64) - 48;
        let ghost prev = d.take(j - start);
        proof {
            assert(d.take(j - start + 1).drop_last() =~= prev);
            assert(d.take(j - start + 1).last() == c);
        }
        if acc > (limit - dig) / 10 {
            proof {
                assert(acc * 10 + dig > limit) by (nonlinear_arith)
                    requires
                        acc > (limit - dig) / 10,
                        dig <= 9,
                        limit >= 9,
                ;
                if all_ascii_digits(d) {
                    lemma_digits_monotone(d, j - start + 1);
                }
            }
            return None;
        }
        proof {
            assert(acc * 10 + dig <= limit) by (nonlinear_arith)
                requires
                    acc <= (limit - dig) / 10,
                    dig <= 9,
                    limit >= 9,
            ;
        }
        acc = acc * 10 + dig;
        j = j + 1;
        proof {
            assert forall|i: int| 0 <= i < j - start implies '0' <= #[trigger] d.take(j - start)[i] <= '9' by {
                if i < j - start - 1 {
                    assert(d.take(j - start)[i] == prev[i]);
                }
            }
        }
    }
    proof {
        assert(d.take(n - start) =~= d);
    }
    if neg {
        if acc == 0x8000_0000_0000_0000u64 {
            Some(i64::MIN)
        } else {
            Some(-(acc as i64))
        }
    } else {
        Some(acc as i64)
    }
}

fn quoted_message(prefix: &str, raw: &String) -> (r: String)
    ensures
        r@ == prefix@ + raw@ + "」"@,
{
    let mut s = string_from_str(prefix);
    push_str(&mut s, raw.as_str());
    push_str(&mut s, "」");
    s
}

/// Converts number literal `raw` (token `pos`) to an integer (see
/// [`number_value`]): ASCII and full-width digits and minus signs only.
pub fn parse_number_literal(raw: &String, tokens: &[Token], pos: usize) -> (r: Result<i64, ParseError>)
    ensures
        match r {
            Ok(v) => number_value(raw@, toks_view(tokens@), pos as int) == Ok::<i64, super::error::SpecParseError>(v),
            Err(e) => number_value(raw@, toks_view(tokens@), pos as int) == Err::<i64, super::error::SpecParseError>(e@),
        },
{
    let chars = crate::text::str_chars(raw.as_str());
    match ascii_number_exec(&chars) {
        None => Err(ParseError::new(
            quoted_message("整数以外の数値リテラルはフェーズ1では未対応です: 「", raw),
            tokens,
            pos,
        )),
        Some(a) => match parse_i64_exec(&a) {
            None => Err(ParseError::new(
                quoted_message("数値リテラルの解析に失敗しました: 「", raw),
                tokens,
                pos,
            )),
            Some(v) => Ok(v),
        },
    }
}

} // verus!
