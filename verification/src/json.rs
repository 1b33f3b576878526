//! The settings metadata text: a compact JSON object with the keys
//! `horz_seed`, `horz_selectors`, `spacing`, `vert_seed` and
//! `vert_selectors` in that order, the spacing written with one fractional
//! digit, the selectors as arrays of `true` and `false`. Encoding and
//! decoding are exact inverses of one another.

use vstd::prelude::*;
use crate::params::RectSettings;

verus! {

/// The bytes `{"horz_seed":` opening the object.
pub open spec fn frag_hseed() -> Seq<u8> {
    seq![123u8, 34u8, 104u8, 111u8, 114u8, 122u8, 95u8, 115u8, 101u8, 101u8, 100u8, 34u8, 58u8]
}

/// The bytes `,"horz_selectors":`.
pub open spec fn frag_hsel() -> Seq<u8> {
    seq![
        44u8,
        34u8,
        104u8,
        111u8,
        114u8,
        122u8,
        95u8,
        115u8,
        101u8,
        108u8,
        101u8,
        99u8,
        116u8,
        111u8,
        114u8,
        115u8,
        34u8,
        58u8,
    ]
}

/// The bytes `,"spacing":`.
pub open spec fn frag_spacing() -> Seq<u8> {
    seq![44u8, 34u8, 115u8, 112u8, 97u8, 99u8, 105u8, 110u8, 103u8, 34u8, 58u8]
}

/// The bytes `,"vert_seed":`.
pub open spec fn frag_vseed() -> Seq<u8> {
    seq![44u8, 34u8, 118u8, 101u8, 114u8, 116u8, 95u8, 115u8, 101u8, 101u8, 100u8, 34u8, 58u8]
}

/// The bytes `,"vert_selectors":`.
pub open spec fn frag_vsel() -> Seq<u8> {
    seq![
        44u8,
        34u8,
        118u8,
        101u8,
        114u8,
        116u8,
        95u8,
        115u8,
        101u8,
        108u8,
        101u8,
        99u8,
        116u8,
        111u8,
        114u8,
        115u8,
        34u8,
        58u8,
    ]
}

/// The decimal digits of `n`, most significant first, no leading zero.
pub open spec fn dec_digits(n: nat) -> Seq<u8>
    decreases n,
{
    if n < 10 {
        seq![(48 + n) as u8]
    } else {
        dec_digits(n / 10).push((48 + n % 10) as u8)
    }
}

/// The spacing in tenths of a pixel, written as a decimal number with
/// exactly one fractional digit.
pub open spec fn spacing_digits(tenths: nat) -> Seq<u8> {
    dec_digits(tenths / 10) + seq![46u8, (48 + tenths % 10) as u8]
}

/// The bytes of one boolean literal.
pub open spec fn bool_lit(b: bool) -> Seq<u8> {
    if b {
        seq![116u8, 114u8, 117u8, 101u8]
    } else {
        seq![102u8, 97u8, 108u8, 115u8, 101u8]
    }
}

/// The comma-led continuation of a boolean array body.
pub open spec fn bools_tail(s: Seq<bool>) -> Seq<u8>
    decreases s.len(),
{
    if s.len() == 0 {
        Seq::empty()
    } else {
        seq![44u8] + bool_lit(s[0]) + bools_tail(s.skip(1))
    }
}

/// The body of a boolean array: the literals joined by commas.
pub open spec fn bools_body(s: Seq<bool>) -> Seq<u8> {
    if s.len() == 0 {
        Seq::empty()
    } else {
        bool_lit(s[0]) + bools_tail(s.skip(1))
    }
}

/// A boolean array with its brackets.
pub open spec fn bools_lit(s: Seq<bool>) -> Seq<u8> {
    seq![91u8] + bools_body(s) + seq![93u8]
}

/// The whole settings object for the given spacing (in tenths), seeds and
/// selector sequences.
pub open spec fn settings_json(sp: int, hs: int, vs: int, hb: Seq<bool>, vb: Seq<bool>) -> Seq<
    u8,
> {
    frag_hseed() + dec_digits(hs as nat) + frag_hsel() + bools_lit(hb) + frag_spacing()
        + spacing_digits(sp as nat) + frag_vseed() + dec_digits(vs as nat) + frag_vsel()
        + bools_lit(vb) + seq![125u8]
}

/// The settings object of a parameter value.
pub open spec fn settings_json_of(p: RectSettings) -> Seq<u8> {
    settings_json(
        p.spacing_tenths as int,
        p.horz_seed as int,
        p.vert_seed as int,
        p.horz_selectors@,
        p.vert_selectors@,
    )
}

/// An ASCII decimal digit.
pub open spec fn is_digit(b: u8) -> bool {
    48 <= b <= 57
}

/// Bytes that can stand in a textual metadata record: plain ASCII with no
/// zero byte, so the record's keyword separator stays unambiguous.
pub open spec fn text_safe(s: Seq<u8>) -> bool {
    forall|k: int| 0 <= k < s.len() ==> 0 < #[trigger] s[k] < 128
}

/// Safe bytes stay safe under concatenation.
proof fn lemma_text_safe_concat(a: Seq<u8>, b: Seq<u8>)
    requires
        text_safe(a),
        text_safe(b),
    ensures
        text_safe(a + b),
{
    assert forall|k: int| 0 <= k < (a + b).len() implies 0 < #[trigger] (a + b)[k] < 128 by {
        if k < a.len() {
            assert((a + b)[k] == a[k]);
        } else {
            assert((a + b)[k] == b[k - a.len()]);
        }
    }
}

/// A boolean array's tail bytes are safe.
proof fn lemma_bools_tail_safe(s: Seq<bool>)
    ensures
        text_safe(bools_tail(s)),
    decreases s.len(),
{
    if s.len() > 0 {
        lemma_bools_tail_safe(s.skip(1));
        lemma_text_safe_concat(seq![44u8], bool_lit(s[0]));
        lemma_text_safe_concat(seq![44u8] + bool_lit(s[0]), bools_tail(s.skip(1)));
    }
}

/// A whole boolean array's bytes are safe.
proof fn lemma_bools_lit_safe(s: Seq<bool>)
    ensures
        text_safe(bools_lit(s)),
{
    if s.len() == 0 {
        lemma_text_safe_concat(seq![91u8], bools_body(s));
    } else {
        lemma_bools_tail_safe(s.skip(1));
        lemma_text_safe_concat(bool_lit(s[0]), bools_tail(s.skip(1)));
        lemma_text_safe_concat(seq![91u8], bools_body(s));
    }
    lemma_text_safe_concat(seq![91u8] + bools_body(s), seq![93u8]);
}

/// Whether `pat` occurs in `s` at position `i`.
pub open spec fn at_pos(s: Seq<u8>, i: int, pat: Seq<u8>) -> bool {
    0 <= i && i + pat.len() <= s.len() && s.subrange(i, i + pat.len()) == pat
}

/// The length of the run of digits in `s` starting at `i`.
pub open spec fn digit_run(s: Seq<u8>, i: int) -> nat
    decreases s.len() - i,
{
    if 0 <= i < s.len() && is_digit(s[i]) {
        1 + digit_run(s, i + 1)
    } else {
        0
    }
}

/// The value of a digit string, most significant first.
pub open spec fn dec_val(s: Seq<u8>) -> int
    decreases s.len(),
{
    if s.len() == 0 {
        0
    } else {
        dec_val(s.drop_last()) * 10 + (s.last() - 48)
    }
}

/// Parse the canonical decimal number at position `i`: the maximal digit
/// run, rejected when empty or when it has a leading zero.
pub open spec fn parse_nat(s: Seq<u8>, i: int) -> Option<(int, int)> {
    let n = digit_run(s, i) as int;
    if n == 0 {
        None
    } else if n > 1 && s[i] == 48 {
        None
    } else {
        Some((dec_val(s.subrange(i, i + n)), i + n))
    }
}

/// Parse one boolean literal at position `i`.
pub open spec fn parse_bool(s: Seq<u8>, i: int) -> Option<(bool, int)> {
    if at_pos(s, i, bool_lit(true)) {
        Some((true, i + bool_lit(true).len()))
    } else if at_pos(s, i, bool_lit(false)) {
        Some((false, i + bool_lit(false).len()))
    } else {
        None
    }
}

/// Parse the rest of a boolean array after its first element: comma-led
/// literals up to the closing bracket.
pub open spec fn parse_bools_rest(s: Seq<u8>, i: int, acc: Seq<bool>) -> Option<(Seq<bool>, int)>
    decreases s.len() - i,
{
    if 0 <= i < s.len() && s[i] == 93 {
        Some((acc, i + 1))
    } else if 0 <= i < s.len() && s[i] == 44 {
        match parse_bool(s, i + 1) {
            Option::None => None,
            Option::Some((b, j)) => if i < j <= s.len() {
                parse_bools_rest(s, j, acc.push(b))
            } else {
                None
            },
        }
    } else {
        None
    }
}

/// Parse a non-empty bracketed boolean array at position `i`.
pub open spec fn parse_bools(s: Seq<u8>, i: int) -> Option<(Seq<bool>, int)> {
    if 0 <= i < s.len() && s[i] == 91 {
        match parse_bool(s, i + 1) {
            Option::None => None,
            Option::Some((b, j)) => parse_bools_rest(s, j, seq![b]),
        }
    } else {
        None
    }
}

/// Parse a spacing value at position `i`: a whole part and exactly one
/// fractional digit, yielding the value in tenths.
pub open spec fn parse_spacing(s: Seq<u8>, i: int) -> Option<(int, int)> {
    match parse_nat(s, i) {
        Option::None => None,
        Option::Some((w, j)) => if j + 1 < s.len() && s[j] == 46 && is_digit(s[j + 1]) {
            Some((w * 10 + (s[j + 1] - 48), j + 2))
        } else {
            None
        },
    }
}

/// Parse a whole settings object: the fixed keys in order, the seeds at
/// most 255, the spacing positive and within range, nothing after the
/// closing brace. This is exactly the inverse of `settings_json`.
pub open spec fn parse_settings(s: Seq<u8>) -> Option<(int, int, int, Seq<bool>, Seq<bool>)> {
    if at_pos(s, 0, frag_hseed()) {
        match parse_nat(s, frag_hseed().len() as int) {
            Option::None => None,
            Option::Some((hs, i2)) => if 0 <= hs <= 255 && at_pos(s, i2, frag_hsel()) {
                match parse_bools(s, i2 + frag_hsel().len()) {
                    Option::None => None,
                    Option::Some((hb, i3)) => if at_pos(s, i3, frag_spacing()) {
                        match parse_spacing(s, i3 + frag_spacing().len()) {
                            Option::None => None,
                            Option::Some((sp, i4)) => if 1 <= sp <= u32::MAX && at_pos(
                                s,
                                i4,
                                frag_vseed(),
                            ) {
                                match parse_nat(s, i4 + frag_vseed().len()) {
                                    Option::None => None,
                                    Option::Some((vs, i5)) => if 0 <= vs <= 255 && at_pos(
                                        s,
                                        i5,
                                        frag_vsel(),
                                    ) {
                                        match parse_bools(s, i5 + frag_vsel().len()) {
                                            Option::None => None,
                                            Option::Some((vb, i6)) => if i6 + 1 == s.len() && s[i6]
                                                == 125 {
                                                Some((sp, hs, vs, hb, vb))
                                            } else {
                                                None
                                            },
                                        }
                                    } else {
                                        None
                                    },
                                }
                            } else {
                                None
                            },
                        }
                    } else {
                        None
                    },
                }
            } else {
                None
            },
        }
    } else {
        None
    }
}

/// Appending one element to a boolean sequence appends one comma-led
/// literal to its tail bytes.
proof fn lemma_bools_tail_push(s: Seq<bool>, b: bool)
    ensures
        bools_tail(s.push(b)) == bools_tail(s) + seq![44u8] + bool_lit(b),
    decreases s.len(),
{
    if s.len() == 0 {
        assert(s.push(b)[0] == b);
        assert(s.push(b).skip(1) =~= Seq::<bool>::empty());
        assert(bools_tail(Seq::<bool>::empty()) == Seq::<u8>::empty());
        assert(bools_tail(s.push(b)) == seq![44u8] + bool_lit(b) + bools_tail(s.push(b).skip(1)));
        assert(bools_tail(s.push(b)) =~= bools_tail(s) + seq![44u8] + bool_lit(b));
    } else {
        assert(s.push(b).skip(1) =~= s.skip(1).push(b));
        lemma_bools_tail_push(s.skip(1), b);
        assert(bools_tail(s.push(b)) =~= bools_tail(s) + seq![44u8] + bool_lit(b));
    }
}

/// Appending one element to a non-empty boolean sequence appends one
/// comma-led literal to its body bytes.
proof fn lemma_bools_body_push(s: Seq<bool>, b: bool)
    requires
        s.len() >= 1,
    ensures
        bools_body(s.push(b)) == bools_body(s) + seq![44u8] + bool_lit(b),
{
    assert(s.push(b)[0] == s[0]);
    assert(s.push(b).skip(1) =~= s.skip(1).push(b));
    lemma_bools_tail_push(s.skip(1), b);
    assert(bools_body(s.push(b)) =~= bools_body(s) + seq![44u8] + bool_lit(b));
}

/// The decimal digits of a number are safe record bytes.
proof fn lemma_dec_digits_safe(n: nat)
    ensures
        text_safe(dec_digits(n)),
{
    lemma_dec_digits_props(n);
}

/// The whole encoded settings object consists of safe record bytes: plain
/// ASCII, no zero byte.
pub proof fn lemma_settings_json_safe(sp: int, hs: int, vs: int, hb: Seq<bool>, vb: Seq<bool>)
    ensures
        text_safe(settings_json(sp, hs, vs, hb, vb)),
{
    let f1 = frag_hseed();
    let d1 = dec_digits(hs as nat);
    let f2 = frag_hsel();
    let b1 = bools_lit(hb);
    let f3 = frag_spacing();
    let sd = spacing_digits(sp as nat);
    let f4 = frag_vseed();
    let d2 = dec_digits(vs as nat);
    let f5 = frag_vsel();
    let b2 = bools_lit(vb);
    lemma_dec_digits_safe(hs as nat);
    lemma_dec_digits_safe(vs as nat);
    lemma_dec_digits_safe((sp as nat) / 10);
    lemma_bools_lit_safe(hb);
    lemma_bools_lit_safe(vb);
    lemma_text_safe_concat(dec_digits((sp as nat) / 10), seq![46u8, (48 + (sp as nat) % 10) as u8]);
    lemma_text_safe_concat(f1, d1);
    lemma_text_safe_concat(f1 + d1, f2);
    lemma_text_safe_concat(f1 + d1 + f2, b1);
    lemma_text_safe_concat(f1 + d1 + f2 + b1, f3);
    lemma_text_safe_concat(f1 + d1 + f2 + b1 + f3, sd);
    lemma_text_safe_concat(f1 + d1 + f2 + b1 + f3 + sd, f4);
    lemma_text_safe_concat(f1 + d1 + f2 + b1 + f3 + sd + f4, d2);
    lemma_text_safe_concat(f1 + d1 + f2 + b1 + f3 + sd + f4 + d2, f5);
    lemma_text_safe_concat(f1 + d1 + f2 + b1 + f3 + sd + f4 + d2 + f5, b2);
    lemma_text_safe_concat(f1 + d1 + f2 + b1 + f3 + sd + f4 + d2 + f5 + b2, seq![125u8]);
}

/// A pattern at a position splits into its two halves at their positions.
proof fn lemma_concat_at(s: Seq<u8>, i: int, a: Seq<u8>, b: Seq<u8>)
    requires
        at_pos(s, i, a + b),
    ensures
        at_pos(s, i, a),
        at_pos(s, i + a.len(), b),
{
    assert(forall|k: int| 0 <= k < (a + b).len() ==> s[i + k] == #[trigger] (a + b)[k]) by {
        assert(forall|k: int|
            0 <= k < (a + b).len() ==> #[trigger] (a + b)[k] == s.subrange(
                i,
                i + (a + b).len(),
            )[k]);
    }
    assert(forall|k: int| 0 <= k < b.len() ==> s[i + a.len() + k] == #[trigger] b[k]) by {
        assert(forall|k: int| 0 <= k < b.len() ==> #[trigger] b[k] == (a + b)[a.len() + k]);
    }
    assert(s.subrange(i, i + a.len()) =~= a);
    assert(s.subrange(i + a.len(), i + a.len() + b.len()) =~= b);
}

/// Every byte of a pattern at a position stands in the data at its offset.
proof fn lemma_at_pos_bytes(s: Seq<u8>, i: int, pat: Seq<u8>)
    requires
        at_pos(s, i, pat),
    ensures
        forall|k: int| 0 <= k < pat.len() ==> s[i + k] == #[trigger] pat[k],
{
    assert(forall|k: int|
        0 <= k < pat.len() ==> #[trigger] pat[k] == s.subrange(i, i + pat.len())[k]);
}

/// The decimal digits of a number are digits, there is at least one, and
/// the first is zero only for the number zero.
proof fn lemma_dec_digits_props(n: nat)
    ensures
        dec_digits(n).len() >= 1,
        forall|k: int| 0 <= k < dec_digits(n).len() ==> is_digit(#[trigger] dec_digits(n)[k]),
        n >= 1 ==> dec_digits(n)[0] != 48,
    decreases n,
{
    if n >= 10 {
        lemma_dec_digits_props(n / 10);
        assert(dec_digits(n) == dec_digits(n / 10).push((48 + n % 10) as u8));
        assert forall|k: int| 0 <= k < dec_digits(n).len() implies is_digit(
            #[trigger] dec_digits(n)[k],
        ) by {
            if k < dec_digits(n / 10).len() {
                assert(dec_digits(n)[k] == dec_digits(n / 10)[k]);
            }
        }
    }
}

/// Reading the decimal digits of a number back gives the number.
proof fn lemma_dec_val_digits(n: nat)
    ensures
        dec_val(dec_digits(n)) == n,
    decreases n,
{
    if n < 10 {
        assert(dec_digits(n).drop_last() =~= Seq::<u8>::empty());
        assert(dec_val(Seq::<u8>::empty()) == 0);
        assert(dec_digits(n).last() == (48 + n) as u8);
    } else {
        lemma_dec_val_digits(n / 10);
        assert(dec_digits(n).drop_last() =~= dec_digits(n / 10));
        assert(n / 10 * 10 + n % 10 == n) by {
            vstd::arithmetic::div_mod::lemma_fundamental_div_mod(n as int, 10);
        }
    }
}

/// A digit run bounded by a non-digit (or the end of the data) has exactly
/// the length of the all-digit stretch.
proof fn lemma_digit_run_range(s: Seq<u8>, a: int, b: int)
    requires
        0 <= a <= b <= s.len(),
        forall|k: int| a <= k < b ==> is_digit(#[trigger] s[k]),
        b == s.len() || !is_digit(s[b]),
    ensures
        digit_run(s, a) == b - a,
    decreases b - a,
{
    if a < b {
        lemma_digit_run_range(s, a + 1, b);
    }
}

/// The canonical number parse at a position holding the decimal digits of
/// `n`, followed by a non-digit or the end, yields `n`.
proof fn lemma_parse_nat_at(s: Seq<u8>, i: int, n: nat)
    requires
        at_pos(s, i, dec_digits(n)),
        i + dec_digits(n).len() == s.len() || !is_digit(s[i + dec_digits(n).len()]),
    ensures
        parse_nat(s, i) == Some((n as int, i + dec_digits(n).len())),
{
    let dd = dec_digits(n);
    let l = dd.len() as int;
    lemma_dec_digits_props(n);
    assert(forall|k: int| 0 <= k < l ==> s[i + k] == #[trigger] dd[k]) by {
        assert(forall|k: int|
            0 <= k < l ==> #[trigger] dd[k] == s.subrange(i, i + l)[k] == s[i + k]);
    }
    assert(forall|k: int| i <= k < i + l ==> is_digit(#[trigger] s[k])) by {
        assert(forall|k: int| i <= k < i + l ==> s[k] == dd[k - i] && is_digit(dd[k - i]));
    }
    lemma_digit_run_range(s, i, i + l);
    if l > 1 {
        assert(n >= 1) by {
            if n == 0 {
                assert(dec_digits(0).len() == 1);
            }
        }
        assert(s[i] == dd[0]);
        assert(s[i] != 48);
    }
    assert(s.subrange(i, i + l) == dd);
    lemma_dec_val_digits(n);
}

/// A boolean literal at a position parses to its value.
proof fn lemma_parse_bool_at(s: Seq<u8>, i: int, b: bool)
    requires
        at_pos(s, i, bool_lit(b)),
    ensures
        parse_bool(s, i) == Some((b, i + bool_lit(b).len())),
{
    if !b {
        assert(s[i] == s.subrange(i, i + 5)[0]);
        assert(s[i] == 102);
        if at_pos(s, i, bool_lit(true)) {
            assert(s[i] == s.subrange(i, i + 4)[0]);
            assert(s[i] == 116);
        }
    }
}

/// The tail of a boolean array (comma-led literals up to the closing
/// bracket) parses to the array's elements appended to the accumulator.
proof fn lemma_parse_bools_rest_at(s: Seq<u8>, i: int, acc: Seq<bool>, bs: Seq<bool>)
    requires
        at_pos(s, i, bools_tail(bs) + seq![93u8]),
    ensures
        parse_bools_rest(s, i, acc) == Some(
            (acc + bs, i + bools_tail(bs).len() + 1),
        ),
    decreases bs.len(),
{
    let t = bools_tail(bs) + seq![93u8];
    if bs.len() == 0 {
        assert(bools_tail(bs) == Seq::<u8>::empty());
        assert(t =~= seq![93u8]);
        lemma_at_pos_bytes(s, i, t);
        assert(s[i] == t[0]);
        assert(acc + bs =~= acc);
    } else {
        let bl = bool_lit(bs[0]);
        let rest = bools_tail(bs.skip(1));
        assert(bools_tail(bs) == seq![44u8] + bl + rest);
        assert(t =~= (seq![44u8] + bl) + (rest + seq![93u8]));
        lemma_concat_at(s, i, seq![44u8] + bl, rest + seq![93u8]);
        lemma_concat_at(s, i, seq![44u8], bl);
        lemma_at_pos_bytes(s, i, seq![44u8]);
        assert(s[i] == seq![44u8][0]);
        lemma_parse_bool_at(s, i + 1, bs[0]);
        let j = i + 1 + bl.len();
        lemma_parse_bools_rest_at(s, j, acc.push(bs[0]), bs.skip(1));
        assert(acc.push(bs[0]) + bs.skip(1) =~= acc + bs);
    }
}

/// A bracketed non-empty boolean array at a position parses to its
/// elements.
proof fn lemma_parse_bools_at(s: Seq<u8>, i: int, bs: Seq<bool>)
    requires
        bs.len() >= 1,
        at_pos(s, i, bools_lit(bs)),
    ensures
        parse_bools(s, i) == Some((bs, i + bools_lit(bs).len())),
{
    let bl = bool_lit(bs[0]);
    let rest = bools_tail(bs.skip(1));
    assert(bools_body(bs) == bl + rest);
    assert(bools_lit(bs) =~= (seq![91u8] + bl) + (rest + seq![93u8]));
    lemma_concat_at(s, i, seq![91u8] + bl, rest + seq![93u8]);
    lemma_concat_at(s, i, seq![91u8], bl);
    lemma_at_pos_bytes(s, i, seq![91u8]);
    assert(s[i] == seq![91u8][0]);
    lemma_parse_bool_at(s, i + 1, bs[0]);
    let j = i + 1 + bl.len();
    lemma_parse_bools_rest_at(s, j, seq![bs[0]], bs.skip(1));
    assert(seq![bs[0]] + bs.skip(1) =~= bs);
}

/// A spacing literal at a position parses back to its value in tenths.
proof fn lemma_parse_spacing_at(s: Seq<u8>, i: int, sp: nat)
    requires
        at_pos(s, i, spacing_digits(sp)),
    ensures
        parse_spacing(s, i) == Some((sp as int, i + spacing_digits(sp).len())),
{
    let w = sp / 10;
    let dd = dec_digits(w);
    let l = dd.len() as int;
    assert(spacing_digits(sp) == dd + seq![46u8, (48 + sp % 10) as u8]);
    assert(at_pos(s, i, dd)) by {
        assert(s.subrange(i, i + l) =~= dd);
    }
    assert(s[i + l] == s.subrange(i, i + l + 2)[l]);
    assert(s[i + l] == 46);
    assert(s[i + l + 1] == s.subrange(i, i + l + 2)[l + 1]);
    assert(s[i + l + 1] == (48 + sp % 10) as u8);
    lemma_parse_nat_at(s, i, w);
    assert(sp / 10 * 10 + sp % 10 == sp) by {
        vstd::arithmetic::div_mod::lemma_fundamental_div_mod(sp as int, 10);
    }
}

/// Where each piece of the encoded settings object stands: the fragments,
/// numbers and arrays at their accumulated offsets, the closing brace
/// last.
#[verifier::rlimit(100)]
proof fn lemma_settings_json_layout(sp: int, hs: int, vs: int, hb: Seq<bool>, vb: Seq<bool>)
    ensures
        ({
            let s = settings_json(sp, hs, vs, hb, vb);
            let p1 = frag_hseed().len() as int;
            let p2 = p1 + dec_digits(hs as nat).len();
            let p3 = p2 + frag_hsel().len();
            let p4 = p3 + bools_lit(hb).len();
            let p5 = p4 + frag_spacing().len();
            let p6 = p5 + spacing_digits(sp as nat).len();
            let p7 = p6 + frag_vseed().len();
            let p8 = p7 + dec_digits(vs as nat).len();
            let p9 = p8 + frag_vsel().len();
            let p10 = p9 + bools_lit(vb).len();
            &&& s.len() == p10 + 1
            &&& at_pos(s, 0, frag_hseed())
            &&& at_pos(s, p1, dec_digits(hs as nat))
            &&& at_pos(s, p2, frag_hsel())
            &&& at_pos(s, p3, bools_lit(hb))
            &&& at_pos(s, p4, frag_spacing())
            &&& at_pos(s, p5, spacing_digits(sp as nat))
            &&& at_pos(s, p6, frag_vseed())
            &&& at_pos(s, p7, dec_digits(vs as nat))
            &&& at_pos(s, p8, frag_vsel())
            &&& at_pos(s, p9, bools_lit(vb))
            &&& s[p10] == 125
            &&& s[p2] == 44
            &&& s[p8] == 44
        }),
{
    let s = settings_json(sp, hs, vs, hb, vb);
    let f1 = frag_hseed();
    let d1 = dec_digits(hs as nat);
    let f2 = frag_hsel();
    let b1 = bools_lit(hb);
    let f3 = frag_spacing();
    let sd = spacing_digits(sp as nat);
    let f4 = frag_vseed();
    let d2 = dec_digits(vs as nat);
    let f5 = frag_vsel();
    let b2 = bools_lit(vb);
    let p2 = f1.len() + d1.len();
    let p8 = p2 + f2.len() + b1.len() + f3.len() + sd.len() + f4.len() + d2.len();
    let p10 = p8 + f5.len() + b2.len();
    lemma_settings_json_layout_outer(sp, hs, vs, hb, vb);
    lemma_concat_at(s, 0, f1 + d1 + f2 + b1, f3);
    lemma_concat_at(s, 0, f1 + d1 + f2, b1);
    lemma_concat_at(s, 0, f1 + d1, f2);
    lemma_concat_at(s, 0, f1, d1);
    lemma_at_pos_bytes(s, p10 as int, seq![125u8]);
    assert(s[p10 as int] == seq![125u8][0]);
    lemma_at_pos_bytes(s, p2 as int, f2);
    assert(s[p2 as int] == f2[0]);
    lemma_at_pos_bytes(s, p8 as int, f5);
    assert(s[p8 as int] == f5[0]);
}

/// The outer half of the layout: the closing brace, both trailing arrays
/// and fragments, and the leading half as one block.
#[verifier::rlimit(100)]
proof fn lemma_settings_json_layout_outer(sp: int, hs: int, vs: int, hb: Seq<bool>, vb: Seq<bool>)
    ensures
        ({
            let s = settings_json(sp, hs, vs, hb, vb);
            let p4 = frag_hseed().len() + dec_digits(hs as nat).len() + frag_hsel().len()
                + bools_lit(hb).len();
            let p5 = p4 + frag_spacing().len();
            let p6 = p5 + spacing_digits(sp as nat).len();
            let p7 = p6 + frag_vseed().len();
            let p8 = p7 + dec_digits(vs as nat).len();
            let p9 = p8 + frag_vsel().len();
            let p10 = p9 + bools_lit(vb).len();
            &&& s.len() == p10 + 1
            &&& at_pos(
                s,
                0,
                frag_hseed() + dec_digits(hs as nat) + frag_hsel() + bools_lit(hb)
                    + frag_spacing(),
            )
            &&& at_pos(s, p5 as int, spacing_digits(sp as nat))
            &&& at_pos(s, p6 as int, frag_vseed())
            &&& at_pos(s, p7 as int, dec_digits(vs as nat))
            &&& at_pos(s, p8 as int, frag_vsel())
            &&& at_pos(s, p9 as int, bools_lit(vb))
            &&& at_pos(s, p10 as int, seq![125u8])
        }),
{
    let s = settings_json(sp, hs, vs, hb, vb);
    let f1 = frag_hseed();
    let d1 = dec_digits(hs as nat);
    let f2 = frag_hsel();
    let b1 = bools_lit(hb);
    let f3 = frag_spacing();
    let sd = spacing_digits(sp as nat);
    let f4 = frag_vseed();
    let d2 = dec_digits(vs as nat);
    let f5 = frag_vsel();
    let b2 = bools_lit(vb);
    assert(at_pos(s, 0, s)) by {
        assert(s.subrange(0, s.len() as int) =~= s);
    }
    lemma_concat_at(s, 0, f1 + d1 + f2 + b1 + f3 + sd + f4 + d2 + f5 + b2, seq![125u8]);
    lemma_concat_at(s, 0, f1 + d1 + f2 + b1 + f3 + sd + f4 + d2 + f5, b2);
    lemma_concat_at(s, 0, f1 + d1 + f2 + b1 + f3 + sd + f4 + d2, f5);
    lemma_concat_at(s, 0, f1 + d1 + f2 + b1 + f3 + sd + f4, d2);
    lemma_concat_at(s, 0, f1 + d1 + f2 + b1 + f3 + sd, f4);
    lemma_concat_at(s, 0, f1 + d1 + f2 + b1 + f3, sd);
}

/// Law: the settings codec round-trips. Parsing the encoded settings
/// object gives back the spacing (in tenths), both seeds and both selector
/// sequences exactly, element for element, in their original order.
#[verifier::rlimit(100)]
pub proof fn lemma_settings_round_trip(sp: int, hs: int, vs: int, hb: Seq<bool>, vb: Seq<bool>)
    requires
        1 <= sp <= u32::MAX,
        0 <= hs <= 255,
        0 <= vs <= 255,
        hb.len() >= 1,
        vb.len() >= 1,
    ensures
        parse_settings(settings_json(sp, hs, vs, hb, vb)) == Some((sp, hs, vs, hb, vb)),
{
    let s = settings_json(sp, hs, vs, hb, vb);
    let p1 = frag_hseed().len() as int;
    let p2 = p1 + dec_digits(hs as nat).len();
    let p3 = p2 + frag_hsel().len();
    let p4 = p3 + bools_lit(hb).len();
    let p5 = p4 + frag_spacing().len();
    let p6 = p5 + spacing_digits(sp as nat).len();
    let p7 = p6 + frag_vseed().len();
    let p8 = p7 + dec_digits(vs as nat).len();
    let p9 = p8 + frag_vsel().len();
    let p10 = p9 + bools_lit(vb).len();
    lemma_settings_json_layout(sp, hs, vs, hb, vb);
    lemma_parse_nat_at(s, p1, hs as nat);
    lemma_parse_bools_at(s, p3, hb);
    lemma_parse_spacing_at(s, p5, sp as nat);
    lemma_parse_nat_at(s, p7, vs as nat);
    lemma_parse_bools_at(s, p9, vb);
}

/// Append one byte.
fn push_byte(out: &mut Vec<u8>, b: u8)
    ensures
        final(out)@ == old(out)@ + seq![b],
{
    out.push(b);
    proof {
        assert(out@ =~= old(out)@ + seq![b]);
    }
}

/// Append the decimal digits of `n`.
fn push_dec(out: &mut Vec<u8>, n: u64)
    ensures
        final(out)@ == old(out)@ + dec_digits(n as nat),
    decreases n,
{
    if n >= 10 {
        push_dec(out, n / 10);
    }
    let d: u8 = 48 + (n % 10) as u8;
    out.push(d);
    proof {
        if n < 10 {
            assert(out@ =~= old(out)@ + dec_digits(n as nat));
        } else {
            assert(out@ =~= old(out)@ + dec_digits(n as nat));
        }
    }
}

/// Append one boolean literal.
fn push_bool_lit(out: &mut Vec<u8>, b: bool)
    ensures
        final(out)@ == old(out)@ + bool_lit(b),
{
    if b {
        out.push(116u8);
        out.push(114u8);
        out.push(117u8);
        out.push(101u8);
    } else {
        out.push(102u8);
        out.push(97u8);
        out.push(108u8);
        out.push(115u8);
        out.push(101u8);
    }
    proof {
        assert(out@ =~= old(out)@ + bool_lit(b));
    }
}

/// Append a whole boolean array with its brackets.
fn push_bools(out: &mut Vec<u8>, v: &Vec<bool>)
    requires
        v@.len() >= 1,
    ensures
        final(out)@ == old(out)@ + bools_lit(v@),
{
    push_byte(out, 91u8);
    push_bool_lit(out, v[0]);
    proof {
        assert(v@.subrange(0, 1).skip(1) =~= Seq::<bool>::empty());
        assert(v@.subrange(0, 1)[0] == v@[0]);
        assert(bools_body(v@.subrange(0, 1)) =~= bool_lit(v@[0]));
        assert(out@ =~= old(out)@ + seq![91u8] + bools_body(v@.subrange(0, 1)));
    }
    let mut i: usize = 1;
    while i < v.len()
        invariant
            1 <= i <= v@.len(),
            out@ == old(out)@ + seq![91u8] + bools_body(v@.subrange(0, i as int)),
        decreases v@.len() - i,
    {
        let ghost pre = v@.subrange(0, i as int);
        push_byte(out, 44u8);
        push_bool_lit(out, v[i]);
        proof {
            assert(v@.subrange(0, i + 1) =~= pre.push(v@[i as int]));
            lemma_bools_body_push(pre, v@[i as int]);
            assert(out@ =~= old(out)@ + seq![91u8] + bools_body(v@.subrange(0, i + 1)));
        }
        i = i + 1;
    }
    push_byte(out, 93u8);
    proof {
        assert(v@.subrange(0, v@.len() as int) =~= v@);
        assert(out@ =~= old(out)@ + bools_lit(v@));
    }
}

/// Append a fixed fragment given as bytes.
fn push_all(out: &mut Vec<u8>, bytes: &Vec<u8>)
    ensures
        final(out)@ == old(out)@ + bytes@,
{
    let mut i: usize = 0;
    while i < bytes.len()
        invariant
            i <= bytes@.len(),
            out@ == old(out)@ + bytes@.subrange(0, i as int),
        decreases bytes@.len() - i,
    {
        proof {
            assert(out@ + seq![bytes@[i as int]] =~= old(out)@ + bytes@.subrange(0, i + 1));
        }
        push_byte(out, bytes[i]);
        i = i + 1;
    }
    proof {
        assert(bytes@.subrange(0, bytes@.len() as int) =~= bytes@);
    }
}

/// The bytes `{"horz_seed":` as a value.
fn frag_hseed_vec() -> (r: Vec<u8>)
    ensures
        r@ == frag_hseed(),
{
    let mut v: Vec<u8> = Vec::new();
    v.push(123u8);
    v.push(34u8);
    v.push(104u8);
    v.push(111u8);
    v.push(114u8);
    v.push(122u8);
    v.push(95u8);
    v.push(115u8);
    v.push(101u8);
    v.push(101u8);
    v.push(100u8);
    v.push(34u8);
    v.push(58u8);
    proof {
        assert(v@ =~= frag_hseed());
    }
    v
}

/// The bytes `,"horz_selectors":` as a value.
fn frag_hsel_vec() -> (r: Vec<u8>)
    ensures
        r@ == frag_hsel(),
{
    let mut v: Vec<u8> = Vec::new();
    v.push(44u8);
    v.push(34u8);
    v.push(104u8);
    v.push(111u8);
    v.push(114u8);
    v.push(122u8);
    v.push(95u8);
    v.push(115u8);
    v.push(101u8);
    v.push(108u8);
    v.push(101u8);
    v.push(99u8);
    v.push(116u8);
    v.push(111u8);
    v.push(114u8);
    v.push(115u8);
    v.push(34u8);
    v.push(58u8);
    proof {
        assert(v@ =~= frag_hsel());
    }
    v
}

/// The bytes `,"spacing":` as a value.
fn frag_spacing_vec() -> (r: Vec<u8>)
    ensures
        r@ == frag_spacing(),
{
    let mut v: Vec<u8> = Vec::new();
    v.push(44u8);
    v.push(34u8);
    v.push(115u8);
    v.push(112u8);
    v.push(97u8);
    v.push(99u8);
    v.push(105u8);
    v.push(110u8);
    v.push(103u8);
    v.push(34u8);
    v.push(58u8);
    proof {
        assert(v@ =~= frag_spacing());
    }
    v
}

/// The bytes `,"vert_seed":` as a value.
fn frag_vseed_vec() -> (r: Vec<u8>)
    ensures
        r@ == frag_vseed(),
{
    let mut v: Vec<u8> = Vec::new();
    v.push(44u8);
    v.push(34u8);
    v.push(118u8);
    v.push(101u8);
    v.push(114u8);
    v.push(116u8);
    v.push(95u8);
    v.push(115u8);
    v.push(101u8);
    v.push(101u8);
    v.push(100u8);
    v.push(34u8);
    v.push(58u8);
    proof {
        assert(v@ =~= frag_vseed());
    }
    v
}

/// The bytes `,"vert_selectors":` as a value.
fn frag_vsel_vec() -> (r: Vec<u8>)
    ensures
        r@ == frag_vsel(),
{
    let mut v: Vec<u8> = Vec::new();
    v.push(44u8);
    v.push(34u8);
    v.push(118u8);
    v.push(101u8);
    v.push(114u8);
    v.push(116u8);
    v.push(95u8);
    v.push(115u8);
    v.push(101u8);
    v.push(108u8);
    v.push(101u8);
    v.push(99u8);
    v.push(116u8);
    v.push(111u8);
    v.push(114u8);
    v.push(115u8);
    v.push(34u8);
    v.push(58u8);
    proof {
        assert(v@ =~= frag_vsel());
    }
    v
}

/// The value of an all-digit string is never negative.
proof fn lemma_dec_val_nonneg(s: Seq<u8>)
    requires
        forall|k: int| 0 <= k < s.len() ==> is_digit(#[trigger] s[k]),
    ensures
        dec_val(s) >= 0,
    decreases s.len(),
{
    if s.len() > 0 {
        assert(forall|k: int| 0 <= k < s.drop_last().len() ==> is_digit(
            #[trigger] s.drop_last()[k],
        ));
        lemma_dec_val_nonneg(s.drop_last());
        assert(is_digit(s.last()));
    }
}

/// Extending an all-digit string to the right never shrinks its value.
proof fn lemma_dec_val_extend(s: Seq<u8>, a: int, b: int, c: int)
    requires
        0 <= a <= b <= c <= s.len(),
        forall|k: int| a <= k < c ==> is_digit(#[trigger] s[k]),
    ensures
        dec_val(s.subrange(a, c)) >= dec_val(s.subrange(a, b)),
    decreases c - b,
{
    if b < c {
        lemma_dec_val_extend(s, a, b, c - 1);
        let t = s.subrange(a, c);
        assert(t.drop_last() =~= s.subrange(a, c - 1));
        assert(forall|k: int| 0 <= k < t.drop_last().len() ==> is_digit(
            #[trigger] t.drop_last()[k],
        ));
        lemma_dec_val_nonneg(t.drop_last());
        assert(is_digit(t.last()));
    }
}

/// Whether `pat` occurs in `data` at position `i`, checked byte by byte.
fn match_at(data: &Vec<u8>, i: usize, pat: &Vec<u8>) -> (r: bool)
    ensures
        r == at_pos(data@, i as int, pat@),
{
    if i > data.len() || pat.len() > data.len() - i {
        return false;
    }
    let mut k: usize = 0;
    while k < pat.len()
        invariant
            data@.len() <= usize::MAX,
            i + pat@.len() <= data@.len(),
            k <= pat@.len(),
            forall|m: int| 0 <= m < k ==> data@[i + m] == #[trigger] pat@[m],
        decreases pat@.len() - k,
    {
        if data[i + k] != pat[k] {
            proof {
                assert(data@.subrange(i as int, i + pat@.len())[k as int] == data@[i + k]);
            }
            return false;
        }
        k = k + 1;
    }
    proof {
        assert(data@.subrange(i as int, i + pat@.len()) =~= pat@);
    }
    true
}

/// Parse the canonical decimal number at `i`, accepted only up to `max`.
fn parse_nat_exec(data: &Vec<u8>, i: usize, max: u64) -> (r: Option<(u64, usize)>)
    requires
        i <= data@.len(),
        max <= 0xffff_ffff,
    ensures
        match r {
            Option::Some((v, j)) => {
                &&& parse_nat(data@, i as int) == Some((v as int, j as int))
                &&& v <= max
                &&& i < j <= data@.len()
            },
            Option::None => parse_nat(data@, i as int) matches Option::None || (
            parse_nat(data@, i as int) matches Option::Some(p) && p.0 > max),
        },
{
    let dlen = data.len();
    let mut j: usize = i;
    while j < data.len() && data[j] >= 48 && data[j] <= 57
        invariant
            data@.len() <= usize::MAX,
            i <= j <= data@.len(),
            forall|k: int| i <= k < j ==> is_digit(#[trigger] data@[k]),
        decreases data@.len() - j,
    {
        j = j + 1;
    }
    proof {
        lemma_digit_run_range(data@, i as int, j as int);
    }
    if j == i {
        return None;
    }
    if j - i > 1 && data[i] == 48 {
        return None;
    }
    let ghost whole = data@.subrange(i as int, j as int);
    proof {
        lemma_dec_val_nonneg(whole);
    }
    let mut val: u64 = 0;
    let mut k: usize = i;
    while k < j
        invariant
            data@.len() <= usize::MAX,
            i <= k <= j <= data@.len(),
            i < j,
            max <= 0xffff_ffff,
            forall|m: int| i <= m < j ==> is_digit(#[trigger] data@[m]),
            val == dec_val(data@.subrange(i as int, k as int)),
            val <= max,
            whole == data@.subrange(i as int, j as int),
            j - i == digit_run(data@, i as int),
            j - i > 1 ==> data@[i as int] != 48,
        decreases j - k,
    {
        let d = data[k];
        let next: u64 = val * 10 + (d - 48) as u64;
        proof {
            assert(data@.subrange(i as int, k + 1).drop_last() =~= data@.subrange(
                i as int,
                k as int,
            ));
            assert(data@.subrange(i as int, k + 1).last() == data@[k as int]);
        }
        if next > max {
            proof {
                lemma_dec_val_extend(data@, i as int, k + 1, j as int);
            }
            return None;
        }
        val = next;
        k = k + 1;
    }
    proof {
        assert(data@.subrange(i as int, i + digit_run(data@, i as int)) == whole);
    }
    Some((val, j))
}

/// The bytes `true` as a value.
fn true_vec() -> (r: Vec<u8>)
    ensures
        r@ == bool_lit(true),
{
    let mut v: Vec<u8> = Vec::new();
    v.push(116u8);
    v.push(114u8);
    v.push(117u8);
    v.push(101u8);
    proof {
        assert(v@ =~= bool_lit(true));
    }
    v
}

/// The bytes `false` as a value.
fn false_vec() -> (r: Vec<u8>)
    ensures
        r@ == bool_lit(false),
{
    let mut v: Vec<u8> = Vec::new();
    v.push(102u8);
    v.push(97u8);
    v.push(108u8);
    v.push(115u8);
    v.push(101u8);
    proof {
        assert(v@ =~= bool_lit(false));
    }
    v
}

/// Parse one boolean literal at `i`.
fn parse_bool_exec(data: &Vec<u8>, i: usize) -> (r: Option<(bool, usize)>)
    ensures
        match r {
            Option::Some((b, j)) => parse_bool(data@, i as int) == Some((b, j as int)) && i < j
                <= data@.len(),
            Option::None => parse_bool(data@, i as int) matches Option::None,
        },
{
    let dlen = data.len();
    let t = true_vec();
    if match_at(data, i, &t) {
        proof {
            assert(i + 4 <= dlen);
        }
        return Some((true, i + 4));
    }
    let f = false_vec();
    if match_at(data, i, &f) {
        proof {
            assert(i + 5 <= dlen);
        }
        return Some((false, i + 5));
    }
    None
}

/// Parse a non-empty bracketed boolean array at `i`.
fn parse_bools_exec(data: &Vec<u8>, i: usize) -> (r: Option<(Vec<bool>, usize)>)
    ensures
        match r {
            Option::Some((v, j)) => {
                &&& parse_bools(data@, i as int) == Some((v@, j as int))
                &&& v@.len() >= 1
                &&& i < j <= data@.len()
            },
            Option::None => parse_bools(data@, i as int) matches Option::None,
        },
{
    if i >= data.len() || data[i] != 91 {
        return None;
    }
    let first = match parse_bool_exec(data, i + 1) {
        Option::Some(p) => p,
        Option::None => {
            return None;
        },
    };
    let mut acc: Vec<bool> = Vec::new();
    acc.push(first.0);
    let mut cur: usize = first.1;
    proof {
        assert(acc@ =~= seq![first.0]);
    }
    loop
        invariant
            data@.len() <= usize::MAX,
            i < cur <= data@.len(),
            acc@.len() >= 1,
            parse_bools(data@, i as int) == parse_bools_rest(data@, cur as int, acc@),
        decreases data@.len() - cur,
    {
        if cur >= data.len() {
            return None;
        }
        let b = data[cur];
        if b == 93 {
            return Some((acc, cur + 1));
        }
        if b != 44 {
            return None;
        }
        match parse_bool_exec(data, cur + 1) {
            Option::Some((v, j)) => {
                acc.push(v);
                cur = j;
            },
            Option::None => {
                return None;
            },
        }
    }
}

/// Decode a settings object: exactly the texts that `encode_settings`
/// produces are accepted, and decoding gives back the encoded parameters.
pub fn decode_settings(data: &Vec<u8>) -> (r: Option<RectSettings>)
    ensures
        match r {
            Option::Some(p) => p.wf() && parse_settings(data@) == Some(
                (
                    p.spacing_tenths as int,
                    p.horz_seed as int,
                    p.vert_seed as int,
                    p.horz_selectors@,
                    p.vert_selectors@,
                ),
            ),
            Option::None => parse_settings(data@) matches Option::None,
        },
{
    let dlen = data.len();
    let f1 = frag_hseed_vec();
    if !match_at(data, 0, &f1) {
        return None;
    }
    proof {
        assert(dlen == data@.len());
    }
    let (hs, i2) = match parse_nat_exec(data, f1.len(), 255) {
        Option::Some(p) => p,
        Option::None => {
            return None;
        },
    };
    let f2 = frag_hsel_vec();
    if !match_at(data, i2, &f2) {
        return None;
    }
    let (hb, i3) = match parse_bools_exec(data, i2 + f2.len()) {
        Option::Some(p) => p,
        Option::None => {
            return None;
        },
    };
    let f3 = frag_spacing_vec();
    if !match_at(data, i3, &f3) {
        return None;
    }
    let sp_at = i3 + f3.len();
    let (w, j) = match parse_nat_exec(data, sp_at, 429496729) {
        Option::Some(p) => p,
        Option::None => {
            return None;
        },
    };
    if data.len() - j < 2 || data[j] != 46 || data[j + 1] < 48 || data[j + 1] > 57 {
        return None;
    }
    let tenths: u64 = w * 10 + (data[j + 1] - 48) as u64;
    if tenths < 1 || tenths > 0xffff_ffff {
        return None;
    }
    let i4 = j + 2;
    let f4 = frag_vseed_vec();
    if !match_at(data, i4, &f4) {
        return None;
    }
    let (vs, i5) = match parse_nat_exec(data, i4 + f4.len(), 255) {
        Option::Some(p) => p,
        Option::None => {
            return None;
        },
    };
    let f5 = frag_vsel_vec();
    if !match_at(data, i5, &f5) {
        return None;
    }
    let (vb, i6) = match parse_bools_exec(data, i5 + f5.len()) {
        Option::Some(p) => p,
        Option::None => {
            return None;
        },
    };
    if i6 >= data.len() || i6 + 1 != data.len() || data[i6] != 125 {
        return None;
    }
    Some(
        RectSettings {
            spacing_tenths: tenths as u32,
            horz_selectors: hb,
            vert_selectors: vb,
            horz_seed: hs as u8,
            vert_seed: vs as u8,
        },
    )
}

/// Encode the settings as the metadata JSON object: keys in the fixed
/// order, the spacing with one fractional digit, the selector sequences
/// element for element in their original order.
pub fn encode_settings(settings: &RectSettings) -> (r: Vec<u8>)
    requires
        settings.wf(),
    ensures
        r@ == settings_json_of(*settings),
{
    let mut out: Vec<u8> = Vec::new();
    let f1 = frag_hseed_vec();
    push_all(&mut out, &f1);
    push_dec(&mut out, settings.horz_seed as u64);
    let f2 = frag_hsel_vec();
    push_all(&mut out, &f2);
    push_bools(&mut out, &settings.horz_selectors);
    let f3 = frag_spacing_vec();
    push_all(&mut out, &f3);
    push_dec(&mut out, (settings.spacing_tenths / 10) as u64);
    push_byte(&mut out, 46u8);
    push_byte(&mut out, 48 + (settings.spacing_tenths % 10) as u8);
    proof {
        assert(seq![46u8] + seq![(48 + settings.spacing_tenths as int % 10) as u8] =~= seq![
            46u8,
            (48 + settings.spacing_tenths as int % 10) as u8,
        ]);
    }
    let f4 = frag_vseed_vec();
    push_all(&mut out, &f4);
    push_dec(&mut out, settings.vert_seed as u64);
    let f5 = frag_vsel_vec();
    push_all(&mut out, &f5);
    push_bools(&mut out, &settings.vert_selectors);
    push_byte(&mut out, 125u8);
    proof {
        assert(out@ =~= settings_json_of(*settings));
    }
    out
}

} // verus!
