//! Specification of the scene-description grammar.
//!
//! Everything here is ghost: byte classes, scanning helpers, and the comment
//! stripping function, stated over `Seq<u8>` with integer positions. The
//! executable recognizers in `parser` prove that their results equal these
//! functions' results.

use vstd::prelude::*;

use crate::geometry::Point3;
use crate::lit::{
    lit_attribute_begin, lit_attribute_end, lit_bool_label, lit_camera, lit_directive_label,
    lit_eoi_label, lit_false, lit_film, lit_integrator, lit_lbrack, lit_light_source,
    lit_look_at, lit_material, lit_name_label, lit_quote, lit_rbrack, lit_sampler, lit_shape,
    lit_tag_blackbody, lit_tag_bool, lit_tag_float, lit_tag_integer, lit_tag_point, lit_tag_rgb,
    lit_tag_string, lit_tag_texture, lit_texture, lit_translate, lit_true, lit_world_begin,
    lit_world_end,
};
use crate::paramset::{ps_fold, ExpPartV, NumberV, ParamSetItemV, ValueV};

verus! {

/// Space, tab, carriage return or line feed.
pub open spec fn is_ws(b: u8) -> bool {
    b == 32 || b == 9 || b == 13 || b == 10
}

/// ASCII decimal digit.
pub open spec fn is_digit(b: u8) -> bool {
    48 <= b <= 57
}

/// ASCII letter or digit.
pub open spec fn is_alnum(b: u8) -> bool {
    is_digit(b) || (65 <= b <= 90) || (97 <= b <= 122)
}

/// First position at or after `pos` whose byte fails `f`, or the end of the
/// buffer if every remaining byte satisfies `f`.
pub open spec fn scan_while(s: Seq<u8>, pos: int, f: spec_fn(u8) -> bool) -> int
    decreases s.len() - pos,
{
    if 0 <= pos < s.len() && f(s[pos]) {
        scan_while(s, pos + 1, f)
    } else {
        pos
    }
}

pub proof fn lemma_scan_while(s: Seq<u8>, pos: int, f: spec_fn(u8) -> bool)
    requires
        0 <= pos <= s.len(),
    ensures
        pos <= scan_while(s, pos, f) <= s.len(),
        forall|j: int| pos <= j < scan_while(s, pos, f) ==> f(s[j]),
        scan_while(s, pos, f) < s.len() ==> !f(s[scan_while(s, pos, f)]),
    decreases s.len() - pos,
{
    if pos < s.len() && f(s[pos]) {
        lemma_scan_while(s, pos + 1, f);
    }
}

/// End of the whitespace run starting at `pos`.
pub open spec fn ws_end(s: Seq<u8>, pos: int) -> int {
    scan_while(s, pos, |b: u8| is_ws(b))
}

/// End of the digit run starting at `pos`.
pub open spec fn digits_end(s: Seq<u8>, pos: int) -> int {
    scan_while(s, pos, |b: u8| is_digit(b))
}

/// End of the alphanumeric run starting at `pos`.
pub open spec fn alnum_end(s: Seq<u8>, pos: int) -> int {
    scan_while(s, pos, |b: u8| is_alnum(b))
}

/// First line feed at or after `pos`, or the end of the buffer.
pub open spec fn line_end(s: Seq<u8>, pos: int) -> int {
    scan_while(s, pos, |b: u8| b != 10)
}

/// Comment stripping from position `pos` on: every run from `#` up to and
/// including the next line feed becomes a single line feed; a `#` run that
/// reaches the end of the buffer without a line feed is kept unchanged.
pub open spec fn strip_from(s: Seq<u8>, pos: int) -> Seq<u8>
    decreases s.len() - pos,
{
    if 0 <= pos < s.len() {
        if s[pos] == 35 {
            let k = line_end(s, pos);
            if pos <= k < s.len() {
                seq![10u8] + strip_from(s, k + 1)
            } else {
                s.subrange(pos, s.len() as int)
            }
        } else {
            seq![s[pos]] + strip_from(s, pos + 1)
        }
    } else {
        Seq::empty()
    }
}

/// The comment-stripped form of a whole buffer.
pub open spec fn stripped(s: Seq<u8>) -> Seq<u8> {
    strip_from(s, 0)
}

/// On a buffer without `#`, comment stripping returns the tail unchanged.
pub proof fn lemma_strip_comment_free(s: Seq<u8>, pos: int)
    requires
        0 <= pos <= s.len(),
        forall|j: int| pos <= j < s.len() ==> s[j] != 35,
    ensures
        strip_from(s, pos) =~= s.subrange(pos, s.len() as int),
    decreases s.len() - pos,
{
    if pos < s.len() {
        lemma_strip_comment_free(s, pos + 1);
    }
}

/// Comment stripping is idempotent: stripping a stripped buffer changes
/// nothing. In particular it is the identity on comment-free input.
pub proof fn lemma_strip_idempotent(s: Seq<u8>)
    ensures
        stripped(stripped(s)) =~= stripped(s),
{
    lemma_strip_no_commented_line(s, 0);
    lemma_strip_of_clean(stripped(s), 0);
}

/// A buffer where no `#` is ever followed by a line feed.
pub open spec fn clean(t: Seq<u8>) -> bool {
    forall|i: int, j: int| 0 <= i < j < t.len() && t[i] == 35 ==> t[j] != 10
}

/// The output of comment stripping is clean: a kept `#` has no line feed
/// after it.
proof fn lemma_strip_no_commented_line(s: Seq<u8>, pos: int)
    requires
        0 <= pos <= s.len(),
    ensures
        clean(strip_from(s, pos)),
    decreases s.len() - pos,
{
    if pos < s.len() {
        if s[pos] == 35 {
            let k = line_end(s, pos);
            lemma_scan_while(s, pos, |b: u8| b != 10);
            if k < s.len() {
                lemma_strip_no_commented_line(s, k + 1);
                let t = strip_from(s, pos);
                assert forall|i: int, j: int|
                    0 <= i < j < t.len() && t[i] == 35 implies t[j] != 10 by {
                    assert(t[i] == strip_from(s, k + 1)[i - 1]);
                    assert(t[j] == strip_from(s, k + 1)[j - 1]);
                }
            } else {
                let t = strip_from(s, pos);
                assert forall|i: int, j: int|
                    0 <= i < j < t.len() && t[i] == 35 implies t[j] != 10 by {
                    assert(t[j] == s[pos + j]);
                }
            }
        } else {
            lemma_strip_no_commented_line(s, pos + 1);
            let t = strip_from(s, pos);
            let r = strip_from(s, pos + 1);
            assert forall|i: int, j: int|
                0 <= i < j < t.len() && t[i] == 35 implies t[j] != 10 by {
                if i > 0 {
                    assert(t[i] == r[i - 1]);
                    assert(t[j] == r[j - 1]);
                } else {
                    assert(t[0] == s[pos]);
                }
            }
        }
    }
}

/// Comment stripping leaves a clean buffer unchanged.
proof fn lemma_strip_of_clean(t: Seq<u8>, pos: int)
    requires
        0 <= pos <= t.len(),
        clean(t),
    ensures
        strip_from(t, pos) =~= t.subrange(pos, t.len() as int),
    decreases t.len() - pos,
{
    if pos < t.len() {
        if t[pos] == 35 {
            let k = line_end(t, pos);
            lemma_scan_while(t, pos, |b: u8| b != 10);
            if k < t.len() {
                assert(t[k] == 10);
                assert(false);
            }
        } else {
            lemma_strip_of_clean(t, pos + 1);
        }
    }
}

/// Like `ws_end`, clamped so that the result provably stays between `pos`
/// and the end of the buffer; on well-formed positions the clamp never
/// fires. Recursive grammar rules measure their progress with this form.
pub open spec fn ws_end_g(s: Seq<u8>, pos: int) -> int {
    let w = ws_end(s, pos);
    if pos <= w <= s.len() {
        w
    } else {
        pos
    }
}

/// The bytes of `kw` occur at `pos`.
pub open spec fn match_at(s: Seq<u8>, pos: int, kw: Seq<u8>) -> bool {
    0 <= pos && pos + kw.len() <= s.len() && s.subrange(pos, pos + kw.len()) == kw
}

/// A parse failure.
///
/// Positions are byte offsets into the comment-stripped buffer. The token in
/// `UnexpectedToken` is the literal or a short description of what was
/// required; `TruncatedInput` carries how many further bytes would have been
/// needed to complete the required token.
pub enum ErrV {
    MalformedNumericLiteral,
    UnterminatedQuotedString,
    UnknownParameterType(Seq<u8>, int),
    UnbalancedAttributeScope,
    UnexpectedToken(Seq<u8>, int),
    TruncatedInput(int),
}

/// Result of scanning a quoted arbitrary string at a position.
pub enum QsV {
    /// The position does not hold an opening quote.
    NoQuote,
    /// An opening quote with no closing quote before the end of the buffer.
    Unterminated,
    /// The content between the quotes, and the position after the closing
    /// quote.
    Found(int, Seq<u8>),
}

/// Exponent part of a numeric literal: `e` or `E`, an optional sign, and at
/// least one digit. Returns the position after the exponent and its parts;
/// `None` if no complete exponent starts at `pos` (the literal then ends
/// before the marker).
pub open spec fn spec_exponent(s: Seq<u8>, pos: int) -> Option<(int, ExpPartV)> {
    if 0 <= pos < s.len() && (s[pos] == 101 || s[pos] == 69) {
        let q = pos + 1;
        let has_sign = q < s.len() && (s[q] == 43 || s[q] == 45);
        let neg = q < s.len() && s[q] == 45;
        let d0 = if has_sign {
            q + 1
        } else {
            q
        };
        let d1 = digits_end(s, d0);
        if d1 > d0 {
            Some((d1, ExpPartV { neg, digits: s.subrange(d0, d1) }))
        } else {
            None
        }
    } else {
        None
    }
}

/// Mantissa of a numeric literal: an optional sign, then digits around an
/// optional decimal point. The three accepted shapes are tried in order:
/// digits?-point-digits, then digits-point, then bare digits; a lone point
/// or a lone sign matches none of them.
pub open spec fn spec_mantissa(s: Seq<u8>, pos: int) -> Option<(int, NumberV)> {
    let has_sign = 0 <= pos < s.len() && (s[pos] == 43 || s[pos] == 45);
    let neg = 0 <= pos < s.len() && s[pos] == 45;
    let p1 = if has_sign {
        pos + 1
    } else {
        pos
    };
    let w = digits_end(s, p1);
    if 0 <= w < s.len() && s[w] == 46 {
        let f = digits_end(s, w + 1);
        if f > w + 1 {
            Some(
                (
                    f,
                    NumberV {
                        neg,
                        whole: s.subrange(p1, w),
                        point: true,
                        frac: s.subrange(w + 1, f),
                        exp: None,
                    },
                ),
            )
        } else if w > p1 {
            Some(
                (
                    w + 1,
                    NumberV {
                        neg,
                        whole: s.subrange(p1, w),
                        point: true,
                        frac: Seq::empty(),
                        exp: None,
                    },
                ),
            )
        } else {
            None
        }
    } else if w > p1 {
        Some(
            (
                w,
                NumberV {
                    neg,
                    whole: s.subrange(p1, w),
                    point: false,
                    frac: Seq::empty(),
                    exp: None,
                },
            ),
        )
    } else {
        None
    }
}

/// A numeric literal: mantissa followed by an optional exponent. Yields the
/// position after the literal and its written parts.
pub open spec fn spec_number(s: Seq<u8>, pos: int) -> Option<(int, NumberV)> {
    match spec_mantissa(s, pos) {
        Some((m, nb)) => match spec_exponent(s, m) {
            Some((e, ex)) => Some(
                (
                    e,
                    NumberV {
                        neg: nb.neg,
                        whole: nb.whole,
                        point: nb.point,
                        frac: nb.frac,
                        exp: Some(ex),
                    },
                ),
            ),
            None => Some((m, nb)),
        },
        None => None,
    }
}

/// The value of the digit run `s[from..to]` read in base ten.
pub open spec fn digits_val(s: Seq<u8>, from: int, to: int) -> int
    decreases to - from,
{
    if from < to {
        digits_val(s, from, to - 1) * 10 + (s[to - 1] - 48)
    } else {
        0
    }
}

pub proof fn lemma_digits_val_nonneg(s: Seq<u8>, from: int, to: int)
    requires
        0 <= from <= to <= s.len(),
        forall|j: int| from <= j < to ==> is_digit(s[j]),
    ensures
        digits_val(s, from, to) >= 0,
    decreases to - from,
{
    if from < to {
        lemma_digits_val_nonneg(s, from, to - 1);
    }
}

/// A digit run's value only grows as the run is extended to the right.
pub proof fn lemma_digits_val_mono(s: Seq<u8>, from: int, mid: int, to: int)
    requires
        0 <= from <= mid <= to <= s.len(),
        forall|j: int| from <= j < to ==> is_digit(s[j]),
    ensures
        digits_val(s, from, to) >= digits_val(s, from, mid),
    decreases to - mid,
{
    if mid < to {
        lemma_digits_val_mono(s, from, mid, to - 1);
        lemma_digits_val_nonneg(s, from, to - 1);
        lemma_digits_val_nonneg(s, from, mid);
    }
}

/// An integer literal: an optional sign and at least one digit, not
/// followed by a decimal point, whose value fits a 64-bit signed integer.
/// Yields the position after the digits and the value.
pub open spec fn spec_integer(s: Seq<u8>, pos: int) -> Option<(int, int)> {
    let has_sign = 0 <= pos < s.len() && (s[pos] == 43 || s[pos] == 45);
    let neg = 0 <= pos < s.len() && s[pos] == 45;
    let p1 = if has_sign {
        pos + 1
    } else {
        pos
    };
    let d = digits_end(s, p1);
    if d > p1 && !(d < s.len() && s[d] == 46) {
        let m = digits_val(s, p1, d);
        let v = if neg {
            -m
        } else {
            m
        };
        if i64::MIN <= v <= i64::MAX {
            Some((d, v))
        } else {
            None
        }
    } else {
        None
    }
}

/// A boolean literal: exactly `true` or `false`.
pub open spec fn spec_bool(s: Seq<u8>, pos: int) -> Option<(int, bool)> {
    if match_at(s, pos, lit_true()) {
        Some((pos + lit_true().len(), true))
    } else if match_at(s, pos, lit_false()) {
        Some((pos + lit_false().len(), false))
    } else {
        None
    }
}

/// First position at or after `pos` holding a quote, or the end of the
/// buffer.
pub open spec fn quote_end(s: Seq<u8>, pos: int) -> int {
    scan_while(s, pos, |b: u8| b != 34)
}

/// A quoted name: a quote, at least one alphanumeric byte, and a closing
/// quote. Yields the position after the closing quote and the bytes between
/// the quotes.
pub open spec fn spec_quoted_name(s: Seq<u8>, pos: int) -> Option<(int, Seq<u8>)> {
    if 0 <= pos < s.len() && s[pos] == 34 {
        let e = alnum_end(s, pos + 1);
        if e > pos + 1 && e < s.len() && s[e] == 34 {
            Some((e + 1, s.subrange(pos + 1, e)))
        } else {
            None
        }
    } else {
        None
    }
}

/// A quoted arbitrary string: a quote, any bytes other than a quote, and a
/// closing quote; no escape sequences exist. The content may be empty.
pub open spec fn spec_quoted_string(s: Seq<u8>, pos: int) -> QsV {
    if 0 <= pos < s.len() && s[pos] == 34 {
        let e = quote_end(s, pos + 1);
        if e < s.len() {
            QsV::Found(e + 1, s.subrange(pos + 1, e))
        } else {
            QsV::Unterminated
        }
    } else {
        QsV::NoQuote
    }
}

/// Zero or more whitespace-separated boolean literals; the returned
/// position has consumed the whitespace scanned before the literal that
/// failed to match.
pub open spec fn spec_bool_items(s: Seq<u8>, pos: int) -> (int, Seq<bool>)
    decreases s.len() - pos,
{
    let p = ws_end_g(s, pos);
    match spec_bool(s, p) {
        Some((p2, b)) => if pos < p2 <= s.len() {
            let r = spec_bool_items(s, p2);
            (r.0, seq![b] + r.1)
        } else {
            (p2, seq![b])
        },
        None => (p, Seq::empty()),
    }
}

/// Zero or more whitespace-separated numeric literals.
pub open spec fn spec_number_items(s: Seq<u8>, pos: int) -> (int, Seq<NumberV>)
    decreases s.len() - pos,
{
    let p = ws_end_g(s, pos);
    match spec_number(s, p) {
        Some((p2, n)) => if pos < p2 <= s.len() {
            let r = spec_number_items(s, p2);
            (r.0, seq![n] + r.1)
        } else {
            (p2, seq![n])
        },
        None => (p, Seq::empty()),
    }
}

/// Zero or more whitespace-separated integer literals.
pub open spec fn spec_int_items(s: Seq<u8>, pos: int) -> (int, Seq<i64>)
    decreases s.len() - pos,
{
    let p = ws_end_g(s, pos);
    match spec_integer(s, p) {
        Some((p2, v)) => if pos < p2 <= s.len() {
            let r = spec_int_items(s, p2);
            (r.0, seq![v as i64] + r.1)
        } else {
            (p2, seq![v as i64])
        },
        None => (p, Seq::empty()),
    }
}

/// Zero or more whitespace-separated quoted strings; an opening quote with
/// no closing quote is a failure of the whole run.
pub open spec fn spec_string_items(s: Seq<u8>, pos: int) -> Result<(int, Seq<Seq<u8>>), ErrV>
    decreases s.len() - pos,
{
    let p = ws_end_g(s, pos);
    match spec_quoted_string(s, p) {
        QsV::Found(p2, st) => if pos < p2 <= s.len() {
            match spec_string_items(s, p2) {
                Ok((p3, rest)) => Ok((p3, seq![st] + rest)),
                Err(e) => Err(e),
            }
        } else {
            Ok((p2, seq![st]))
        },
        QsV::Unterminated => Err(ErrV::UnterminatedQuotedString),
        QsV::NoQuote => Ok((p, Seq::empty())),
    }
}

/// Zero or more whitespace-separated float triples, each grouped greedily
/// into a point; a partial triple is left unconsumed.
pub open spec fn spec_point_items(s: Seq<u8>, pos: int) -> (int, Seq<Point3<NumberV>>)
    decreases s.len() - pos,
{
    let p0 = ws_end_g(s, pos);
    match spec_number(s, p0) {
        None => (p0, Seq::empty()),
        Some((px, x)) => match spec_number(s, ws_end(s, px)) {
            None => (p0, Seq::empty()),
            Some((py, y)) => match spec_number(s, ws_end(s, py)) {
                None => (p0, Seq::empty()),
                Some((pz, z)) => if pos < pz <= s.len() {
                    let r = spec_point_items(s, pz);
                    (r.0, seq![Point3 { x, y, z }] + r.1)
                } else {
                    (pz, seq![Point3 { x, y, z }])
                },
            },
        },
    }
}

/// One or more boolean literals, bracketed or bare, with surrounding
/// whitespace consumed.
pub open spec fn spec_bool_value(s: Seq<u8>, pos: int) -> Result<(int, Seq<bool>), ErrV> {
    let p = ws_end(s, pos);
    if p < s.len() && s[p] == 91 {
        let r = spec_bool_items(s, p + 1);
        if r.1.len() == 0 {
            Err(ErrV::UnexpectedToken(lit_bool_label(), r.0))
        } else if r.0 < s.len() && s[r.0] == 93 {
            Ok((ws_end(s, r.0 + 1), r.1))
        } else {
            Err(ErrV::UnexpectedToken(lit_rbrack(), r.0))
        }
    } else {
        let r = spec_bool_items(s, pos);
        if r.1.len() == 0 {
            Err(ErrV::UnexpectedToken(lit_bool_label(), r.0))
        } else {
            Ok((r.0, r.1))
        }
    }
}

/// One or more numeric literals, bracketed or bare, with surrounding
/// whitespace consumed.
pub open spec fn spec_number_value(s: Seq<u8>, pos: int) -> Result<(int, Seq<NumberV>), ErrV> {
    let p = ws_end(s, pos);
    if p < s.len() && s[p] == 91 {
        let r = spec_number_items(s, p + 1);
        if r.1.len() == 0 {
            Err(ErrV::MalformedNumericLiteral)
        } else if r.0 < s.len() && s[r.0] == 93 {
            Ok((ws_end(s, r.0 + 1), r.1))
        } else {
            Err(ErrV::UnexpectedToken(lit_rbrack(), r.0))
        }
    } else {
        let r = spec_number_items(s, pos);
        if r.1.len() == 0 {
            Err(ErrV::MalformedNumericLiteral)
        } else {
            Ok((r.0, r.1))
        }
    }
}

/// One or more integer literals, bracketed or bare, with surrounding
/// whitespace consumed.
pub open spec fn spec_int_value(s: Seq<u8>, pos: int) -> Result<(int, Seq<i64>), ErrV> {
    let p = ws_end(s, pos);
    if p < s.len() && s[p] == 91 {
        let r = spec_int_items(s, p + 1);
        if r.1.len() == 0 {
            Err(ErrV::MalformedNumericLiteral)
        } else if r.0 < s.len() && s[r.0] == 93 {
            Ok((ws_end(s, r.0 + 1), r.1))
        } else {
            Err(ErrV::UnexpectedToken(lit_rbrack(), r.0))
        }
    } else {
        let r = spec_int_items(s, pos);
        if r.1.len() == 0 {
            Err(ErrV::MalformedNumericLiteral)
        } else {
            Ok((r.0, r.1))
        }
    }
}

/// One or more quoted strings in brackets, or exactly one bare quoted
/// string, with surrounding whitespace consumed.
pub open spec fn spec_string_value(s: Seq<u8>, pos: int) -> Result<(int, Seq<Seq<u8>>), ErrV> {
    let p = ws_end(s, pos);
    if p < s.len() && s[p] == 91 {
        match spec_string_items(s, p + 1) {
            Err(e) => Err(e),
            Ok((p2, items)) => if items.len() == 0 {
                Err(ErrV::UnexpectedToken(lit_quote(), p2))
            } else if p2 < s.len() && s[p2] == 93 {
                Ok((ws_end(s, p2 + 1), items))
            } else {
                Err(ErrV::UnexpectedToken(lit_rbrack(), p2))
            },
        }
    } else {
        match spec_quoted_string(s, p) {
            QsV::Found(p2, st) => Ok((ws_end(s, p2), seq![st])),
            QsV::Unterminated => Err(ErrV::UnterminatedQuotedString),
            QsV::NoQuote => Err(ErrV::UnexpectedToken(lit_quote(), p)),
        }
    }
}

/// One or more bracketed float triples, with surrounding whitespace
/// consumed; points accept no bare form.
pub open spec fn spec_point_value(s: Seq<u8>, pos: int) -> Result<
    (int, Seq<Point3<NumberV>>),
    ErrV,
> {
    let p = ws_end(s, pos);
    if p < s.len() && s[p] == 91 {
        let r = spec_point_items(s, p + 1);
        if r.1.len() == 0 {
            Err(ErrV::MalformedNumericLiteral)
        } else if r.0 < s.len() && s[r.0] == 93 {
            Ok((ws_end(s, r.0 + 1), r.1))
        } else {
            Err(ErrV::UnexpectedToken(lit_rbrack(), r.0))
        }
    } else {
        Err(ErrV::UnexpectedToken(lit_lbrack(), p))
    }
}

/// Space or tab: the separator between the type tag and the name inside an
/// item header.
pub open spec fn is_sp(b: u8) -> bool {
    b == 32 || b == 9
}

/// End of the space-or-tab run starting at `pos`.
pub open spec fn sp_end(s: Seq<u8>, pos: int) -> int {
    scan_while(s, pos, |b: u8| is_sp(b))
}

/// The value of a parameter item, selected by the item's type tag;
/// `tag_pos` is where the tag stood, for the unknown-tag failure.
pub open spec fn spec_value(s: Seq<u8>, pos: int, tag: Seq<u8>, tag_pos: int) -> Result<
    (int, ValueV),
    ErrV,
> {
    if tag == lit_tag_bool() {
        match spec_bool_value(s, pos) {
            Ok((p, items)) => Ok((p, ValueV::Bool(items))),
            Err(e) => Err(e),
        }
    } else if tag == lit_tag_float() {
        match spec_number_value(s, pos) {
            Ok((p, items)) => Ok((p, ValueV::Float(items))),
            Err(e) => Err(e),
        }
    } else if tag == lit_tag_integer() {
        match spec_int_value(s, pos) {
            Ok((p, items)) => Ok((p, ValueV::Int(items))),
            Err(e) => Err(e),
        }
    } else if tag == lit_tag_string() {
        match spec_string_value(s, pos) {
            Ok((p, items)) => Ok((p, ValueV::Str(items))),
            Err(e) => Err(e),
        }
    } else if tag == lit_tag_point() {
        match spec_point_value(s, pos) {
            Ok((p, items)) => Ok((p, ValueV::Point3f(items))),
            Err(e) => Err(e),
        }
    } else if tag == lit_tag_rgb() {
        match spec_number_value(s, pos) {
            Ok((p, items)) => Ok((p, ValueV::RGB(items))),
            Err(e) => Err(e),
        }
    } else if tag == lit_tag_texture() {
        match spec_string_value(s, pos) {
            Ok((p, items)) => Ok((p, ValueV::Texture(items))),
            Err(e) => Err(e),
        }
    } else if tag == lit_tag_blackbody() {
        match spec_number_value(s, pos) {
            Ok((p, items)) => Ok((p, ValueV::Blackbody(items))),
            Err(e) => Err(e),
        }
    } else {
        Err(ErrV::UnknownParameterType(tag, tag_pos))
    }
}

/// `r` with `pre` prepended to its item sequence; failures pass through.
pub open spec fn prepend_items(
    pre: Seq<ParamSetItemV>,
    r: Result<(int, Seq<ParamSetItemV>), ErrV>,
) -> Result<(int, Seq<ParamSetItemV>), ErrV> {
    match r {
        Ok((p, items)) => Ok((p, pre + items)),
        Err(e) => Err(e),
    }
}

/// One parameter item: a header `"tag name"` followed by the tag's value
/// grammar. `Ok(None)` means no item starts here (the caller stops
/// collecting); an unknown tag or a malformed value is a failure of the
/// whole parse.
pub open spec fn spec_param_set_item(s: Seq<u8>, pos: int) -> Result<
    Option<(int, ParamSetItemV)>,
    ErrV,
> {
    let p = ws_end(s, pos);
    if p < s.len() && s[p] == 34 {
        let q = p + 1;
        let t = alnum_end(s, q);
        if t > q && t < s.len() && is_sp(s[t]) {
            let n0 = sp_end(s, t);
            let n1 = alnum_end(s, n0);
            if n1 > n0 && n1 < s.len() && s[n1] == 34 {
                let tag = s.subrange(q, t);
                let name = s.subrange(n0, n1);
                match spec_value(s, n1 + 1, tag, q) {
                    Ok((p2, v)) => Ok(Some((p2, ParamSetItemV { name, value: v }))),
                    Err(e) => Err(e),
                }
            } else {
                Ok(None)
            }
        } else {
            Ok(None)
        }
    } else {
        Ok(None)
    }
}

/// Zero or more parameter items in sequence, in source order, with
/// duplicate names kept; building a `ParamSet` from the sequence applies
/// the last-write-wins policy. Never fails for want of items: an empty
/// sequence is a valid parameter set.
pub open spec fn spec_param_set(s: Seq<u8>, pos: int) -> Result<
    (int, Seq<ParamSetItemV>),
    ErrV,
>
    decreases s.len() - pos,
{
    match spec_param_set_item(s, pos) {
        Err(e) => Err(e),
        Ok(None) => Ok((pos, Seq::empty())),
        Ok(Some((p2, it))) => if pos < p2 <= s.len() {
            match spec_param_set(s, p2) {
                Ok((p3, rest)) => Ok((p3, seq![it] + rest)),
                Err(e) => Err(e),
            }
        } else {
            Ok((p2, seq![it]))
        },
    }
}

/// A pre-world option directive.
pub enum OptV {
    LookAt(
        NumberV,
        NumberV,
        NumberV,
        NumberV,
        NumberV,
        NumberV,
        NumberV,
        NumberV,
        NumberV,
    ),
    Camera(Seq<u8>, Seq<ParamSetItemV>),
    Sampler(Seq<u8>, Seq<ParamSetItemV>),
    Integrator(Seq<u8>, Seq<ParamSetItemV>),
    Film(Seq<u8>, Seq<ParamSetItemV>),
}

/// A world directive; `Attribute` groups the directives of one
/// `AttributeBegin`/`AttributeEnd` scope.
pub enum WorldV {
    Attribute(Seq<WorldV>),
    LightSource(Seq<u8>, Seq<ParamSetItemV>),
    Material(Seq<u8>, Seq<ParamSetItemV>),
    Shape(Seq<u8>, Seq<ParamSetItemV>),
    Translate(NumberV, NumberV, NumberV),
    Texture(Seq<u8>, Seq<u8>, Seq<u8>, Seq<ParamSetItemV>),
}

/// A parsed scene: the option directives, then the world directives, each
/// in source order.
pub struct SceneV {
    pub options: Seq<OptV>,
    pub world_objects: Seq<WorldV>,
}

/// Require the bytes of `kw` at the (whitespace-skipped) position `p`. A
/// buffer that ends in a proper prefix of `kw` is truncated, by the number
/// of missing bytes; anything else there is an unexpected token.
pub open spec fn spec_expect_kw(s: Seq<u8>, p: int, kw: Seq<u8>) -> Result<int, ErrV> {
    if match_at(s, p, kw) {
        Ok(p + kw.len())
    } else if 0 <= p <= s.len() && s.len() - p < kw.len() && s.subrange(p, s.len() as int)
        == kw.subrange(0, s.len() - p) {
        Err(ErrV::TruncatedInput(kw.len() - (s.len() - p)))
    } else {
        Err(ErrV::UnexpectedToken(kw, p))
    }
}

/// Require a quoted name after optional whitespace. A name whose
/// alphanumeric run reaches the end of the buffer is an unterminated
/// string; any other failure is an unexpected token.
pub open spec fn spec_expect_name(s: Seq<u8>, pos: int) -> Result<(int, Seq<u8>), ErrV> {
    let p = ws_end(s, pos);
    match spec_quoted_name(s, p) {
        Some(r) => Ok(r),
        None => if p < s.len() && s[p] == 34 && alnum_end(s, p + 1) >= s.len() {
            Err(ErrV::UnterminatedQuotedString)
        } else {
            Err(ErrV::UnexpectedToken(lit_name_label(), p))
        },
    }
}

/// Require one numeric literal after optional whitespace.
pub open spec fn spec_req_number(s: Seq<u8>, pos: int) -> Result<(int, NumberV), ErrV> {
    let p = ws_end(s, pos);
    match spec_number(s, p) {
        Some(r) => Ok(r),
        None => Err(ErrV::MalformedNumericLiteral),
    }
}

/// A quoted name followed by an optional parameter set, the shape shared
/// by most directives; trailing whitespace is consumed.
pub open spec fn spec_named_params(s: Seq<u8>, pos: int) -> Result<
    (int, Seq<u8>, Seq<ParamSetItemV>),
    ErrV,
> {
    match spec_expect_name(s, pos) {
        Ok((p1, name)) => match spec_param_set(s, p1) {
            Ok((p2, items)) => Ok((ws_end(s, p2), name, items)),
            Err(e) => Err(e),
        },
        Err(e) => Err(e),
    }
}

/// The rest of a `LookAt` directive: nine numbers (eye, look-at point and
/// up vector), then trailing whitespace.
pub open spec fn spec_look_at_tail(s: Seq<u8>, pos: int) -> Result<(int, OptV), ErrV> {
    match spec_req_number(s, pos) {
        Err(e) => Err(e),
        Ok((p1, n1)) => match spec_req_number(s, p1) {
            Err(e) => Err(e),
            Ok((p2, n2)) => match spec_req_number(s, p2) {
                Err(e) => Err(e),
                Ok((p3, n3)) => match spec_req_number(s, p3) {
                    Err(e) => Err(e),
                    Ok((p4, n4)) => match spec_req_number(s, p4) {
                        Err(e) => Err(e),
                        Ok((p5, n5)) => match spec_req_number(s, p5) {
                            Err(e) => Err(e),
                            Ok((p6, n6)) => match spec_req_number(s, p6) {
                                Err(e) => Err(e),
                                Ok((p7, n7)) => match spec_req_number(s, p7) {
                                    Err(e) => Err(e),
                                    Ok((p8, n8)) => match spec_req_number(s, p8) {
                                        Err(e) => Err(e),
                                        Ok((p9, n9)) => Ok(
                                            (
                                                ws_end(s, p9),
                                                OptV::LookAt(
                                                    n1,
                                                    n2,
                                                    n3,
                                                    n4,
                                                    n5,
                                                    n6,
                                                    n7,
                                                    n8,
                                                    n9,
                                                ),
                                            ),
                                        ),
                                    },
                                },
                            },
                        },
                    },
                },
            },
        },
    }
}

/// The rest of a `Camera` directive.
pub open spec fn spec_camera_tail(s: Seq<u8>, pos: int) -> Result<(int, OptV), ErrV> {
    match spec_named_params(s, pos) {
        Ok((p2, name, items)) => Ok((p2, OptV::Camera(name, ps_fold(items)))),
        Err(e) => Err(e),
    }
}

/// The rest of a `Sampler` directive.
pub open spec fn spec_sampler_tail(s: Seq<u8>, pos: int) -> Result<(int, OptV), ErrV> {
    match spec_named_params(s, pos) {
        Ok((p2, name, items)) => Ok((p2, OptV::Sampler(name, ps_fold(items)))),
        Err(e) => Err(e),
    }
}

/// The rest of an `Integrator` directive.
pub open spec fn spec_integrator_tail(s: Seq<u8>, pos: int) -> Result<(int, OptV), ErrV> {
    match spec_named_params(s, pos) {
        Ok((p2, name, items)) => Ok((p2, OptV::Integrator(name, ps_fold(items)))),
        Err(e) => Err(e),
    }
}

/// The rest of a `Film` directive.
pub open spec fn spec_film_tail(s: Seq<u8>, pos: int) -> Result<(int, OptV), ErrV> {
    match spec_named_params(s, pos) {
        Ok((p2, name, items)) => Ok((p2, OptV::Film(name, ps_fold(items)))),
        Err(e) => Err(e),
    }
}

/// One option directive starting at the (whitespace-skipped) position `p`,
/// the alternatives tried in a fixed order; `None` when none of the five
/// keywords stands at `p`.
pub open spec fn spec_option_block(s: Seq<u8>, p: int) -> Option<Result<(int, OptV), ErrV>> {
    if match_at(s, p, lit_film()) {
        Some(spec_film_tail(s, p + lit_film().len()))
    } else if match_at(s, p, lit_look_at()) {
        Some(spec_look_at_tail(s, p + lit_look_at().len()))
    } else if match_at(s, p, lit_camera()) {
        Some(spec_camera_tail(s, p + lit_camera().len()))
    } else if match_at(s, p, lit_sampler()) {
        Some(spec_sampler_tail(s, p + lit_sampler().len()))
    } else if match_at(s, p, lit_integrator()) {
        Some(spec_integrator_tail(s, p + lit_integrator().len()))
    } else {
        None
    }
}

/// Zero or more option directives; stops before the first token that is
/// not an option keyword.
pub open spec fn spec_option_blocks(s: Seq<u8>, pos: int) -> Result<(int, Seq<OptV>), ErrV>
    decreases s.len() - pos,
{
    let p = ws_end_g(s, pos);
    match spec_option_block(s, p) {
        None => Ok((pos, Seq::empty())),
        Some(Err(e)) => Err(e),
        Some(Ok((p2, blk))) => if pos < p2 <= s.len() {
            match spec_option_blocks(s, p2) {
                Ok((p3, rest)) => Ok((p3, seq![blk] + rest)),
                Err(e) => Err(e),
            }
        } else {
            Ok((p2, seq![blk]))
        },
    }
}

/// The rest of a `Translate` directive: three numbers, then trailing
/// whitespace.
pub open spec fn spec_translate_tail(s: Seq<u8>, pos: int) -> Result<(int, WorldV), ErrV> {
    match spec_req_number(s, pos) {
        Err(e) => Err(e),
        Ok((p1, n1)) => match spec_req_number(s, p1) {
            Err(e) => Err(e),
            Ok((p2, n2)) => match spec_req_number(s, p2) {
                Err(e) => Err(e),
                Ok((p3, n3)) => Ok((ws_end(s, p3), WorldV::Translate(n1, n2, n3))),
            },
        },
    }
}

/// The rest of a `Texture` directive: the texture's name, type and class,
/// then an optional parameter set.
pub open spec fn spec_texture_tail(s: Seq<u8>, pos: int) -> Result<(int, WorldV), ErrV> {
    match spec_expect_name(s, pos) {
        Err(e) => Err(e),
        Ok((p1, name)) => match spec_expect_name(s, p1) {
            Err(e) => Err(e),
            Ok((p2, typ)) => match spec_expect_name(s, p2) {
                Err(e) => Err(e),
                Ok((p3, class)) => match spec_param_set(s, p3) {
                    Err(e) => Err(e),
                    Ok((p4, items)) => Ok(
                        (ws_end(s, p4), WorldV::Texture(name, typ, class, ps_fold(items))),
                    ),
                },
            },
        },
    }
}

/// The rest of a `LightSource` directive.
pub open spec fn spec_light_source_tail(s: Seq<u8>, pos: int) -> Result<(int, WorldV), ErrV> {
    match spec_named_params(s, pos) {
        Ok((p2, name, items)) => Ok((p2, WorldV::LightSource(name, ps_fold(items)))),
        Err(e) => Err(e),
    }
}

/// The rest of a `Material` directive.
pub open spec fn spec_material_tail(s: Seq<u8>, pos: int) -> Result<(int, WorldV), ErrV> {
    match spec_named_params(s, pos) {
        Ok((p2, name, items)) => Ok((p2, WorldV::Material(name, ps_fold(items)))),
        Err(e) => Err(e),
    }
}

/// The rest of a `Shape` directive.
pub open spec fn spec_shape_tail(s: Seq<u8>, pos: int) -> Result<(int, WorldV), ErrV> {
    match spec_named_params(s, pos) {
        Ok((p2, name, items)) => Ok((p2, WorldV::Shape(name, ps_fold(items)))),
        Err(e) => Err(e),
    }
}

/// The rest of an attribute scope, after `AttributeBegin`: one or more
/// world directives, then `AttributeEnd`. A scope with no directive is an
/// unexpected token; a scope that is not closed by `AttributeEnd` is an
/// unbalanced scope.
pub open spec fn spec_attribute_tail(s: Seq<u8>, pos: int) -> Result<(int, WorldV), ErrV>
    decreases s.len() - pos, 2int,
{
    if 0 <= pos <= s.len() {
        match spec_world_objects(s, pos) {
            Err(e) => Err(e),
            Ok((p2, items)) => if items.len() == 0 {
                Err(ErrV::UnexpectedToken(lit_directive_label(), ws_end(s, pos)))
            } else {
                let q = ws_end(s, p2);
                if match_at(s, q, lit_attribute_end()) {
                    Ok((ws_end(s, q + lit_attribute_end().len()), WorldV::Attribute(items)))
                } else {
                    Err(ErrV::UnbalancedAttributeScope)
                }
            },
        }
    } else {
        Err(ErrV::UnbalancedAttributeScope)
    }
}

/// One world directive starting at the (whitespace-skipped) position `p`,
/// the alternatives tried in a fixed order; `None` when none of the six
/// keywords stands at `p`.
pub open spec fn spec_world_object(s: Seq<u8>, p: int) -> Option<Result<(int, WorldV), ErrV>>
    decreases s.len() - p, 0int,
{
    if match_at(s, p, lit_shape()) {
        Some(spec_shape_tail(s, p + lit_shape().len()))
    } else if match_at(s, p, lit_texture()) {
        Some(spec_texture_tail(s, p + lit_texture().len()))
    } else if match_at(s, p, lit_material()) {
        Some(spec_material_tail(s, p + lit_material().len()))
    } else if match_at(s, p, lit_attribute_begin()) {
        if 0 <= p && p + lit_attribute_begin().len() <= s.len() {
            Some(spec_attribute_tail(s, p + lit_attribute_begin().len()))
        } else {
            None
        }
    } else if match_at(s, p, lit_translate()) {
        Some(spec_translate_tail(s, p + lit_translate().len()))
    } else if match_at(s, p, lit_light_source()) {
        Some(spec_light_source_tail(s, p + lit_light_source().len()))
    } else {
        None
    }
}

/// Zero or more world directives; stops before the first token that is
/// not a world keyword. Callers require at least one.
pub open spec fn spec_world_objects(s: Seq<u8>, pos: int) -> Result<(int, Seq<WorldV>), ErrV>
    decreases s.len() - pos, 1int,
{
    let p = ws_end_g(s, pos);
    match spec_world_object(s, p) {
        None => Ok((pos, Seq::empty())),
        Some(Err(e)) => Err(e),
        Some(Ok((p2, w))) => if pos < p2 <= s.len() {
            match spec_world_objects(s, p2) {
                Ok((p3, rest)) => Ok((p3, seq![w] + rest)),
                Err(e) => Err(e),
            }
        } else {
            Ok((p2, seq![w]))
        },
    }
}

/// `r` with `pre` prepended to its option sequence; failures pass through.
pub open spec fn prepend_opts(pre: Seq<OptV>, r: Result<(int, Seq<OptV>), ErrV>) -> Result<
    (int, Seq<OptV>),
    ErrV,
> {
    match r {
        Ok((p, items)) => Ok((p, pre + items)),
        Err(e) => Err(e),
    }
}

/// `r` with `pre` prepended to its directive sequence; failures pass
/// through.
pub open spec fn prepend_worlds(pre: Seq<WorldV>, r: Result<(int, Seq<WorldV>), ErrV>) -> Result<
    (int, Seq<WorldV>),
    ErrV,
> {
    match r {
        Ok((p, items)) => Ok((p, pre + items)),
        Err(e) => Err(e),
    }
}

/// A whole `LookAt` directive, keyword included.
pub open spec fn spec_look_at(s: Seq<u8>, pos: int) -> Result<(int, OptV), ErrV> {
    let p = ws_end(s, pos);
    if match_at(s, p, lit_look_at()) {
        spec_look_at_tail(s, p + lit_look_at().len())
    } else {
        Err(ErrV::UnexpectedToken(lit_look_at(), p))
    }
}

/// A whole `Camera` directive, keyword included.
pub open spec fn spec_camera(s: Seq<u8>, pos: int) -> Result<(int, OptV), ErrV> {
    let p = ws_end(s, pos);
    if match_at(s, p, lit_camera()) {
        spec_camera_tail(s, p + lit_camera().len())
    } else {
        Err(ErrV::UnexpectedToken(lit_camera(), p))
    }
}

/// A whole `Sampler` directive, keyword included.
pub open spec fn spec_sampler(s: Seq<u8>, pos: int) -> Result<(int, OptV), ErrV> {
    let p = ws_end(s, pos);
    if match_at(s, p, lit_sampler()) {
        spec_sampler_tail(s, p + lit_sampler().len())
    } else {
        Err(ErrV::UnexpectedToken(lit_sampler(), p))
    }
}

/// A whole `Integrator` directive, keyword included.
pub open spec fn spec_integrator(s: Seq<u8>, pos: int) -> Result<(int, OptV), ErrV> {
    let p = ws_end(s, pos);
    if match_at(s, p, lit_integrator()) {
        spec_integrator_tail(s, p + lit_integrator().len())
    } else {
        Err(ErrV::UnexpectedToken(lit_integrator(), p))
    }
}

/// A whole `Film` directive, keyword included.
pub open spec fn spec_film(s: Seq<u8>, pos: int) -> Result<(int, OptV), ErrV> {
    let p = ws_end(s, pos);
    if match_at(s, p, lit_film()) {
        spec_film_tail(s, p + lit_film().len())
    } else {
        Err(ErrV::UnexpectedToken(lit_film(), p))
    }
}

/// A whole `Shape` directive, keyword included.
pub open spec fn spec_shape(s: Seq<u8>, pos: int) -> Result<(int, WorldV), ErrV> {
    let p = ws_end(s, pos);
    if match_at(s, p, lit_shape()) {
        spec_shape_tail(s, p + lit_shape().len())
    } else {
        Err(ErrV::UnexpectedToken(lit_shape(), p))
    }
}

/// A whole `Texture` directive, keyword included.
pub open spec fn spec_texture(s: Seq<u8>, pos: int) -> Result<(int, WorldV), ErrV> {
    let p = ws_end(s, pos);
    if match_at(s, p, lit_texture()) {
        spec_texture_tail(s, p + lit_texture().len())
    } else {
        Err(ErrV::UnexpectedToken(lit_texture(), p))
    }
}

/// A whole `Material` directive, keyword included.
pub open spec fn spec_material(s: Seq<u8>, pos: int) -> Result<(int, WorldV), ErrV> {
    let p = ws_end(s, pos);
    if match_at(s, p, lit_material()) {
        spec_material_tail(s, p + lit_material().len())
    } else {
        Err(ErrV::UnexpectedToken(lit_material(), p))
    }
}

/// A whole `Translate` directive, keyword included.
pub open spec fn spec_translate(s: Seq<u8>, pos: int) -> Result<(int, WorldV), ErrV> {
    let p = ws_end(s, pos);
    if match_at(s, p, lit_translate()) {
        spec_translate_tail(s, p + lit_translate().len())
    } else {
        Err(ErrV::UnexpectedToken(lit_translate(), p))
    }
}

/// A whole `LightSource` directive, keyword included.
pub open spec fn spec_light_source(s: Seq<u8>, pos: int) -> Result<(int, WorldV), ErrV> {
    let p = ws_end(s, pos);
    if match_at(s, p, lit_light_source()) {
        spec_light_source_tail(s, p + lit_light_source().len())
    } else {
        Err(ErrV::UnexpectedToken(lit_light_source(), p))
    }
}

/// A whole attribute scope, `AttributeBegin` included.
pub open spec fn spec_attribute(s: Seq<u8>, pos: int) -> Result<(int, WorldV), ErrV> {
    let p = ws_end(s, pos);
    if match_at(s, p, lit_attribute_begin()) {
        spec_attribute_tail(s, p + lit_attribute_begin().len())
    } else {
        Err(ErrV::UnexpectedToken(lit_attribute_begin(), p))
    }
}

/// A whole comment-stripped scene buffer: option directives, `WorldBegin`,
/// one or more world directives, `WorldEnd`, and nothing but whitespace
/// after. A `WorldEnd` position holding `AttributeEnd` reveals a closing
/// of a scope that was never opened.
pub open spec fn spec_scene(t: Seq<u8>) -> Result<SceneV, ErrV> {
    match spec_option_blocks(t, 0) {
        Err(e) => Err(e),
        Ok((p1, opts)) => {
            let q = ws_end(t, p1);
            match spec_expect_kw(t, q, lit_world_begin()) {
                Err(e) => Err(e),
                Ok(p2) => match spec_world_objects(t, p2) {
                    Err(e) => Err(e),
                    Ok((p3, objs)) => if objs.len() == 0 {
                        Err(ErrV::UnexpectedToken(lit_directive_label(), ws_end(t, p2)))
                    } else {
                        let r = ws_end(t, p3);
                        if match_at(t, r, lit_attribute_end()) {
                            Err(ErrV::UnbalancedAttributeScope)
                        } else {
                            match spec_expect_kw(t, r, lit_world_end()) {
                                Err(e) => Err(e),
                                Ok(p4) => {
                                    let done = ws_end(t, p4);
                                    if done == t.len() {
                                        Ok(SceneV { options: opts, world_objects: objs })
                                    } else {
                                        Err(ErrV::UnexpectedToken(lit_eoi_label(), done))
                                    }
                                },
                            }
                        }
                    },
                },
            }
        },
    }
}

/// A whole raw scene buffer: comment stripping, then the scene grammar.
pub open spec fn spec_parse(input: Seq<u8>) -> Result<SceneV, ErrV> {
    spec_scene(stripped(input))
}

} // verus!
