//! Executable recognizers for the scene-description grammar.
//!
//! Every function here proves that its result equals the corresponding
//! ghost function of `grammar`, so the grammar specification is the single
//! statement of what the parser accepts and produces.

use vstd::prelude::*;

use crate::grammar::{
    digits_end, is_alnum, is_digit, is_ws, lemma_scan_while, line_end, match_at, quote_end,
    spec_bool, spec_exponent, spec_integer, spec_mantissa, spec_number, spec_quoted_name,
    spec_quoted_string, strip_from, stripped, ws_end, QsV,
};
use crate::grammar::{lemma_digits_val_mono, lemma_digits_val_nonneg};
use crate::grammar::{
    spec_bool_items, spec_bool_value, spec_int_items, spec_int_value, spec_number_items,
    spec_number_value, spec_param_set, spec_param_set_item, spec_point_items, spec_point_value,
    spec_string_items, spec_string_value, spec_value, ws_end_g, ErrV,
};
use crate::grammar::{
    prepend_opts, prepend_worlds, spec_attribute, spec_attribute_tail, spec_camera,
    spec_camera_tail, spec_expect_kw, spec_expect_name, spec_film, spec_film_tail,
    spec_integrator, spec_integrator_tail, spec_light_source, spec_light_source_tail,
    spec_look_at, spec_look_at_tail, spec_material, spec_material_tail, spec_named_params,
    spec_option_block, spec_option_blocks, spec_parse, spec_req_number, spec_sampler,
    spec_sampler_tail, spec_scene, spec_shape, spec_shape_tail, spec_texture, spec_texture_tail,
    spec_translate, spec_translate_tail, spec_world_object, spec_world_objects, OptV, SceneV,
    WorldV,
};
use crate::geometry::Point3;
use crate::lit::{tok_false, tok_lbrack, tok_quote, tok_rbrack, tok_true};
use crate::lit::{
    tok_bool_label, tok_tag_blackbody, tok_tag_bool, tok_tag_float, tok_tag_integer,
    tok_tag_point, tok_tag_rgb, tok_tag_string, tok_tag_texture,
};
use crate::lit::{
    tok_attribute_begin, tok_attribute_end, tok_camera, tok_directive_label, tok_eoi_label,
    tok_film, tok_integrator, tok_light_source, tok_look_at, tok_material, tok_name_label,
    tok_sampler, tok_shape, tok_texture, tok_translate, tok_world_begin, tok_world_end,
};
use crate::paramset::{
    items_view, nums_view, points_view, ps_fold, strs_view, ExpPart, Number, NumberV, ParamSet,
    ParamSetItem, ParamSetItemV, Value, ValueV,
};

verus! {

broadcast use vstd::slice::group_slice_axioms;

fn byte_is_ws(b: u8) -> (r: bool)
    ensures
        r == is_ws(b),
{
    b == 32 || b == 9 || b == 13 || b == 10
}

fn byte_is_digit(b: u8) -> (r: bool)
    ensures
        r == is_digit(b),
{
    48 <= b && b <= 57
}

fn byte_is_alnum(b: u8) -> (r: bool)
    ensures
        r == is_alnum(b),
{
    byte_is_digit(b) || (65 <= b && b <= 90) || (97 <= b && b <= 122)
}

/// Advance past whitespace.
pub fn skip_ws(s: &[u8], pos: usize) -> (r: usize)
    requires
        pos <= s@.len(),
    ensures
        r == ws_end(s@, pos as int),
        pos <= r <= s@.len(),
{
    let mut i: usize = pos;
    while i < s.len() && byte_is_ws(s[i])
        invariant
            pos <= i <= s@.len(),
            ws_end(s@, pos as int) == ws_end(s@, i as int),
        decreases s@.len() - i,
    {
        i = i + 1;
    }
    i
}

/// Advance past decimal digits.
fn skip_digits(s: &[u8], pos: usize) -> (r: usize)
    requires
        pos <= s@.len(),
    ensures
        r == digits_end(s@, pos as int),
        pos <= r <= s@.len(),
{
    let mut i: usize = pos;
    while i < s.len() && byte_is_digit(s[i])
        invariant
            pos <= i <= s@.len(),
            digits_end(s@, pos as int) == digits_end(s@, i as int),
        decreases s@.len() - i,
    {
        i = i + 1;
    }
    i
}

/// Advance past alphanumeric bytes.
fn skip_alnum(s: &[u8], pos: usize) -> (r: usize)
    requires
        pos <= s@.len(),
    ensures
        r == crate::grammar::alnum_end(s@, pos as int),
        pos <= r <= s@.len(),
{
    let mut i: usize = pos;
    while i < s.len() && byte_is_alnum(s[i])
        invariant
            pos <= i <= s@.len(),
            crate::grammar::alnum_end(s@, pos as int) == crate::grammar::alnum_end(s@, i as int),
        decreases s@.len() - i,
    {
        i = i + 1;
    }
    i
}

/// Position of the next line feed, or the end of the buffer.
fn find_line_end(s: &[u8], pos: usize) -> (r: usize)
    requires
        pos <= s@.len(),
    ensures
        r == line_end(s@, pos as int),
        pos <= r <= s@.len(),
{
    let mut i: usize = pos;
    while i < s.len() && s[i] != 10
        invariant
            pos <= i <= s@.len(),
            line_end(s@, pos as int) == line_end(s@, i as int),
        decreases s@.len() - i,
    {
        i = i + 1;
    }
    i
}

/// Replace every comment run (`#` up to and including the next line feed)
/// with a single line feed; a trailing `#` run without a line feed is kept.
pub fn strip_comment(input: &[u8]) -> (out: Vec<u8>)
    ensures
        out@ == stripped(input@),
{
    let mut out: Vec<u8> = Vec::new();
    let mut i: usize = 0;
    while i < input.len()
        invariant
            i <= input@.len(),
            stripped(input@) == out@ + strip_from(input@, i as int),
        decreases input@.len() - i,
    {
        if input[i] == 35 {
            let k = find_line_end(input, i);
            if k < input.len() {
                out.push(10);
                proof {
                    assert(stripped(input@) =~= out@ + strip_from(input@, k + 1 as int));
                }
                i = k + 1;
            } else {
                let ghost prefix = out@;
                let mut j: usize = i;
                while j < input.len()
                    invariant
                        i <= j <= input@.len(),
                        out@ == prefix + input@.subrange(i as int, j as int),
                    decreases input@.len() - j,
                {
                    out.push(input[j]);
                    j = j + 1;
                }
                proof {
                    assert(stripped(input@) =~= out@ + strip_from(input@, input@.len() as int));
                }
                i = input.len();
            }
        } else {
            out.push(input[i]);
            proof {
                assert(stripped(input@) =~= out@ + strip_from(input@, i + 1 as int));
            }
            i = i + 1;
        }
    }
    proof {
        assert(out@ =~= out@ + strip_from(input@, i as int));
    }
    out
}

/// The length of a slice; the result being a machine word bounds the
/// ghost length of the slice's view.
fn slice_len<T>(s: &[T]) -> (n: usize)
    ensures
        n == s@.len(),
{
    s.len()
}

/// The bytes of `kw` occur in `s` at `pos`.
fn match_lit(s: &[u8], pos: usize, kw: &[u8]) -> (r: bool)
    requires
        pos <= s@.len(),
    ensures
        r == match_at(s@, pos as int, kw@),
{
    if s.len() - pos < kw.len() {
        return false;
    }
    let mut i: usize = 0;
    while i < kw.len()
        invariant
            0 <= i <= kw@.len(),
            pos + kw@.len() <= s@.len(),
            s@.len() <= usize::MAX,
            forall|j: int| 0 <= j < i ==> s@[pos + j] == kw@[j],
        decreases kw@.len() - i,
    {
        if s[pos + i] != kw[i] {
            proof {
                assert(s@.subrange(pos as int, pos + kw@.len())[i as int] != kw@[i as int]);
            }
            return false;
        }
        i = i + 1;
    }
    proof {
        assert(s@.subrange(pos as int, pos + kw@.len()) =~= kw@);
    }
    true
}

/// Copy of the bytes `s[from..to]`.
fn copy_range(s: &[u8], from: usize, to: usize) -> (r: Vec<u8>)
    requires
        from <= to <= s@.len(),
    ensures
        r@ == s@.subrange(from as int, to as int),
{
    let mut r: Vec<u8> = Vec::new();
    let mut i: usize = from;
    while i < to
        invariant
            from <= i <= to <= s@.len(),
            r@ == s@.subrange(from as int, i as int),
        decreases to - i,
    {
        r.push(s[i]);
        i = i + 1;
        proof {
            assert(r@ =~= s@.subrange(from as int, i as int));
        }
    }
    r
}

/// Recognize the exponent part of a numeric literal.
fn exponent(s: &[u8], pos: usize) -> (r: Option<(usize, ExpPart)>)
    requires
        pos <= s@.len(),
    ensures
        (match r {
            Option::Some((p2, e)) => spec_exponent(s@, pos as int) == Some((p2 as int, e@))
                && pos < p2 <= s@.len(),
            Option::None => spec_exponent(s@, pos as int) is None,
        }),
{
    if pos < s.len() && (s[pos] == 101 || s[pos] == 69) {
        let q = pos + 1;
        let has_sign = q < s.len() && (s[q] == 43 || s[q] == 45);
        let neg = q < s.len() && s[q] == 45;
        let d0 = if has_sign {
            q + 1
        } else {
            q
        };
        let d1 = skip_digits(s, d0);
        if d1 > d0 {
            let digits = copy_range(s, d0, d1);
            Some((d1, ExpPart { neg, digits }))
        } else {
            None
        }
    } else {
        None
    }
}

/// Recognize the mantissa of a numeric literal.
fn mantissa(s: &[u8], pos: usize) -> (r: Option<(usize, Number)>)
    requires
        pos <= s@.len(),
    ensures
        (match r {
            Option::Some((p2, n)) => spec_mantissa(s@, pos as int) == Some((p2 as int, n@))
                && pos < p2 <= s@.len(),
            Option::None => spec_mantissa(s@, pos as int) is None,
        }),
{
    let has_sign = pos < s.len() && (s[pos] == 43 || s[pos] == 45);
    let neg = pos < s.len() && s[pos] == 45;
    let p1 = if has_sign {
        pos + 1
    } else {
        pos
    };
    let w = skip_digits(s, p1);
    if w < s.len() && s[w] == 46 {
        let f = skip_digits(s, w + 1);
        if f > w + 1 {
            let whole = copy_range(s, p1, w);
            let frac = copy_range(s, w + 1, f);
            Some((f, Number { neg, whole, point: true, frac, exp: None }))
        } else if w > p1 {
            let whole = copy_range(s, p1, w);
            Some((w + 1, Number { neg, whole, point: true, frac: Vec::new(), exp: None }))
        } else {
            None
        }
    } else if w > p1 {
        let whole = copy_range(s, p1, w);
        Some((w, Number { neg, whole, point: false, frac: Vec::new(), exp: None }))
    } else {
        None
    }
}

/// Recognize a numeric literal: sign, digits with an optional decimal
/// point, and an optional exponent. The permissive shapes `3.` and `.1`
/// are accepted; a lone `.` or a bare exponent is not.
pub fn number(s: &[u8], pos: usize) -> (r: Option<(usize, Number)>)
    requires
        pos <= s@.len(),
    ensures
        (match r {
            Option::Some((p2, n)) => spec_number(s@, pos as int) == Some((p2 as int, n@))
                && pos < p2 <= s@.len(),
            Option::None => spec_number(s@, pos as int) is None,
        }),
{
    match mantissa(s, pos) {
        Some((m, nb)) => match exponent(s, m) {
            Some((e, ex)) => Some(
                (
                    e,
                    Number {
                        neg: nb.neg,
                        whole: nb.whole,
                        point: nb.point,
                        frac: nb.frac,
                        exp: Some(ex),
                    },
                ),
            ),
            None => Some((m, nb)),
        },
        None => None,
    }
}

/// Base-ten value of the digit run `s[from..to]`, or `None` if it exceeds
/// the 64-bit unsigned range.
fn digits_value(s: &[u8], from: usize, to: usize) -> (r: Option<u64>)
    requires
        from <= to <= s@.len(),
        forall|j: int| from <= j < to ==> is_digit(s@[j]),
    ensures
        (match r {
            Option::Some(v) => v as int == crate::grammar::digits_val(s@, from as int, to as int),
            Option::None => crate::grammar::digits_val(s@, from as int, to as int) > u64::MAX,
        }),
{
    let mut acc: u64 = 0;
    let mut i: usize = from;
    while i < to
        invariant
            from <= i <= to <= s@.len(),
            forall|j: int| from <= j < to ==> is_digit(s@[j]),
            acc as int == crate::grammar::digits_val(s@, from as int, i as int),
        decreases to - i,
    {
        let d = s[i] - 48;
        if acc > (u64::MAX - d as u64) / 10 {
            proof {
                assert(crate::grammar::digits_val(s@, from as int, i + 1 as int) > u64::MAX);
                lemma_digits_val_mono(s@, from as int, i + 1 as int, to as int);
            }
            return None;
        }
        acc = acc * 10 + d as u64;
        i = i + 1;
    }
    Some(acc)
}

/// Recognize an integer literal: an optional sign and digits, rejected if a
/// decimal point follows the digits or the value does not fit a 64-bit
/// signed integer.
pub fn integer(s: &[u8], pos: usize) -> (r: Option<(usize, i64)>)
    requires
        pos <= s@.len(),
    ensures
        (match r {
            Option::Some((p2, v)) => spec_integer(s@, pos as int) == Some((p2 as int, v as int))
                && pos < p2 <= s@.len(),
            Option::None => spec_integer(s@, pos as int) is None,
        }),
{
    let has_sign = pos < s.len() && (s[pos] == 43 || s[pos] == 45);
    let neg = pos < s.len() && s[pos] == 45;
    let p1 = if has_sign {
        pos + 1
    } else {
        pos
    };
    let d = skip_digits(s, p1);
    if d == p1 || (d < s.len() && s[d] == 46) {
        return None;
    }
    proof {
        lemma_scan_while(s@, p1 as int, |b: u8| is_digit(b));
        lemma_digits_val_nonneg(s@, p1 as int, d as int);
    }
    match digits_value(s, p1, d) {
        None => None,
        Some(m) => {
            if neg {
                if m <= 9223372036854775808u64 {
                    let v: i64 = if m == 9223372036854775808u64 {
                        i64::MIN
                    } else {
                        -(m as i64)
                    };
                    Some((d, v))
                } else {
                    None
                }
            } else {
                if m <= 9223372036854775807u64 {
                    Some((d, m as i64))
                } else {
                    None
                }
            }
        },
    }
}

/// Recognize a boolean literal: exactly `true` or `false`.
pub fn boolean(s: &[u8], pos: usize) -> (r: Option<(usize, bool)>)
    requires
        pos <= s@.len(),
    ensures
        (match r {
            Option::Some((p2, b)) => spec_bool(s@, pos as int) == Some((p2 as int, b))
                && pos < p2 <= s@.len(),
            Option::None => spec_bool(s@, pos as int) is None,
        }),
{
    let n = slice_len(s);
    let t = tok_true();
    if match_lit(s, pos, t.as_slice()) {
        proof {
            assert(pos + 4 <= n);
        }
        return Some((pos + 4, true));
    }
    let f = tok_false();
    if match_lit(s, pos, f.as_slice()) {
        proof {
            assert(pos + 5 <= n);
        }
        return Some((pos + 5, false));
    }
    None
}

/// Recognize a quoted name: a quote, alphanumeric bytes, a closing quote.
pub fn quoted_name(s: &[u8], pos: usize) -> (r: Option<(usize, Vec<u8>)>)
    requires
        pos <= s@.len(),
    ensures
        (match r {
            Option::Some((p2, n)) => spec_quoted_name(s@, pos as int) == Some((p2 as int, n@))
                && pos < p2 <= s@.len(),
            Option::None => spec_quoted_name(s@, pos as int) is None,
        }),
{
    if pos < s.len() && s[pos] == 34 {
        let e = skip_alnum(s, pos + 1);
        if e > pos + 1 && e < s.len() && s[e] == 34 {
            let name = copy_range(s, pos + 1, e);
            Some((e + 1, name))
        } else {
            None
        }
    } else {
        None
    }
}

/// Result of scanning for a quoted arbitrary string.
pub enum Qs {
    NoQuote,
    Unterminated,
    Found(usize, Vec<u8>),
}

impl View for Qs {
    type V = QsV;

    open spec fn view(&self) -> QsV {
        match self {
            Qs::NoQuote => QsV::NoQuote,
            Qs::Unterminated => QsV::Unterminated,
            Qs::Found(p, v) => QsV::Found(*p as int, v@),
        }
    }
}

/// Position of the next quote, or the end of the buffer.
fn find_quote(s: &[u8], pos: usize) -> (r: usize)
    requires
        pos <= s@.len(),
    ensures
        r == quote_end(s@, pos as int),
        pos <= r <= s@.len(),
{
    let mut i: usize = pos;
    while i < s.len() && s[i] != 34
        invariant
            pos <= i <= s@.len(),
            quote_end(s@, pos as int) == quote_end(s@, i as int),
        decreases s@.len() - i,
    {
        i = i + 1;
    }
    i
}

/// Recognize a quoted arbitrary string; any byte but a quote may stand
/// between the quotes, and there are no escape sequences.
pub fn quoted_string(s: &[u8], pos: usize) -> (r: Qs)
    requires
        pos <= s@.len(),
    ensures
        r@ == spec_quoted_string(s@, pos as int),
        (match r {
            Qs::Found(p2, _) => pos < p2 <= s@.len(),
            _ => true,
        }),
{
    if pos < s.len() && s[pos] == 34 {
        let e = find_quote(s, pos + 1);
        if e < s.len() {
            let content = copy_range(s, pos + 1, e);
            Qs::Found(e + 1, content)
        } else {
            Qs::Unterminated
        }
    } else {
        Qs::NoQuote
    }
}

/// A parse failure. Positions are byte offsets into the comment-stripped
/// buffer; see `grammar::ErrV`.
#[derive(Debug, Clone, PartialEq)]
pub enum Error {
    MalformedNumericLiteral,
    UnterminatedQuotedString,
    UnknownParameterType(Vec<u8>, usize),
    UnbalancedAttributeScope,
    UnexpectedToken(Vec<u8>, usize),
    TruncatedInput(usize),
}

impl View for Error {
    type V = ErrV;

    open spec fn view(&self) -> ErrV {
        match self {
            Error::MalformedNumericLiteral => ErrV::MalformedNumericLiteral,
            Error::UnterminatedQuotedString => ErrV::UnterminatedQuotedString,
            Error::UnknownParameterType(t, p) => ErrV::UnknownParameterType(t@, *p as int),
            Error::UnbalancedAttributeScope => ErrV::UnbalancedAttributeScope,
            Error::UnexpectedToken(t, p) => ErrV::UnexpectedToken(t@, *p as int),
            Error::TruncatedInput(n) => ErrV::TruncatedInput(*n as int),
        }
    }
}

/// Collect whitespace-separated boolean literals until one fails to match.
fn bool_items(s: &[u8], pos: usize) -> (r: (usize, Vec<bool>))
    requires
        pos <= s@.len(),
    ensures
        spec_bool_items(s@, pos as int) == (r.0 as int, r.1@),
        pos <= r.0 <= s@.len(),
{
    let mut acc: Vec<bool> = Vec::new();
    let mut cur: usize = pos;
    loop
        invariant
            pos <= cur <= s@.len(),
            spec_bool_items(s@, pos as int).0 == spec_bool_items(s@, cur as int).0,
            spec_bool_items(s@, pos as int).1 == acc@ + spec_bool_items(s@, cur as int).1,
        decreases s@.len() - cur,
    {
        let p = skip_ws(s, cur);
        proof {
            assert(ws_end_g(s@, cur as int) == p as int);
        }
        match boolean(s, p) {
            None => {
                proof {
                    assert(spec_bool_items(s@, cur as int) == (p as int, Seq::<bool>::empty()));
                    assert(acc@ + Seq::<bool>::empty() =~= acc@);
                }
                return (p, acc);
            },
            Some((p2, b)) => {
                let ghost prev = acc@;
                acc.push(b);
                proof {
                    let rest = spec_bool_items(s@, p2 as int);
                    assert(spec_bool_items(s@, cur as int) == (rest.0, seq![b] + rest.1));
                    assert(prev + (seq![b] + rest.1) =~= acc@ + rest.1);
                }
                cur = p2;
            },
        }
    }
}

/// Collect whitespace-separated numeric literals until one fails to match.
fn number_items(s: &[u8], pos: usize) -> (r: (usize, Vec<Number>))
    requires
        pos <= s@.len(),
    ensures
        spec_number_items(s@, pos as int).0 == r.0 as int,
        spec_number_items(s@, pos as int).1 == nums_view(r.1@),
        pos <= r.0 <= s@.len(),
{
    let mut acc: Vec<Number> = Vec::new();
    let mut cur: usize = pos;
    proof {
        assert(nums_view(acc@) =~= Seq::<crate::paramset::NumberV>::empty());
    }
    loop
        invariant
            pos <= cur <= s@.len(),
            spec_number_items(s@, pos as int).0 == spec_number_items(s@, cur as int).0,
            spec_number_items(s@, pos as int).1 == nums_view(acc@) + spec_number_items(
                s@,
                cur as int,
            ).1,
        decreases s@.len() - cur,
    {
        let p = skip_ws(s, cur);
        proof {
            assert(ws_end_g(s@, cur as int) == p as int);
        }
        match number(s, p) {
            None => {
                proof {
                    assert(spec_number_items(s@, cur as int).1 =~= Seq::<
                        crate::paramset::NumberV,
                    >::empty());
                    assert(nums_view(acc@) + spec_number_items(s@, cur as int).1 =~= nums_view(
                        acc@,
                    ));
                }
                return (p, acc);
            },
            Some((p2, n)) => {
                let ghost prev = acc@;
                let ghost nv = n@;
                acc.push(n);
                proof {
                    let rest = spec_number_items(s@, p2 as int);
                    assert(spec_number_items(s@, cur as int) == (rest.0, seq![nv] + rest.1));
                    assert(nums_view(acc@) =~= nums_view(prev).push(nv));
                    assert(nums_view(prev) + (seq![nv] + rest.1) =~= nums_view(acc@) + rest.1);
                }
                cur = p2;
            },
        }
    }
}

/// Collect whitespace-separated integer literals until one fails to match.
fn int_items(s: &[u8], pos: usize) -> (r: (usize, Vec<i64>))
    requires
        pos <= s@.len(),
    ensures
        spec_int_items(s@, pos as int) == (r.0 as int, r.1@),
        pos <= r.0 <= s@.len(),
{
    let mut acc: Vec<i64> = Vec::new();
    let mut cur: usize = pos;
    loop
        invariant
            pos <= cur <= s@.len(),
            spec_int_items(s@, pos as int).0 == spec_int_items(s@, cur as int).0,
            spec_int_items(s@, pos as int).1 == acc@ + spec_int_items(s@, cur as int).1,
        decreases s@.len() - cur,
    {
        let p = skip_ws(s, cur);
        proof {
            assert(ws_end_g(s@, cur as int) == p as int);
        }
        match integer(s, p) {
            None => {
                proof {
                    assert(spec_int_items(s@, cur as int) == (p as int, Seq::<i64>::empty()));
                    assert(acc@ + Seq::<i64>::empty() =~= acc@);
                }
                return (p, acc);
            },
            Some((p2, v)) => {
                let ghost prev = acc@;
                acc.push(v);
                proof {
                    let rest = spec_int_items(s@, p2 as int);
                    assert(spec_int_items(s@, cur as int) == (rest.0, seq![v] + rest.1));
                    assert(prev + (seq![v] + rest.1) =~= acc@ + rest.1);
                }
                cur = p2;
            },
        }
    }
}

/// Collect whitespace-separated quoted strings; an unterminated string
/// fails the whole run.
fn string_items(s: &[u8], pos: usize) -> (r: Result<(usize, Vec<Vec<u8>>), Error>)
    requires
        pos <= s@.len(),
    ensures
        (match r {
            Result::Ok((p2, v)) => spec_string_items(s@, pos as int) == Ok::<_, ErrV>(
                (p2 as int, strs_view(v@)),
            ) && pos <= p2 <= s@.len(),
            Result::Err(e) => spec_string_items(s@, pos as int) == Err::<(int, Seq<Seq<u8>>), _>(
                e@,
            ),
        }),
{
    let mut acc: Vec<Vec<u8>> = Vec::new();
    let mut cur: usize = pos;
    proof {
        assert(strs_view(acc@) =~= Seq::<Seq<u8>>::empty());
    }
    loop
        invariant
            pos <= cur <= s@.len(),
            (forall|p3: int, rest: Seq<Seq<u8>>|
                spec_string_items(s@, cur as int) == Ok::<_, ErrV>((p3, rest))
                    ==> spec_string_items(s@, pos as int) == Ok::<_, ErrV>(
                    (p3, strs_view(acc@) + rest),
                )),
            (forall|e: ErrV|
                spec_string_items(s@, cur as int) == Err::<(int, Seq<Seq<u8>>), _>(e)
                    ==> spec_string_items(s@, pos as int) == Err::<(int, Seq<Seq<u8>>), _>(e)),
        decreases s@.len() - cur,
    {
        let p = skip_ws(s, cur);
        proof {
            assert(ws_end_g(s@, cur as int) == p as int);
        }
        match quoted_string(s, p) {
            Qs::NoQuote => {
                proof {
                    assert(spec_string_items(s@, cur as int) == Ok::<_, ErrV>(
                        (p as int, Seq::<Seq<u8>>::empty()),
                    ));
                    assert(strs_view(acc@) + Seq::<Seq<u8>>::empty() =~= strs_view(acc@));
                }
                return Ok((p, acc));
            },
            Qs::Unterminated => {
                return Err(Error::UnterminatedQuotedString);
            },
            Qs::Found(p2, content) => {
                let ghost prev = acc@;
                let ghost cv = content@;
                acc.push(content);
                proof {
                    assert(strs_view(acc@) =~= strs_view(prev).push(cv));
                    assert forall|p3: int, rest: Seq<Seq<u8>>|
                        spec_string_items(s@, p2 as int) == Ok::<_, ErrV>(
                            (p3, rest),
                        ) implies spec_string_items(s@, pos as int) == Ok::<_, ErrV>(
                        (p3, strs_view(acc@) + rest),
                    ) by {
                        assert(spec_string_items(s@, cur as int) == Ok::<_, ErrV>(
                            (p3, seq![cv] + rest),
                        ));
                        assert(strs_view(prev) + (seq![cv] + rest) =~= strs_view(acc@) + rest);
                    }
                }
                cur = p2;
            },
        }
    }
}

/// Collect whitespace-separated float triples until a full triple fails to
/// match.
fn point_items(s: &[u8], pos: usize) -> (r: (usize, Vec<Point3<Number>>))
    requires
        pos <= s@.len(),
    ensures
        spec_point_items(s@, pos as int).0 == r.0 as int,
        spec_point_items(s@, pos as int).1 == points_view(r.1@),
        pos <= r.0 <= s@.len(),
{
    let mut acc: Vec<Point3<Number>> = Vec::new();
    let mut cur: usize = pos;
    proof {
        assert(points_view(acc@) =~= Seq::<Point3<crate::paramset::NumberV>>::empty());
    }
    loop
        invariant
            pos <= cur <= s@.len(),
            spec_point_items(s@, pos as int).0 == spec_point_items(s@, cur as int).0,
            spec_point_items(s@, pos as int).1 == points_view(acc@) + spec_point_items(
                s@,
                cur as int,
            ).1,
        decreases s@.len() - cur,
    {
        let p0 = skip_ws(s, cur);
        proof {
            assert(ws_end_g(s@, cur as int) == p0 as int);
        }
        let rx = number(s, p0);
        if rx.is_none() {
            proof {
                assert(spec_point_items(s@, cur as int).1 =~= Seq::<
                    Point3<crate::paramset::NumberV>,
                >::empty());
                assert(points_view(acc@) + spec_point_items(s@, cur as int).1 =~= points_view(
                    acc@,
                ));
            }
            return (p0, acc);
        }
        let (px, x) = rx.unwrap();
        let p1 = skip_ws(s, px);
        let ry = number(s, p1);
        if ry.is_none() {
            proof {
                assert(spec_point_items(s@, cur as int).1 =~= Seq::<
                    Point3<crate::paramset::NumberV>,
                >::empty());
                assert(points_view(acc@) + spec_point_items(s@, cur as int).1 =~= points_view(
                    acc@,
                ));
            }
            return (p0, acc);
        }
        let (py, y) = ry.unwrap();
        let p2 = skip_ws(s, py);
        let rz = number(s, p2);
        if rz.is_none() {
            proof {
                assert(spec_point_items(s@, cur as int).1 =~= Seq::<
                    Point3<crate::paramset::NumberV>,
                >::empty());
                assert(points_view(acc@) + spec_point_items(s@, cur as int).1 =~= points_view(
                    acc@,
                ));
            }
            return (p0, acc);
        }
        let (pz, z) = rz.unwrap();
        let ghost prev = acc@;
        let ghost pv = Point3 { x: x@, y: y@, z: z@ };
        acc.push(Point3 { x, y, z });
        proof {
            let rest = spec_point_items(s@, pz as int);
            assert(spec_point_items(s@, cur as int) == (rest.0, seq![pv] + rest.1));
            assert(points_view(acc@) =~= points_view(prev).push(pv));
            assert(points_view(prev) + (seq![pv] + rest.1) =~= points_view(acc@) + rest.1);
        }
        cur = pz;
    }
}

/// One or more boolean literals, bracketed or bare.
fn bool_value(s: &[u8], pos: usize) -> (r: Result<(usize, Vec<bool>), Error>)
    requires
        pos <= s@.len(),
    ensures
        r is Ok <==> spec_bool_value(s@, pos as int) is Ok,
        r matches Ok((p2, v)) ==> spec_bool_value(s@, pos as int) == Ok::<_, ErrV>(
            (p2 as int, v@),
        ) && pos <= p2 <= s@.len(),
        r matches Err(e) ==> spec_bool_value(s@, pos as int) == Err::<(int, Seq<bool>), _>(e@),
{
    let p = skip_ws(s, pos);
    if p < s.len() && s[p] == 91 {
        let (q, items) = bool_items(s, p + 1);
        if items.len() == 0 {
            Err(Error::UnexpectedToken(tok_bool_label(), q))
        } else if q < s.len() && s[q] == 93 {
            let e = skip_ws(s, q + 1);
            Ok((e, items))
        } else {
            Err(Error::UnexpectedToken(tok_rbrack(), q))
        }
    } else {
        let (q, items) = bool_items(s, pos);
        if items.len() == 0 {
            Err(Error::UnexpectedToken(tok_bool_label(), q))
        } else {
            Ok((q, items))
        }
    }
}

/// One or more numeric literals, bracketed or bare.
fn number_value(s: &[u8], pos: usize) -> (r: Result<(usize, Vec<Number>), Error>)
    requires
        pos <= s@.len(),
    ensures
        r is Ok <==> spec_number_value(s@, pos as int) is Ok,
        r matches Ok((p2, v)) ==> spec_number_value(s@, pos as int) == Ok::<_, ErrV>(
            (p2 as int, nums_view(v@)),
        ) && pos <= p2 <= s@.len(),
        r matches Err(e) ==> spec_number_value(s@, pos as int) == Err::<(int, Seq<NumberV>), _>(
            e@,
        ),
{
    let p = skip_ws(s, pos);
    if p < s.len() && s[p] == 91 {
        let (q, items) = number_items(s, p + 1);
        if items.len() == 0 {
            Err(Error::MalformedNumericLiteral)
        } else if q < s.len() && s[q] == 93 {
            let e = skip_ws(s, q + 1);
            Ok((e, items))
        } else {
            Err(Error::UnexpectedToken(tok_rbrack(), q))
        }
    } else {
        let (q, items) = number_items(s, pos);
        if items.len() == 0 {
            Err(Error::MalformedNumericLiteral)
        } else {
            Ok((q, items))
        }
    }
}

/// One or more integer literals, bracketed or bare.
fn int_value(s: &[u8], pos: usize) -> (r: Result<(usize, Vec<i64>), Error>)
    requires
        pos <= s@.len(),
    ensures
        r is Ok <==> spec_int_value(s@, pos as int) is Ok,
        r matches Ok((p2, v)) ==> spec_int_value(s@, pos as int) == Ok::<_, ErrV>(
            (p2 as int, v@),
        ) && pos <= p2 <= s@.len(),
        r matches Err(e) ==> spec_int_value(s@, pos as int) == Err::<(int, Seq<i64>), _>(e@),
{
    let p = skip_ws(s, pos);
    if p < s.len() && s[p] == 91 {
        let (q, items) = int_items(s, p + 1);
        if items.len() == 0 {
            Err(Error::MalformedNumericLiteral)
        } else if q < s.len() && s[q] == 93 {
            let e = skip_ws(s, q + 1);
            Ok((e, items))
        } else {
            Err(Error::UnexpectedToken(tok_rbrack(), q))
        }
    } else {
        let (q, items) = int_items(s, pos);
        if items.len() == 0 {
            Err(Error::MalformedNumericLiteral)
        } else {
            Ok((q, items))
        }
    }
}

/// One or more quoted strings in brackets, or exactly one bare quoted
/// string.
fn string_value(s: &[u8], pos: usize) -> (r: Result<(usize, Vec<Vec<u8>>), Error>)
    requires
        pos <= s@.len(),
    ensures
        r is Ok <==> spec_string_value(s@, pos as int) is Ok,
        r matches Ok((p2, v)) ==> spec_string_value(s@, pos as int) == Ok::<_, ErrV>(
            (p2 as int, strs_view(v@)),
        ) && pos <= p2 <= s@.len(),
        r matches Err(e) ==> spec_string_value(s@, pos as int) == Err::<(int, Seq<Seq<u8>>), _>(
            e@,
        ),
{
    let p = skip_ws(s, pos);
    if p < s.len() && s[p] == 91 {
        match string_items(s, p + 1) {
            Err(e) => Err(e),
            Ok((q, items)) => {
                if items.len() == 0 {
                    Err(Error::UnexpectedToken(tok_quote(), q))
                } else if q < s.len() && s[q] == 93 {
                    let e = skip_ws(s, q + 1);
                    Ok((e, items))
                } else {
                    Err(Error::UnexpectedToken(tok_rbrack(), q))
                }
            },
        }
    } else {
        match quoted_string(s, p) {
            Qs::Found(p2, st) => {
                let e = skip_ws(s, p2);
                let mut items: Vec<Vec<u8>> = Vec::new();
                let ghost sv = st@;
                items.push(st);
                proof {
                    assert(strs_view(items@) =~= seq![sv]);
                }
                Ok((e, items))
            },
            Qs::Unterminated => Err(Error::UnterminatedQuotedString),
            Qs::NoQuote => Err(Error::UnexpectedToken(tok_quote(), p)),
        }
    }
}

/// One or more bracketed float triples; points accept no bare form.
fn point_value(s: &[u8], pos: usize) -> (r: Result<(usize, Vec<Point3<Number>>), Error>)
    requires
        pos <= s@.len(),
    ensures
        r is Ok <==> spec_point_value(s@, pos as int) is Ok,
        r matches Ok((p2, v)) ==> spec_point_value(s@, pos as int) == Ok::<_, ErrV>(
            (p2 as int, points_view(v@)),
        ) && pos <= p2 <= s@.len(),
        r matches Err(e) ==> spec_point_value(s@, pos as int) == Err::<
            (int, Seq<Point3<NumberV>>),
            _,
        >(e@),
{
    let p = skip_ws(s, pos);
    if p < s.len() && s[p] == 91 {
        let (q, items) = point_items(s, p + 1);
        if items.len() == 0 {
            Err(Error::MalformedNumericLiteral)
        } else if q < s.len() && s[q] == 93 {
            let e = skip_ws(s, q + 1);
            Ok((e, items))
        } else {
            Err(Error::UnexpectedToken(tok_rbrack(), q))
        }
    } else {
        Err(Error::UnexpectedToken(tok_lbrack(), p))
    }
}

/// Advance past spaces and tabs.
fn skip_sp(s: &[u8], pos: usize) -> (r: usize)
    requires
        pos <= s@.len(),
    ensures
        r == crate::grammar::sp_end(s@, pos as int),
        pos <= r <= s@.len(),
{
    let mut i: usize = pos;
    while i < s.len() && (s[i] == 32 || s[i] == 9)
        invariant
            pos <= i <= s@.len(),
            crate::grammar::sp_end(s@, pos as int) == crate::grammar::sp_end(s@, i as int),
        decreases s@.len() - i,
    {
        i = i + 1;
    }
    i
}

/// Equality of two byte slices.
fn slice_eq(a: &[u8], b: &[u8]) -> (r: bool)
    ensures
        r == (a@ == b@),
{
    if a.len() != b.len() {
        return false;
    }
    let mut i: usize = 0;
    while i < a.len()
        invariant
            0 <= i <= a@.len(),
            a@.len() == b@.len(),
            forall|j: int| 0 <= j < i ==> a@[j] == b@[j],
        decreases a@.len() - i,
    {
        if a[i] != b[i] {
            return false;
        }
        i = i + 1;
    }
    proof {
        assert(a@ =~= b@);
    }
    true
}

/// Parameter values under the `bool` tag.
pub fn param_set_item_values_bool(s: &[u8], pos: usize) -> (r: Result<(usize, Value), Error>)
    requires
        pos <= s@.len(),
    ensures
        r is Ok <==> spec_bool_value(s@, pos as int) is Ok,
        r matches Ok((p2, v)) ==> (spec_bool_value(s@, pos as int) matches Ok(t) && p2 as int
            == t.0 && v@ == ValueV::Bool(t.1) && pos <= p2 <= s@.len()),
        r matches Err(e) ==> (spec_bool_value(s@, pos as int) matches Err(ev) && e@ == ev),
{
    match bool_value(s, pos) {
        Ok((p, items)) => Ok((p, Value::Bool(items))),
        Err(e) => Err(e),
    }
}

/// Parameter values under the `float` tag.
pub fn param_set_item_values_float(s: &[u8], pos: usize) -> (r: Result<(usize, Value), Error>)
    requires
        pos <= s@.len(),
    ensures
        r is Ok <==> spec_number_value(s@, pos as int) is Ok,
        r matches Ok((p2, v)) ==> (spec_number_value(s@, pos as int) matches Ok(t) && p2 as int
            == t.0 && v@ == ValueV::Float(t.1) && pos <= p2 <= s@.len()),
        r matches Err(e) ==> (spec_number_value(s@, pos as int) matches Err(ev) && e@ == ev),
{
    match number_value(s, pos) {
        Ok((p, items)) => Ok((p, Value::Float(items))),
        Err(e) => Err(e),
    }
}

/// Parameter values under the `integer` tag.
pub fn param_set_item_values_integer(s: &[u8], pos: usize) -> (r: Result<(usize, Value), Error>)
    requires
        pos <= s@.len(),
    ensures
        r is Ok <==> spec_int_value(s@, pos as int) is Ok,
        r matches Ok((p2, v)) ==> (spec_int_value(s@, pos as int) matches Ok(t) && p2 as int
            == t.0 && v@ == ValueV::Int(t.1) && pos <= p2 <= s@.len()),
        r matches Err(e) ==> (spec_int_value(s@, pos as int) matches Err(ev) && e@ == ev),
{
    match int_value(s, pos) {
        Ok((p, items)) => Ok((p, Value::Int(items))),
        Err(e) => Err(e),
    }
}

/// Parameter values under the `string` tag.
pub fn param_set_item_values_string(s: &[u8], pos: usize) -> (r: Result<(usize, Value), Error>)
    requires
        pos <= s@.len(),
    ensures
        r is Ok <==> spec_string_value(s@, pos as int) is Ok,
        r matches Ok((p2, v)) ==> (spec_string_value(s@, pos as int) matches Ok(t) && p2 as int
            == t.0 && v@ == ValueV::Str(t.1) && pos <= p2 <= s@.len()),
        r matches Err(e) ==> (spec_string_value(s@, pos as int) matches Err(ev) && e@ == ev),
{
    match string_value(s, pos) {
        Ok((p, items)) => Ok((p, Value::Str(items))),
        Err(e) => Err(e),
    }
}

/// Parameter values under the `point` tag.
pub fn param_set_item_values_point(s: &[u8], pos: usize) -> (r: Result<(usize, Value), Error>)
    requires
        pos <= s@.len(),
    ensures
        r is Ok <==> spec_point_value(s@, pos as int) is Ok,
        r matches Ok((p2, v)) ==> (spec_point_value(s@, pos as int) matches Ok(t) && p2 as int
            == t.0 && v@ == ValueV::Point3f(t.1) && pos <= p2 <= s@.len()),
        r matches Err(e) ==> (spec_point_value(s@, pos as int) matches Err(ev) && e@ == ev),
{
    match point_value(s, pos) {
        Ok((p, items)) => Ok((p, Value::Point3f(items))),
        Err(e) => Err(e),
    }
}

/// Parameter values under the `rgb` tag.
pub fn param_set_item_values_rgb(s: &[u8], pos: usize) -> (r: Result<(usize, Value), Error>)
    requires
        pos <= s@.len(),
    ensures
        r is Ok <==> spec_number_value(s@, pos as int) is Ok,
        r matches Ok((p2, v)) ==> (spec_number_value(s@, pos as int) matches Ok(t) && p2 as int
            == t.0 && v@ == ValueV::RGB(t.1) && pos <= p2 <= s@.len()),
        r matches Err(e) ==> (spec_number_value(s@, pos as int) matches Err(ev) && e@ == ev),
{
    match number_value(s, pos) {
        Ok((p, items)) => Ok((p, Value::RGB(items))),
        Err(e) => Err(e),
    }
}

/// Parameter values under the `texture` tag.
pub fn param_set_item_values_texture(s: &[u8], pos: usize) -> (r: Result<(usize, Value), Error>)
    requires
        pos <= s@.len(),
    ensures
        r is Ok <==> spec_string_value(s@, pos as int) is Ok,
        r matches Ok((p2, v)) ==> (spec_string_value(s@, pos as int) matches Ok(t) && p2 as int
            == t.0 && v@ == ValueV::Texture(t.1) && pos <= p2 <= s@.len()),
        r matches Err(e) ==> (spec_string_value(s@, pos as int) matches Err(ev) && e@ == ev),
{
    match string_value(s, pos) {
        Ok((p, items)) => Ok((p, Value::Texture(items))),
        Err(e) => Err(e),
    }
}

/// Parameter values under the `blackbody` tag.
pub fn param_set_item_values_blackbody(s: &[u8], pos: usize) -> (r: Result<(usize, Value), Error>)
    requires
        pos <= s@.len(),
    ensures
        r is Ok <==> spec_number_value(s@, pos as int) is Ok,
        r matches Ok((p2, v)) ==> (spec_number_value(s@, pos as int) matches Ok(t) && p2 as int
            == t.0 && v@ == ValueV::Blackbody(t.1) && pos <= p2 <= s@.len()),
        r matches Err(e) ==> (spec_number_value(s@, pos as int) matches Err(ev) && e@ == ev),
{
    match number_value(s, pos) {
        Ok((p, items)) => Ok((p, Value::Blackbody(items))),
        Err(e) => Err(e),
    }
}

/// Parameter values for a run-time type tag: dispatch to the tag's value
/// grammar, or fail with the unknown tag and its position.
pub fn param_set_item_values(s: &[u8], pos: usize, tag: &[u8], tag_pos: usize) -> (r: Result<
    (usize, Value),
    Error,
>)
    requires
        pos <= s@.len(),
    ensures
        r is Ok <==> spec_value(s@, pos as int, tag@, tag_pos as int) is Ok,
        r matches Ok((p2, v)) ==> spec_value(s@, pos as int, tag@, tag_pos as int) == Ok::<
            _,
            ErrV,
        >((p2 as int, v@)) && pos <= p2 <= s@.len(),
        r matches Err(e) ==> spec_value(s@, pos as int, tag@, tag_pos as int) == Err::<
            (int, ValueV),
            _,
        >(e@),
{
    let k_bool = tok_tag_bool();
    if slice_eq(tag, k_bool.as_slice()) {
        return param_set_item_values_bool(s, pos);
    }
    let k_float = tok_tag_float();
    if slice_eq(tag, k_float.as_slice()) {
        return param_set_item_values_float(s, pos);
    }
    let k_integer = tok_tag_integer();
    if slice_eq(tag, k_integer.as_slice()) {
        return param_set_item_values_integer(s, pos);
    }
    let k_string = tok_tag_string();
    if slice_eq(tag, k_string.as_slice()) {
        return param_set_item_values_string(s, pos);
    }
    let k_point = tok_tag_point();
    if slice_eq(tag, k_point.as_slice()) {
        return param_set_item_values_point(s, pos);
    }
    let k_rgb = tok_tag_rgb();
    if slice_eq(tag, k_rgb.as_slice()) {
        return param_set_item_values_rgb(s, pos);
    }
    let k_texture = tok_tag_texture();
    if slice_eq(tag, k_texture.as_slice()) {
        return param_set_item_values_texture(s, pos);
    }
    let k_blackbody = tok_tag_blackbody();
    if slice_eq(tag, k_blackbody.as_slice()) {
        return param_set_item_values_blackbody(s, pos);
    }
    Err(Error::UnknownParameterType(vstd::slice::slice_to_vec(tag), tag_pos))
}

/// Recognize one parameter item, `Ok(None)` when no item starts here.
pub fn param_set_item(s: &[u8], pos: usize) -> (r: Result<Option<(usize, ParamSetItem)>, Error>)
    requires
        pos <= s@.len(),
    ensures
        (match r {
            Result::Ok(Option::None) => spec_param_set_item(s@, pos as int) == Ok::<
                Option<(int, ParamSetItemV)>,
                ErrV,
            >(None),
            Result::Ok(Option::Some((p2, it))) => spec_param_set_item(s@, pos as int) == Ok::<
                _,
                ErrV,
            >(Some((p2 as int, it@))) && pos < p2 <= s@.len(),
            Result::Err(e) => spec_param_set_item(s@, pos as int) == Err::<
                Option<(int, ParamSetItemV)>,
                _,
            >(e@),
        }),
{
    let p = skip_ws(s, pos);
    if p < s.len() && s[p] == 34 {
        let q = p + 1;
        let t = skip_alnum(s, q);
        if t > q && t < s.len() && (s[t] == 32 || s[t] == 9) {
            let n0 = skip_sp(s, t);
            let n1 = skip_alnum(s, n0);
            if n1 > n0 && n1 < s.len() && s[n1] == 34 {
                let tag = copy_range(s, q, t);
                let name = copy_range(s, n0, n1);
                match param_set_item_values(s, n1 + 1, tag.as_slice(), q) {
                    Ok((p2, v)) => Ok(Some((p2, ParamSetItem { name, value: v }))),
                    Err(e) => Err(e),
                }
            } else {
                Ok(None)
            }
        } else {
            Ok(None)
        }
    } else {
        Ok(None)
    }
}

/// Recognize zero or more parameter items; the items are returned in
/// source order, duplicates included.
pub fn param_set(s: &[u8], pos: usize) -> (r: Result<(usize, Vec<ParamSetItem>), Error>)
    requires
        pos <= s@.len(),
    ensures
        r is Ok <==> spec_param_set(s@, pos as int) is Ok,
        r matches Ok((p2, v)) ==> spec_param_set(s@, pos as int) == Ok::<_, ErrV>(
            (p2 as int, items_view(v@)),
        ) && pos <= p2 <= s@.len(),
        r matches Err(e) ==> spec_param_set(s@, pos as int) == Err::<
            (int, Seq<ParamSetItemV>),
            _,
        >(e@),
{
    let mut acc: Vec<ParamSetItem> = Vec::new();
    let mut cur: usize = pos;
    proof {
        assert(items_view(acc@) =~= Seq::<ParamSetItemV>::empty());
        let sp = spec_param_set(s@, pos as int);
        if sp is Ok {
            assert(items_view(acc@) + sp->Ok_0.1 =~= sp->Ok_0.1);
        }
    }
    loop
        invariant
            pos <= cur <= s@.len(),
            spec_param_set(s@, pos as int) == crate::grammar::prepend_items(
                items_view(acc@),
                spec_param_set(s@, cur as int),
            ),
        decreases s@.len() - cur,
    {
        match param_set_item(s, cur) {
            Err(e) => {
                return Err(e);
            },
            Ok(None) => {
                proof {
                    assert(spec_param_set(s@, cur as int) == Ok::<_, ErrV>(
                        (cur as int, Seq::<ParamSetItemV>::empty()),
                    ));
                    assert(items_view(acc@) + Seq::<ParamSetItemV>::empty() =~= items_view(acc@));
                }
                return Ok((cur, acc));
            },
            Ok(Some((p2, it))) => {
                let ghost prev = acc@;
                let ghost iv = it@;
                acc.push(it);
                proof {
                    let sp2 = spec_param_set(s@, p2 as int);
                    assert(items_view(acc@) =~= items_view(prev).push(iv));
                    if sp2 is Ok {
                        let rest = sp2->Ok_0.1;
                        assert(spec_param_set(s@, cur as int) == Ok::<_, ErrV>(
                            (sp2->Ok_0.0, seq![iv] + rest),
                        ));
                        assert(items_view(prev) + (seq![iv] + rest) =~= items_view(acc@) + rest);
                    }
                }
                cur = p2;
            },
        }
    }
}

/// A pre-world option directive.
#[derive(Debug, Clone, PartialEq)]
pub enum OptionsBlock {
    LookAt(
        Number,
        Number,
        Number,
        Number,
        Number,
        Number,
        Number,
        Number,
        Number,
    ),
    Camera(Vec<u8>, ParamSet),
    Sampler(Vec<u8>, ParamSet),
    Integrator(Vec<u8>, ParamSet),
    Film(Vec<u8>, ParamSet),
}

impl View for OptionsBlock {
    type V = OptV;

    open spec fn view(&self) -> OptV {
        match self {
            OptionsBlock::LookAt(a, b, c, d, e, f, g, h, i) => OptV::LookAt(
                a@,
                b@,
                c@,
                d@,
                e@,
                f@,
                g@,
                h@,
                i@,
            ),
            OptionsBlock::Camera(n, ps) => OptV::Camera(n@, ps@),
            OptionsBlock::Sampler(n, ps) => OptV::Sampler(n@, ps@),
            OptionsBlock::Integrator(n, ps) => OptV::Integrator(n@, ps@),
            OptionsBlock::Film(n, ps) => OptV::Film(n@, ps@),
        }
    }
}

/// A world directive; `Attribute` groups the directives of one
/// `AttributeBegin`/`AttributeEnd` scope.
#[derive(Debug, PartialEq)]
pub enum WorldBlock {
    Attribute(Vec<WorldBlock>),
    LightSource(Vec<u8>, ParamSet),
    Material(Vec<u8>, ParamSet),
    Shape(Vec<u8>, ParamSet),
    Translate(Number, Number, Number),
    Texture(Vec<u8>, Vec<u8>, Vec<u8>, ParamSet),
}

/// The ghost form of a world directive; scopes recurse through their
/// grouped directives.
pub open spec fn world_view(w: WorldBlock) -> WorldV
    decreases w,
{
    match w {
        WorldBlock::Attribute(children) => WorldV::Attribute(worlds_view(children@)),
        WorldBlock::LightSource(n, ps) => WorldV::LightSource(n@, ps@),
        WorldBlock::Material(n, ps) => WorldV::Material(n@, ps@),
        WorldBlock::Shape(n, ps) => WorldV::Shape(n@, ps@),
        WorldBlock::Translate(x, y, z) => WorldV::Translate(x@, y@, z@),
        WorldBlock::Texture(n, t, c, ps) => WorldV::Texture(n@, t@, c@, ps@),
    }
}

/// The ghost form of a sequence of world directives.
pub open spec fn worlds_view(ws: Seq<WorldBlock>) -> Seq<WorldV>
    decreases ws,
{
    Seq::new(
        ws.len(),
        |i: int|
            if 0 <= i < ws.len() {
                world_view(ws[i])
            } else {
                WorldV::Attribute(Seq::empty())
            },
    )
}

impl View for WorldBlock {
    type V = WorldV;

    open spec fn view(&self) -> WorldV {
        world_view(*self)
    }
}

/// The ghost form of a sequence of option directives.
pub open spec fn opts_view(os: Seq<OptionsBlock>) -> Seq<OptV> {
    os.map_values(|o: OptionsBlock| o@)
}

/// A parsed scene: the option directives, then the world directives, each
/// in source order.
#[derive(Debug, PartialEq)]
pub struct Scene {
    pub options: Vec<OptionsBlock>,
    pub world_objects: Vec<WorldBlock>,
}

impl View for Scene {
    type V = SceneV;

    open spec fn view(&self) -> SceneV {
        SceneV { options: opts_view(self.options@), world_objects: worlds_view(self.world_objects@) }
    }
}

/// The bytes from `p` to the end of the buffer are a proper prefix of
/// `kw`.
fn tail_is_prefix(s: &[u8], p: usize, kw: &[u8]) -> (r: bool)
    requires
        p <= s@.len(),
        s@.len() - p < kw@.len(),
    ensures
        r == (s@.subrange(p as int, s@.len() as int) == kw@.subrange(0, s@.len() - p)),
{
    let rem = s.len() - p;
    let mut j: usize = 0;
    while j < rem
        invariant
            0 <= j <= rem,
            rem == s@.len() - p,
            p + rem == s@.len() <= usize::MAX,
            rem < kw@.len(),
            forall|k: int| 0 <= k < j ==> s@[p + k] == kw@[k],
        decreases rem - j,
    {
        if s[p + j] != kw[j] {
            proof {
                assert(s@.subrange(p as int, s@.len() as int)[j as int] != kw@.subrange(
                    0,
                    s@.len() - p,
                )[j as int]);
            }
            return false;
        }
        j = j + 1;
    }
    proof {
        assert(s@.subrange(p as int, s@.len() as int) =~= kw@.subrange(0, s@.len() - p));
    }
    true
}

/// Require the bytes of `kw` at position `p` (no whitespace skipped here).
fn expect_kw(s: &[u8], p: usize, kw: &[u8]) -> (r: Result<usize, Error>)
    requires
        p <= s@.len(),
    ensures
        r is Ok <==> spec_expect_kw(s@, p as int, kw@) is Ok,
        r matches Ok(p2) ==> spec_expect_kw(s@, p as int, kw@) == Ok::<_, ErrV>(p2 as int) && p
            <= p2 <= s@.len(),
        r matches Err(e) ==> spec_expect_kw(s@, p as int, kw@) == Err::<int, _>(e@),
{
    let _n = slice_len(s);
    if match_lit(s, p, kw) {
        return Ok(p + kw.len());
    }
    let rem = s.len() - p;
    if rem < kw.len() && tail_is_prefix(s, p, kw) {
        Err(Error::TruncatedInput(kw.len() - rem))
    } else {
        Err(Error::UnexpectedToken(vstd::slice::slice_to_vec(kw), p))
    }
}

/// Require a quoted name after optional whitespace.
fn expect_name(s: &[u8], pos: usize) -> (r: Result<(usize, Vec<u8>), Error>)
    requires
        pos <= s@.len(),
    ensures
        r is Ok <==> spec_expect_name(s@, pos as int) is Ok,
        r matches Ok((p2, name)) ==> spec_expect_name(s@, pos as int) == Ok::<_, ErrV>(
            (p2 as int, name@),
        ) && pos < p2 <= s@.len(),
        r matches Err(e) ==> spec_expect_name(s@, pos as int) == Err::<(int, Seq<u8>), _>(e@),
{
    let p = skip_ws(s, pos);
    match quoted_name(s, p) {
        Some((p2, name)) => Ok((p2, name)),
        None => {
            if p < s.len() && s[p] == 34 {
                let e = skip_alnum(s, p + 1);
                if e >= s.len() {
                    Err(Error::UnterminatedQuotedString)
                } else {
                    Err(Error::UnexpectedToken(tok_name_label(), p))
                }
            } else {
                Err(Error::UnexpectedToken(tok_name_label(), p))
            }
        },
    }
}

/// Require a numeric literal after optional whitespace.
fn req_number(s: &[u8], pos: usize) -> (r: Result<(usize, Number), Error>)
    requires
        pos <= s@.len(),
    ensures
        r is Ok <==> spec_req_number(s@, pos as int) is Ok,
        r matches Ok((p2, n)) ==> spec_req_number(s@, pos as int) == Ok::<_, ErrV>(
            (p2 as int, n@),
        ) && pos < p2 <= s@.len(),
        r matches Err(e) ==> spec_req_number(s@, pos as int) == Err::<(int, NumberV), _>(e@),
{
    let p = skip_ws(s, pos);
    match number(s, p) {
        Some((p2, n)) => Ok((p2, n)),
        None => Err(Error::MalformedNumericLiteral),
    }
}

/// A quoted name and an optional parameter set, the shape shared by most
/// directives; the items are folded into a set under last-write-wins.
fn named_params(s: &[u8], pos: usize) -> (r: Result<(usize, Vec<u8>, ParamSet), Error>)
    requires
        pos <= s@.len(),
    ensures
        r is Ok <==> spec_named_params(s@, pos as int) is Ok,
        r matches Ok((p2, name, ps)) ==> (spec_named_params(s@, pos as int) matches Ok(t) && t.0
            == p2 as int && t.1 == name@ && ps@ == ps_fold(t.2) && pos <= p2 <= s@.len()),
        r matches Err(e) ==> (spec_named_params(s@, pos as int) matches Err(ev) && ev == e@),
{
    let (p1, name) = match expect_name(s, pos) {
        Ok(v) => v,
        Err(e) => {
            return Err(e);
        },
    };
    let (p2, items) = match param_set(s, p1) {
        Ok(v) => v,
        Err(e) => {
            return Err(e);
        },
    };
    let ps = ParamSet::from_items(items);
    let end = skip_ws(s, p2);
    Ok((end, name, ps))
}

/// Recognize a `LookAt` directive: the keyword and nine numbers (eye,
/// look-at point and up vector).
pub fn look_at(s: &[u8], pos: usize) -> (r: Result<(usize, OptionsBlock), Error>)
    requires
        pos <= s@.len(),
    ensures
        r is Ok <==> spec_look_at(s@, pos as int) is Ok,
        r matches Ok((p2, b)) ==> spec_look_at(s@, pos as int) == Ok::<_, ErrV>((p2 as int, b@))
            && pos <= p2 <= s@.len(),
        r matches Err(e) ==> spec_look_at(s@, pos as int) == Err::<(int, OptV), _>(e@),
{
    let _n = slice_len(s);
    let p = skip_ws(s, pos);
    let kw = tok_look_at();
    if match_lit(s, p, kw.as_slice()) {
        look_at_tail(s, p + 6)
    } else {
        Err(Error::UnexpectedToken(kw, p))
    }
}

/// The nine numbers of a `LookAt` directive.
fn look_at_tail(s: &[u8], pos: usize) -> (r: Result<(usize, OptionsBlock), Error>)
    requires
        pos <= s@.len(),
    ensures
        r is Ok <==> spec_look_at_tail(s@, pos as int) is Ok,
        r matches Ok((p2, b)) ==> spec_look_at_tail(s@, pos as int) == Ok::<_, ErrV>(
            (p2 as int, b@),
        ) && pos <= p2 <= s@.len(),
        r matches Err(e) ==> spec_look_at_tail(s@, pos as int) == Err::<(int, OptV), _>(e@),
{
    let (p1, n1) = match req_number(s, pos) {
        Ok(v) => v,
        Err(e) => {
            return Err(e);
        },
    };
    let (p2, n2) = match req_number(s, p1) {
        Ok(v) => v,
        Err(e) => {
            return Err(e);
        },
    };
    let (p3, n3) = match req_number(s, p2) {
        Ok(v) => v,
        Err(e) => {
            return Err(e);
        },
    };
    let (p4, n4) = match req_number(s, p3) {
        Ok(v) => v,
        Err(e) => {
            return Err(e);
        },
    };
    let (p5, n5) = match req_number(s, p4) {
        Ok(v) => v,
        Err(e) => {
            return Err(e);
        },
    };
    let (p6, n6) = match req_number(s, p5) {
        Ok(v) => v,
        Err(e) => {
            return Err(e);
        },
    };
    let (p7, n7) = match req_number(s, p6) {
        Ok(v) => v,
        Err(e) => {
            return Err(e);
        },
    };
    let (p8, n8) = match req_number(s, p7) {
        Ok(v) => v,
        Err(e) => {
            return Err(e);
        },
    };
    let (p9, n9) = match req_number(s, p8) {
        Ok(v) => v,
        Err(e) => {
            return Err(e);
        },
    };
    let end = skip_ws(s, p9);
    Ok((end, OptionsBlock::LookAt(n1, n2, n3, n4, n5, n6, n7, n8, n9)))
}

/// Recognize a `Camera` directive: the keyword, a quoted name and an
/// optional parameter set.
pub fn camera(s: &[u8], pos: usize) -> (r: Result<(usize, OptionsBlock), Error>)
    requires
        pos <= s@.len(),
    ensures
        r is Ok <==> spec_camera(s@, pos as int) is Ok,
        r matches Ok((p2, b)) ==> spec_camera(s@, pos as int) == Ok::<_, ErrV>((p2 as int, b@))
            && pos <= p2 <= s@.len(),
        r matches Err(e) ==> spec_camera(s@, pos as int) == Err::<(int, OptV), _>(e@),
{
    let _n = slice_len(s);
    let p = skip_ws(s, pos);
    let kw = tok_camera();
    if match_lit(s, p, kw.as_slice()) {
        match named_params(s, p + 6) {
            Ok((p2, name, ps)) => Ok((p2, OptionsBlock::Camera(name, ps))),
            Err(e) => Err(e),
        }
    } else {
        Err(Error::UnexpectedToken(kw, p))
    }
}

/// Recognize a `Sampler` directive: the keyword, a quoted name and an
/// optional parameter set.
pub fn sampler(s: &[u8], pos: usize) -> (r: Result<(usize, OptionsBlock), Error>)
    requires
        pos <= s@.len(),
    ensures
        r is Ok <==> spec_sampler(s@, pos as int) is Ok,
        r matches Ok((p2, b)) ==> spec_sampler(s@, pos as int) == Ok::<_, ErrV>((p2 as int, b@))
            && pos <= p2 <= s@.len(),
        r matches Err(e) ==> spec_sampler(s@, pos as int) == Err::<(int, OptV), _>(e@),
{
    let _n = slice_len(s);
    let p = skip_ws(s, pos);
    let kw = tok_sampler();
    if match_lit(s, p, kw.as_slice()) {
        match named_params(s, p + 7) {
            Ok((p2, name, ps)) => Ok((p2, OptionsBlock::Sampler(name, ps))),
            Err(e) => Err(e),
        }
    } else {
        Err(Error::UnexpectedToken(kw, p))
    }
}

/// Recognize an `Integrator` directive: the keyword, a quoted name and an
/// optional parameter set.
pub fn integrator(s: &[u8], pos: usize) -> (r: Result<(usize, OptionsBlock), Error>)
    requires
        pos <= s@.len(),
    ensures
        r is Ok <==> spec_integrator(s@, pos as int) is Ok,
        r matches Ok((p2, b)) ==> spec_integrator(s@, pos as int) == Ok::<_, ErrV>(
            (p2 as int, b@),
        ) && pos <= p2 <= s@.len(),
        r matches Err(e) ==> spec_integrator(s@, pos as int) == Err::<(int, OptV), _>(e@),
{
    let _n = slice_len(s);
    let p = skip_ws(s, pos);
    let kw = tok_integrator();
    if match_lit(s, p, kw.as_slice()) {
        match named_params(s, p + 10) {
            Ok((p2, name, ps)) => Ok((p2, OptionsBlock::Integrator(name, ps))),
            Err(e) => Err(e),
        }
    } else {
        Err(Error::UnexpectedToken(kw, p))
    }
}

/// Recognize a `Film` directive: the keyword, a quoted name and an
/// optional parameter set.
pub fn film(s: &[u8], pos: usize) -> (r: Result<(usize, OptionsBlock), Error>)
    requires
        pos <= s@.len(),
    ensures
        r is Ok <==> spec_film(s@, pos as int) is Ok,
        r matches Ok((p2, b)) ==> spec_film(s@, pos as int) == Ok::<_, ErrV>((p2 as int, b@))
            && pos <= p2 <= s@.len(),
        r matches Err(e) ==> spec_film(s@, pos as int) == Err::<(int, OptV), _>(e@),
{
    let _n = slice_len(s);
    let p = skip_ws(s, pos);
    let kw = tok_film();
    if match_lit(s, p, kw.as_slice()) {
        match named_params(s, p + 4) {
            Ok((p2, name, ps)) => Ok((p2, OptionsBlock::Film(name, ps))),
            Err(e) => Err(e),
        }
    } else {
        Err(Error::UnexpectedToken(kw, p))
    }
}

/// One option directive at the pre-skipped position `p`, or `Ok(None)`
/// when no option keyword stands there.
#[verifier::rlimit(100)]
fn option_block(s: &[u8], p: usize) -> (r: Result<Option<(usize, OptionsBlock)>, Error>)
    requires
        p <= s@.len(),
    ensures
        (match r {
            Result::Ok(Option::None) => spec_option_block(s@, p as int) is None,
            Result::Ok(Option::Some((p2, b))) => spec_option_block(s@, p as int) == Some(
                Ok::<_, ErrV>((p2 as int, b@)),
            ) && p < p2 <= s@.len(),
            Result::Err(e) => spec_option_block(s@, p as int) == Some(
                Err::<(int, OptV), _>(e@),
            ),
        }),
{
    let _n = slice_len(s);
    let k_film = tok_film();
    if match_lit(s, p, k_film.as_slice()) {
        return match named_params(s, p + 4) {
            Ok((p2, name, ps)) => Ok(Some((p2, OptionsBlock::Film(name, ps)))),
            Err(e) => Err(e),
        };
    }
    let k_look_at = tok_look_at();
    if match_lit(s, p, k_look_at.as_slice()) {
        return match look_at_tail(s, p + 6) {
            Ok((p2, b)) => Ok(Some((p2, b))),
            Err(e) => Err(e),
        };
    }
    let k_camera = tok_camera();
    if match_lit(s, p, k_camera.as_slice()) {
        return match named_params(s, p + 6) {
            Ok((p2, name, ps)) => Ok(Some((p2, OptionsBlock::Camera(name, ps)))),
            Err(e) => Err(e),
        };
    }
    let k_sampler = tok_sampler();
    if match_lit(s, p, k_sampler.as_slice()) {
        return match named_params(s, p + 7) {
            Ok((p2, name, ps)) => Ok(Some((p2, OptionsBlock::Sampler(name, ps)))),
            Err(e) => Err(e),
        };
    }
    let k_integrator = tok_integrator();
    if match_lit(s, p, k_integrator.as_slice()) {
        return match named_params(s, p + 10) {
            Ok((p2, name, ps)) => Ok(Some((p2, OptionsBlock::Integrator(name, ps)))),
            Err(e) => Err(e),
        };
    }
    Ok(None)
}

/// Zero or more option directives, stopping before the first token that
/// is no option keyword.
fn option_blocks(s: &[u8], pos: usize) -> (r: Result<(usize, Vec<OptionsBlock>), Error>)
    requires
        pos <= s@.len(),
    ensures
        r is Ok <==> spec_option_blocks(s@, pos as int) is Ok,
        r matches Ok((p2, v)) ==> spec_option_blocks(s@, pos as int) == Ok::<_, ErrV>(
            (p2 as int, opts_view(v@)),
        ) && pos <= p2 <= s@.len(),
        r matches Err(e) ==> spec_option_blocks(s@, pos as int) == Err::<(int, Seq<OptV>), _>(
            e@,
        ),
{
    let mut acc: Vec<OptionsBlock> = Vec::new();
    let mut cur: usize = pos;
    proof {
        assert(opts_view(acc@) =~= Seq::<OptV>::empty());
        let sp = spec_option_blocks(s@, pos as int);
        if sp is Ok {
            assert(opts_view(acc@) + sp->Ok_0.1 =~= sp->Ok_0.1);
        }
    }
    loop
        invariant
            pos <= cur <= s@.len(),
            spec_option_blocks(s@, pos as int) == prepend_opts(
                opts_view(acc@),
                spec_option_blocks(s@, cur as int),
            ),
        decreases s@.len() - cur,
    {
        let p = skip_ws(s, cur);
        proof {
            assert(ws_end_g(s@, cur as int) == p as int);
        }
        match option_block(s, p) {
            Err(e) => {
                return Err(e);
            },
            Ok(None) => {
                proof {
                    assert(spec_option_blocks(s@, cur as int) == Ok::<_, ErrV>(
                        (cur as int, Seq::<OptV>::empty()),
                    ));
                    assert(opts_view(acc@) + Seq::<OptV>::empty() =~= opts_view(acc@));
                }
                return Ok((cur, acc));
            },
            Ok(Some((p2, blk))) => {
                let ghost prev = acc@;
                let ghost bv = blk@;
                acc.push(blk);
                proof {
                    let sp2 = spec_option_blocks(s@, p2 as int);
                    assert(opts_view(acc@) =~= opts_view(prev).push(bv));
                    if sp2 is Ok {
                        let rest = sp2->Ok_0.1;
                        assert(spec_option_blocks(s@, cur as int) == Ok::<_, ErrV>(
                            (sp2->Ok_0.0, seq![bv] + rest),
                        ));
                        assert(opts_view(prev) + (seq![bv] + rest) =~= opts_view(acc@) + rest);
                    }
                }
                cur = p2;
            },
        }
    }
}

/// Recognize a `Translate` directive: the keyword and three numbers.
pub fn translate(s: &[u8], pos: usize) -> (r: Result<(usize, WorldBlock), Error>)
    requires
        pos <= s@.len(),
    ensures
        r is Ok <==> spec_translate(s@, pos as int) is Ok,
        r matches Ok((p2, w)) ==> spec_translate(s@, pos as int) == Ok::<_, ErrV>(
            (p2 as int, w@),
        ) && pos <= p2 <= s@.len(),
        r matches Err(e) ==> spec_translate(s@, pos as int) == Err::<(int, WorldV), _>(e@),
{
    let _n = slice_len(s);
    let p = skip_ws(s, pos);
    let kw = tok_translate();
    if match_lit(s, p, kw.as_slice()) {
        translate_tail(s, p + 9)
    } else {
        Err(Error::UnexpectedToken(kw, p))
    }
}

/// The three numbers of a `Translate` directive.
fn translate_tail(s: &[u8], pos: usize) -> (r: Result<(usize, WorldBlock), Error>)
    requires
        pos <= s@.len(),
    ensures
        r is Ok <==> spec_translate_tail(s@, pos as int) is Ok,
        r matches Ok((p2, w)) ==> spec_translate_tail(s@, pos as int) == Ok::<_, ErrV>(
            (p2 as int, w@),
        ) && pos <= p2 <= s@.len(),
        r matches Err(e) ==> spec_translate_tail(s@, pos as int) == Err::<(int, WorldV), _>(e@),
{
    let (p1, n1) = match req_number(s, pos) {
        Ok(v) => v,
        Err(e) => {
            return Err(e);
        },
    };
    let (p2, n2) = match req_number(s, p1) {
        Ok(v) => v,
        Err(e) => {
            return Err(e);
        },
    };
    let (p3, n3) = match req_number(s, p2) {
        Ok(v) => v,
        Err(e) => {
            return Err(e);
        },
    };
    let end = skip_ws(s, p3);
    Ok((end, WorldBlock::Translate(n1, n2, n3)))
}

/// The three names and optional parameter set of a `Texture` directive.
fn texture_tail(s: &[u8], pos: usize) -> (r: Result<(usize, WorldBlock), Error>)
    requires
        pos <= s@.len(),
    ensures
        r is Ok <==> spec_texture_tail(s@, pos as int) is Ok,
        r matches Ok((p2, w)) ==> spec_texture_tail(s@, pos as int) == Ok::<_, ErrV>(
            (p2 as int, w@),
        ) && pos <= p2 <= s@.len(),
        r matches Err(e) ==> spec_texture_tail(s@, pos as int) == Err::<(int, WorldV), _>(e@),
{
    let (p1, name) = match expect_name(s, pos) {
        Ok(v) => v,
        Err(e) => {
            return Err(e);
        },
    };
    let (p2, typ) = match expect_name(s, p1) {
        Ok(v) => v,
        Err(e) => {
            return Err(e);
        },
    };
    let (p3, class) = match expect_name(s, p2) {
        Ok(v) => v,
        Err(e) => {
            return Err(e);
        },
    };
    let (p4, items) = match param_set(s, p3) {
        Ok(v) => v,
        Err(e) => {
            return Err(e);
        },
    };
    let ps = ParamSet::from_items(items);
    let end = skip_ws(s, p4);
    Ok((end, WorldBlock::Texture(name, typ, class, ps)))
}

/// Recognize a `Texture` directive: the keyword, the texture's name, type
/// and class, and an optional parameter set.
pub fn texture(s: &[u8], pos: usize) -> (r: Result<(usize, WorldBlock), Error>)
    requires
        pos <= s@.len(),
    ensures
        r is Ok <==> spec_texture(s@, pos as int) is Ok,
        r matches Ok((p2, w)) ==> spec_texture(s@, pos as int) == Ok::<_, ErrV>((p2 as int, w@))
            && pos <= p2 <= s@.len(),
        r matches Err(e) ==> spec_texture(s@, pos as int) == Err::<(int, WorldV), _>(e@),
{
    let _n = slice_len(s);
    let p = skip_ws(s, pos);
    let kw = tok_texture();
    if match_lit(s, p, kw.as_slice()) {
        texture_tail(s, p + 7)
    } else {
        Err(Error::UnexpectedToken(kw, p))
    }
}

/// Recognize a `LightSource` directive: the keyword, a quoted name and an
/// optional parameter set.
pub fn light_source(s: &[u8], pos: usize) -> (r: Result<(usize, WorldBlock), Error>)
    requires
        pos <= s@.len(),
    ensures
        r is Ok <==> spec_light_source(s@, pos as int) is Ok,
        r matches Ok((p2, w)) ==> spec_light_source(s@, pos as int) == Ok::<_, ErrV>(
            (p2 as int, w@),
        ) && pos <= p2 <= s@.len(),
        r matches Err(e) ==> spec_light_source(s@, pos as int) == Err::<(int, WorldV), _>(e@),
{
    let _n = slice_len(s);
    let p = skip_ws(s, pos);
    let kw = tok_light_source();
    if match_lit(s, p, kw.as_slice()) {
        match named_params(s, p + 11) {
            Ok((p2, name, ps)) => Ok((p2, WorldBlock::LightSource(name, ps))),
            Err(e) => Err(e),
        }
    } else {
        Err(Error::UnexpectedToken(kw, p))
    }
}

/// Recognize a `Material` directive: the keyword, a quoted name and an
/// optional parameter set.
pub fn material(s: &[u8], pos: usize) -> (r: Result<(usize, WorldBlock), Error>)
    requires
        pos <= s@.len(),
    ensures
        r is Ok <==> spec_material(s@, pos as int) is Ok,
        r matches Ok((p2, w)) ==> spec_material(s@, pos as int) == Ok::<_, ErrV>(
            (p2 as int, w@),
        ) && pos <= p2 <= s@.len(),
        r matches Err(e) ==> spec_material(s@, pos as int) == Err::<(int, WorldV), _>(e@),
{
    let _n = slice_len(s);
    let p = skip_ws(s, pos);
    let kw = tok_material();
    if match_lit(s, p, kw.as_slice()) {
        match named_params(s, p + 8) {
            Ok((p2, name, ps)) => Ok((p2, WorldBlock::Material(name, ps))),
            Err(e) => Err(e),
        }
    } else {
        Err(Error::UnexpectedToken(kw, p))
    }
}

/// Recognize a `Shape` directive: the keyword, a quoted name and an
/// optional parameter set.
pub fn shape(s: &[u8], pos: usize) -> (r: Result<(usize, WorldBlock), Error>)
    requires
        pos <= s@.len(),
    ensures
        r is Ok <==> spec_shape(s@, pos as int) is Ok,
        r matches Ok((p2, w)) ==> spec_shape(s@, pos as int) == Ok::<_, ErrV>((p2 as int, w@))
            && pos <= p2 <= s@.len(),
        r matches Err(e) ==> spec_shape(s@, pos as int) == Err::<(int, WorldV), _>(e@),
{
    let _n = slice_len(s);
    let p = skip_ws(s, pos);
    let kw = tok_shape();
    if match_lit(s, p, kw.as_slice()) {
        match named_params(s, p + 5) {
            Ok((p2, name, ps)) => Ok((p2, WorldBlock::Shape(name, ps))),
            Err(e) => Err(e),
        }
    } else {
        Err(Error::UnexpectedToken(kw, p))
    }
}

/// Recognize an attribute scope: `AttributeBegin`, one or more world
/// directives, `AttributeEnd`.
#[verifier::rlimit(100)]
pub fn attribute(s: &[u8], pos: usize) -> (r: Result<(usize, WorldBlock), Error>)
    requires
        pos <= s@.len(),
    ensures
        r is Ok <==> spec_attribute(s@, pos as int) is Ok,
        r matches Ok((p2, w)) ==> spec_attribute(s@, pos as int) == Ok::<_, ErrV>(
            (p2 as int, w@),
        ) && pos <= p2 <= s@.len(),
        r matches Err(e) ==> spec_attribute(s@, pos as int) == Err::<(int, WorldV), _>(e@),
    decreases s@.len() - pos, 3int,
{
    let _n = slice_len(s);
    let p = skip_ws(s, pos);
    let kw = tok_attribute_begin();
    if match_lit(s, p, kw.as_slice()) {
        proof {
            assert(spec_attribute(s@, pos as int) == spec_attribute_tail(s@, p + 14 as int));
        }
        attribute_tail(s, p + 14)
    } else {
        proof {
            assert(spec_attribute(s@, pos as int) == Err::<(int, WorldV), ErrV>(
                ErrV::UnexpectedToken(crate::lit::lit_attribute_begin(), p as int),
            ));
        }
        Err(Error::UnexpectedToken(kw, p))
    }
}

/// The body and closing of an attribute scope, after `AttributeBegin`.
#[verifier::rlimit(100)]
fn attribute_tail(s: &[u8], pos: usize) -> (r: Result<(usize, WorldBlock), Error>)
    requires
        pos <= s@.len(),
    ensures
        r is Ok <==> spec_attribute_tail(s@, pos as int) is Ok,
        r matches Ok((p2, w)) ==> spec_attribute_tail(s@, pos as int) == Ok::<_, ErrV>(
            (p2 as int, w@),
        ) && pos <= p2 <= s@.len(),
        r matches Err(e) ==> spec_attribute_tail(s@, pos as int) == Err::<(int, WorldV), _>(e@),
    decreases s@.len() - pos, 2int,
{
    let _n = slice_len(s);
    let ghost sat = spec_attribute_tail(s@, pos as int);
    let (p2, items) = match world_objects(s, pos) {
        Ok(v) => v,
        Err(e) => {
            proof {
                assert(sat == Err::<(int, WorldV), ErrV>(e@));
            }
            return Err(e);
        },
    };
    proof {
        assert(worlds_view(items@).len() == items@.len());
    }
    if items.len() == 0 {
        let q0 = skip_ws(s, pos);
        proof {
            assert(sat == Err::<(int, WorldV), ErrV>(
                ErrV::UnexpectedToken(crate::lit::lit_directive_label(), q0 as int),
            ));
        }
        return Err(Error::UnexpectedToken(tok_directive_label(), q0));
    }
    let q = skip_ws(s, p2);
    let kw = tok_attribute_end();
    if match_lit(s, q, kw.as_slice()) {
        let end = skip_ws(s, q + 12);
        let w = WorldBlock::Attribute(items);
        proof {
            assert(sat == Ok::<(int, WorldV), ErrV>((end as int, w@)));
        }
        Ok((end, w))
    } else {
        proof {
            assert(sat == Err::<(int, WorldV), ErrV>(ErrV::UnbalancedAttributeScope));
        }
        Err(Error::UnbalancedAttributeScope)
    }
}

/// One world directive at the pre-skipped position `p`, or `Ok(None)` when
/// no world keyword stands there.
#[verifier::rlimit(100)]
fn world_object(s: &[u8], p: usize) -> (r: Result<Option<(usize, WorldBlock)>, Error>)
    requires
        p <= s@.len(),
    ensures
        (match r {
            Result::Ok(Option::None) => spec_world_object(s@, p as int) is None,
            Result::Ok(Option::Some((p2, w))) => spec_world_object(s@, p as int) == Some(
                Ok::<_, ErrV>((p2 as int, w@)),
            ) && p < p2 <= s@.len(),
            Result::Err(e) => spec_world_object(s@, p as int) == Some(
                Err::<(int, WorldV), _>(e@),
            ),
        }),
    decreases s@.len() - p, 0int,
{
    let _n = slice_len(s);
    let k_shape = tok_shape();
    if match_lit(s, p, k_shape.as_slice()) {
        return match named_params(s, p + 5) {
            Ok((p2, name, ps)) => Ok(Some((p2, WorldBlock::Shape(name, ps)))),
            Err(e) => Err(e),
        };
    }
    let k_texture = tok_texture();
    if match_lit(s, p, k_texture.as_slice()) {
        return match texture_tail(s, p + 7) {
            Ok((p2, w)) => Ok(Some((p2, w))),
            Err(e) => Err(e),
        };
    }
    let k_material = tok_material();
    if match_lit(s, p, k_material.as_slice()) {
        return match named_params(s, p + 8) {
            Ok((p2, name, ps)) => Ok(Some((p2, WorldBlock::Material(name, ps)))),
            Err(e) => Err(e),
        };
    }
    let k_attribute_begin = tok_attribute_begin();
    if match_lit(s, p, k_attribute_begin.as_slice()) {
        return match attribute_tail(s, p + 14) {
            Ok((p2, w)) => Ok(Some((p2, w))),
            Err(e) => Err(e),
        };
    }
    let k_translate = tok_translate();
    if match_lit(s, p, k_translate.as_slice()) {
        return match translate_tail(s, p + 9) {
            Ok((p2, w)) => Ok(Some((p2, w))),
            Err(e) => Err(e),
        };
    }
    let k_light_source = tok_light_source();
    if match_lit(s, p, k_light_source.as_slice()) {
        return match named_params(s, p + 11) {
            Ok((p2, name, ps)) => Ok(Some((p2, WorldBlock::LightSource(name, ps)))),
            Err(e) => Err(e),
        };
    }
    Ok(None)
}

/// Zero or more world directives, stopping before the first token that is
/// no world keyword; callers require at least one.
fn world_objects(s: &[u8], pos: usize) -> (r: Result<(usize, Vec<WorldBlock>), Error>)
    requires
        pos <= s@.len(),
    ensures
        r is Ok <==> spec_world_objects(s@, pos as int) is Ok,
        r matches Ok((p2, v)) ==> spec_world_objects(s@, pos as int) == Ok::<_, ErrV>(
            (p2 as int, worlds_view(v@)),
        ) && pos <= p2 <= s@.len(),
        r matches Err(e) ==> spec_world_objects(s@, pos as int) == Err::<(int, Seq<WorldV>), _>(
            e@,
        ),
    decreases s@.len() - pos, 1int,
{
    let mut acc: Vec<WorldBlock> = Vec::new();
    let mut cur: usize = pos;
    proof {
        assert(worlds_view(acc@) =~= Seq::<WorldV>::empty());
        let sp = spec_world_objects(s@, pos as int);
        if sp is Ok {
            assert(worlds_view(acc@) + sp->Ok_0.1 =~= sp->Ok_0.1);
        }
    }
    loop
        invariant
            pos <= cur <= s@.len(),
            spec_world_objects(s@, pos as int) == prepend_worlds(
                worlds_view(acc@),
                spec_world_objects(s@, cur as int),
            ),
        decreases s@.len() - cur,
    {
        let p = skip_ws(s, cur);
        proof {
            assert(ws_end_g(s@, cur as int) == p as int);
        }
        match world_object(s, p) {
            Err(e) => {
                return Err(e);
            },
            Ok(None) => {
                proof {
                    assert(spec_world_objects(s@, cur as int) == Ok::<_, ErrV>(
                        (cur as int, Seq::<WorldV>::empty()),
                    ));
                    assert(worlds_view(acc@) + Seq::<WorldV>::empty() =~= worlds_view(acc@));
                }
                return Ok((cur, acc));
            },
            Ok(Some((p2, w))) => {
                let ghost prev = acc@;
                let ghost wv = w@;
                acc.push(w);
                proof {
                    let sp2 = spec_world_objects(s@, p2 as int);
                    assert(worlds_view(acc@) =~= worlds_view(prev).push(wv));
                    if sp2 is Ok {
                        let rest = sp2->Ok_0.1;
                        assert(spec_world_objects(s@, cur as int) == Ok::<_, ErrV>(
                            (sp2->Ok_0.0, seq![wv] + rest),
                        ));
                        assert(worlds_view(prev) + (seq![wv] + rest) =~= worlds_view(acc@)
                            + rest);
                    }
                }
                cur = p2;
            },
        }
    }
}

/// Parse a whole scene buffer: strip comments, recognize the option
/// directives, `WorldBegin`, the world directives and `WorldEnd`, and
/// require that nothing but whitespace follows. No partial scene is ever
/// returned: the result is the whole parsed scene or the first failure.
pub fn parse_scene(input: &[u8]) -> (r: Result<Scene, Error>)
    ensures
        r is Ok <==> spec_parse(input@) is Ok,
        r matches Ok(sc) ==> spec_parse(input@) == Ok::<_, ErrV>(sc@),
        r matches Err(e) ==> spec_parse(input@) == Err::<SceneV, _>(e@),
{
    let t = strip_comment(input);
    let ts = t.as_slice();
    let (p1, opts) = match option_blocks(ts, 0) {
        Ok(v) => v,
        Err(e) => {
            return Err(e);
        },
    };
    let q = skip_ws(ts, p1);
    let k_world_begin = tok_world_begin();
    let p2 = match expect_kw(ts, q, k_world_begin.as_slice()) {
        Ok(v) => v,
        Err(e) => {
            return Err(e);
        },
    };
    let (p3, objs) = match world_objects(ts, p2) {
        Ok(v) => v,
        Err(e) => {
            return Err(e);
        },
    };
    if objs.len() == 0 {
        let q0 = skip_ws(ts, p2);
        return Err(Error::UnexpectedToken(tok_directive_label(), q0));
    }
    let rr = skip_ws(ts, p3);
    let k_attribute_end = tok_attribute_end();
    if match_lit(ts, rr, k_attribute_end.as_slice()) {
        return Err(Error::UnbalancedAttributeScope);
    }
    let k_world_end = tok_world_end();
    let p4 = match expect_kw(ts, rr, k_world_end.as_slice()) {
        Ok(v) => v,
        Err(e) => {
            return Err(e);
        },
    };
    let done = skip_ws(ts, p4);
    if done == ts.len() {
        Ok(Scene { options: opts, world_objects: objs })
    } else {
        Err(Error::UnexpectedToken(tok_eoi_label(), done))
    }
}

} // verus!
