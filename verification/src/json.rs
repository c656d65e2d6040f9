//! A JSON document tree, its textual rendering, and a verified parser.
//!
//! Text is modelled as UTF-8 bytes throughout: string contents are held as
//! the unescaped bytes, and numbers keep their source token so no precision
//! is lost.

use crate::text::{bytes_eq_str, spec_str_bytes};
use vstd::prelude::*;
use vstd::utf8::{encode_scalar, is_scalar};

verus! {

/// One JSON value, as held and produced by executable code.
#[derive(Debug, PartialEq, Eq)]
pub enum JsonValue {
    Null,
    Bool(bool),
    Num(Vec<u8>),
    Str(Vec<u8>),
    Arr(Vec<JsonValue>),
    Obj(Vec<(Vec<u8>, JsonValue)>),
}

/// The mathematical counterpart of [`JsonValue`], used in specifications.
pub enum SpecJson {
    Null,
    Bool(bool),
    Num(Seq<u8>),
    Str(Seq<u8>),
    Arr(Seq<SpecJson>),
    Obj(Seq<(Seq<u8>, SpecJson)>),
}

pub open spec fn spec_view_json(v: JsonValue) -> SpecJson
    decreases v,
{
    match v {
        JsonValue::Null => SpecJson::Null,
        JsonValue::Bool(b) => SpecJson::Bool(b),
        JsonValue::Num(tok) => SpecJson::Num(tok@),
        JsonValue::Str(s) => SpecJson::Str(s@),
        JsonValue::Arr(elems) => SpecJson::Arr(spec_view_list(elems@)),
        JsonValue::Obj(members) => SpecJson::Obj(spec_view_members(members@)),
    }
}

pub open spec fn spec_view_list(s: Seq<JsonValue>) -> Seq<SpecJson>
    decreases s,
{
    if s.len() == 0 {
        Seq::<SpecJson>::empty()
    } else {
        seq![spec_view_json(s[0])] + spec_view_list(s.drop_first())
    }
}

pub open spec fn spec_view_members(s: Seq<(Vec<u8>, JsonValue)>) -> Seq<(Seq<u8>, SpecJson)>
    decreases s,
{
    if s.len() == 0 {
        Seq::<(Seq<u8>, SpecJson)>::empty()
    } else {
        seq![(s[0].0@, spec_view_json(s[0].1))] + spec_view_members(s.drop_first())
    }
}

pub proof fn lemma_view_list_index(s: Seq<JsonValue>)
    ensures
        spec_view_list(s).len() == s.len(),
        forall|i: int| 0 <= i < s.len() ==> spec_view_list(s)[i] == spec_view_json(s[i]),
    decreases s.len(),
{
    if s.len() > 0 {
        lemma_view_list_index(s.drop_first());
    }
}

pub proof fn lemma_view_members_index(s: Seq<(Vec<u8>, JsonValue)>)
    ensures
        spec_view_members(s).len() == s.len(),
        forall|i: int|
            0 <= i < s.len() ==> spec_view_members(s)[i] == (s[i].0@, spec_view_json(s[i].1)),
    decreases s.len(),
{
    if s.len() > 0 {
        lemma_view_members_index(s.drop_first());
    }
}

impl View for JsonValue {
    type V = SpecJson;

    open spec fn view(&self) -> SpecJson {
        spec_view_json(*self)
    }
}

// ---------------------------------------------------------------------------
// Rendering a value as compact JSON text (no added whitespace).
// ---------------------------------------------------------------------------

/// The escaped form of one byte of string content: quote and backslash get a
/// backslash escape, control bytes a `\u00XX` escape, and every other byte
/// stands for itself.
pub open spec fn spec_esc_byte(b: u8) -> Seq<u8> {
    if b == 0x22 {
        seq![0x5cu8, 0x22u8]
    } else if b == 0x5c {
        seq![0x5cu8, 0x5cu8]
    } else if b < 0x20 {
        seq![0x5cu8, 0x75u8, 0x30u8, 0x30u8, spec_hex_digit((b / 16) as u8), spec_hex_digit((b % 16) as u8)]
    } else {
        seq![b]
    }
}

/// The lower-case hex digit for a value below 16.
pub open spec fn spec_hex_digit(v: u8) -> u8 {
    if v < 10 {
        (0x30 + v) as u8
    } else {
        (0x61 + (v - 10)) as u8
    }
}

/// The escaped form of a whole string content.
pub open spec fn spec_esc(s: Seq<u8>) -> Seq<u8>
    decreases s.len(),
{
    if s.len() == 0 {
        Seq::<u8>::empty()
    } else {
        spec_esc(s.drop_last()) + spec_esc_byte(s.last())
    }
}

/// Compact rendering of a JSON value.
pub open spec fn spec_ser(v: SpecJson) -> Seq<u8>
    decreases v,
{
    match v {
        SpecJson::Null => seq![0x6eu8, 0x75u8, 0x6cu8, 0x6cu8],
        SpecJson::Bool(b) => if b {
            seq![0x74u8, 0x72u8, 0x75u8, 0x65u8]
        } else {
            seq![0x66u8, 0x61u8, 0x6cu8, 0x73u8, 0x65u8]
        },
        SpecJson::Num(tok) => tok,
        SpecJson::Str(s) => seq![0x22u8] + spec_esc(s) + seq![0x22u8],
        SpecJson::Arr(elems) => seq![0x5bu8] + spec_ser_elems(elems) + seq![0x5du8],
        SpecJson::Obj(members) => seq![0x7bu8] + spec_ser_members(members) + seq![0x7du8],
    }
}

pub open spec fn spec_ser_elems(s: Seq<SpecJson>) -> Seq<u8>
    decreases s,
{
    if s.len() == 0 {
        Seq::<u8>::empty()
    } else if s.len() == 1 {
        spec_ser(s[0])
    } else {
        spec_ser_elems(s.drop_last()) + seq![0x2cu8] + spec_ser(s.last())
    }
}

/// Rendering of one object member: quoted escaped key, colon, value.
pub open spec fn spec_ser_member(m: (Seq<u8>, SpecJson)) -> Seq<u8>
    decreases m,
{
    seq![0x22u8] + spec_esc(m.0) + seq![0x22u8, 0x3au8] + spec_ser(m.1)
}

pub open spec fn spec_ser_members(s: Seq<(Seq<u8>, SpecJson)>) -> Seq<u8>
    decreases s,
{
    if s.len() == 0 {
        Seq::<u8>::empty()
    } else if s.len() == 1 {
        spec_ser_member(s[0])
    } else {
        spec_ser_members(s.drop_last()) + seq![0x2cu8] + spec_ser_member(s.last())
    }
}

fn hex_digit(v: u8) -> (r: u8)
    requires
        v < 16,
    ensures
        r == spec_hex_digit(v),
{
    if v < 10 {
        0x30 + v
    } else {
        0x61 + (v - 10)
    }
}

/// Appends the escaped form of one string-content byte.
fn esc_byte_push(out: &mut Vec<u8>, b: u8)
    ensures
        final(out)@ == old(out)@ + spec_esc_byte(b),
{
    if b == 0x22 {
        out.push(0x5c);
        out.push(0x22);
    } else if b == 0x5c {
        out.push(0x5c);
        out.push(0x5c);
    } else if b < 0x20 {
        out.push(0x5c);
        out.push(0x75);
        out.push(0x30);
        out.push(0x30);
        out.push(hex_digit(b / 16));
        out.push(hex_digit(b % 16));
    } else {
        out.push(b);
    }
    assert(final(out)@ =~= old(out)@ + spec_esc_byte(b));
}

/// Appends the escaped form of a whole string content.
fn esc_push(out: &mut Vec<u8>, s: &Vec<u8>)
    ensures
        final(out)@ == old(out)@ + spec_esc(s@),
{
    let n = s.len();
    let mut i: usize = 0;
    while i < n
        invariant
            i <= n,
            n == s@.len(),
            out@ == old(out)@ + spec_esc(s@.take(i as int)),
        decreases n - i,
    {
        assert(s@.take(i as int + 1).drop_last() =~= s@.take(i as int));
        assert(s@.take(i as int + 1).last() == s@[i as int]);
        esc_byte_push(out, s[i]);
        i = i + 1;
    }
    assert(s@.take(n as int) =~= s@);
}

/// Appends the compact rendering of a JSON value.
pub fn ser_push(out: &mut Vec<u8>, v: &JsonValue)
    ensures
        final(out)@ == old(out)@ + spec_ser(v@),
    decreases v,
{
    match v {
        JsonValue::Null => {
            out.push(0x6e);
            out.push(0x75);
            out.push(0x6c);
            out.push(0x6c);
            assert(final(out)@ =~= old(out)@ + spec_ser(v@));
        },
        JsonValue::Bool(b) => {
            if *b {
                out.push(0x74);
                out.push(0x72);
                out.push(0x75);
                out.push(0x65);
            } else {
                out.push(0x66);
                out.push(0x61);
                out.push(0x6c);
                out.push(0x73);
                out.push(0x65);
            }
            assert(final(out)@ =~= old(out)@ + spec_ser(v@));
        },
        JsonValue::Num(tok) => {
            let n = tok.len();
            let mut i: usize = 0;
            while i < n
                invariant
                    i <= n,
                    n == tok@.len(),
                    out@ == old(out)@ + tok@.take(i as int),
                decreases n - i,
            {
                out.push(tok[i]);
                assert(out@ =~= old(out)@ + tok@.take(i as int + 1));
                i = i + 1;
            }
            assert(tok@.take(n as int) =~= tok@);
        },
        JsonValue::Str(s) => {
            out.push(0x22);
            esc_push(out, s);
            out.push(0x22);
            assert(final(out)@ =~= old(out)@ + spec_ser(v@));
        },
        JsonValue::Arr(elems) => {
            out.push(0x5b);
            let n = elems.len();
            let mut i: usize = 0;
            while i < n
                invariant
                    i <= n,
                    n == elems@.len(),
                    v == JsonValue::Arr(*elems),
                    out@ == old(out)@ + seq![0x5bu8] + spec_ser_elems(spec_view_list(
                        elems@,
                    ).take(i as int)),
                decreases n - i,
            {
                if i > 0 {
                    out.push(0x2c);
                }
                proof {
                    assert(decreases_to!(*v => v->Arr_0));
                    assert(decreases_to!(v->Arr_0 => v->Arr_0[i as int]));
                    assert(v->Arr_0 == *elems);
                }
                ser_push(out, &elems[i]);
                proof {
                    let vl = spec_view_list(elems@);
                    lemma_view_list_index(elems@);
                    assert(vl.take(i as int + 1).drop_last() =~= vl.take(i as int));
                    assert(vl.take(i as int + 1).last() == vl[i as int]);
                    assert(vl[i as int] == elems@[i as int]@);
                    assert(out@ =~= old(out)@ + seq![0x5bu8] + spec_ser_elems(
                        vl.take(i as int + 1),
                    ));
                }
                i = i + 1;
            }
            out.push(0x5d);
            proof {
                lemma_view_list_index(elems@);
                assert(spec_view_list(elems@).take(n as int) =~= spec_view_list(elems@));
                assert(final(out)@ =~= old(out)@ + spec_ser(v@));
            }
        },
        JsonValue::Obj(members) => {
            out.push(0x7b);
            let n = members.len();
            let mut i: usize = 0;
            while i < n
                invariant
                    i <= n,
                    n == members@.len(),
                    v == JsonValue::Obj(*members),
                    out@ == old(out)@ + seq![0x7bu8] + spec_ser_members(spec_view_members(
                        members@,
                    ).take(i as int)),
                decreases n - i,
            {
                if i > 0 {
                    out.push(0x2c);
                }
                out.push(0x22);
                esc_push(out, &members[i].0);
                out.push(0x22);
                out.push(0x3a);
                proof {
                    assert(decreases_to!(*v => v->Obj_0));
                    assert(decreases_to!(v->Obj_0 => v->Obj_0[i as int]));
                    assert(decreases_to!(v->Obj_0[i as int] => v->Obj_0[i as int].1));
                    assert(v->Obj_0 == *members);
                }
                ser_push(out, &members[i].1);
                proof {
                    let vm = spec_view_members(members@);
                    lemma_view_members_index(members@);
                    assert(vm.take(i as int + 1).drop_last() =~= vm.take(i as int));
                    assert(vm.take(i as int + 1).last() == vm[i as int]);
                    assert(vm[i as int] == (members@[i as int].0@, members@[i as int].1@));
                    assert(spec_ser_member(vm[i as int]) == seq![0x22u8] + spec_esc(
                        members@[i as int].0@,
                    ) + seq![0x22u8, 0x3au8] + spec_ser(members@[i as int].1@));
                    assert(out@ =~= old(out)@ + seq![0x7bu8] + spec_ser_members(
                        vm.take(i as int + 1),
                    ));
                }
                i = i + 1;
            }
            out.push(0x7d);
            proof {
                lemma_view_members_index(members@);
                assert(spec_view_members(members@).take(n as int) =~= spec_view_members(members@));
                assert(final(out)@ =~= old(out)@ + spec_ser(v@));
            }
        },
    }
}

/// The compact rendering of a JSON value as a fresh byte vector.
pub fn ser_value(v: &JsonValue) -> (out: Vec<u8>)
    ensures
        out@ == spec_ser(v@),
{
    let mut out: Vec<u8> = Vec::new();
    ser_push(&mut out, v);
    out
}

// ---------------------------------------------------------------------------
// Parsing JSON text. The spec functions below are a deterministic recursive
// descent over the grammar; the executable parser mirrors them exactly and
// its contract says it returns precisely what they define.
// ---------------------------------------------------------------------------

/// JSON insignificant whitespace.
pub open spec fn is_ws(b: u8) -> bool {
    b == 0x20 || b == 0x09 || b == 0x0a || b == 0x0d
}

pub open spec fn is_digit(b: u8) -> bool {
    0x30 <= b <= 0x39
}

/// The first index at or after `i` holding a non-whitespace byte (or the end).
pub open spec fn spec_skip_ws(s: Seq<u8>, i: int) -> int
    decreases s.len() - i,
{
    if 0 <= i < s.len() && is_ws(s[i]) {
        spec_skip_ws(s, i + 1)
    } else {
        i
    }
}

pub proof fn lemma_skip_ws_bounds(s: Seq<u8>, i: int)
    requires
        0 <= i <= s.len(),
    ensures
        i <= spec_skip_ws(s, i) <= s.len(),
        spec_skip_ws(s, i) < s.len() ==> !is_ws(s[spec_skip_ws(s, i)]),
        forall|k: int| i <= k < spec_skip_ws(s, i) ==> is_ws(s[k]),
    decreases s.len() - i,
{
    if i < s.len() && is_ws(s[i]) {
        lemma_skip_ws_bounds(s, i + 1);
    }
}

/// The first index at or after `i` holding a non-digit byte (or the end).
pub open spec fn spec_skip_digits(s: Seq<u8>, i: int) -> int
    decreases s.len() - i,
{
    if 0 <= i < s.len() && is_digit(s[i]) {
        spec_skip_digits(s, i + 1)
    } else {
        i
    }
}

/// The numeric value of one hex digit (either case).
pub open spec fn spec_hex_val(b: u8) -> Option<u32> {
    if 0x30 <= b <= 0x39 {
        Some((b - 0x30) as u32)
    } else if 0x61 <= b <= 0x66 {
        Some((b - 0x61 + 10) as u32)
    } else if 0x41 <= b <= 0x46 {
        Some((b - 0x41 + 10) as u32)
    } else {
        None
    }
}

/// The value of the four hex digits at `i..i+4`.
pub open spec fn spec_hex4(s: Seq<u8>, i: int) -> Option<u32> {
    if spec_hex_val(s[i]) is Some && spec_hex_val(s[i + 1]) is Some && spec_hex_val(
        s[i + 2],
    ) is Some && spec_hex_val(s[i + 3]) is Some {
        Some(
            ((spec_hex_val(s[i])->0 * 0x1000) + (spec_hex_val(s[i + 1])->0 * 0x100) + (spec_hex_val(
                s[i + 2],
            )->0 * 0x10) + spec_hex_val(s[i + 3])->0) as u32,
        )
    } else {
        None
    }
}

/// The byte a short escape (after a backslash) stands for; `\u` is elsewhere.
pub open spec fn spec_unescape_simple(e: u8) -> Option<u8> {
    if e == 0x22 {
        Some(0x22u8)
    } else if e == 0x5c {
        Some(0x5cu8)
    } else if e == 0x2f {
        Some(0x2fu8)
    } else if e == 0x62 {
        Some(0x08u8)
    } else if e == 0x66 {
        Some(0x0cu8)
    } else if e == 0x6e {
        Some(0x0au8)
    } else if e == 0x72 {
        Some(0x0du8)
    } else if e == 0x74 {
        Some(0x09u8)
    } else {
        None
    }
}

/// Parses a string content starting just after the opening quote; yields the
/// unescaped bytes and the index just after the closing quote.
pub open spec fn spec_parse_string_body(s: Seq<u8>, i: int) -> Option<(Seq<u8>, int)>
    decreases s.len() - i,
{
    if i < 0 || i >= s.len() {
        None
    } else if s[i] == 0x22 {
        Some((Seq::<u8>::empty(), i + 1))
    } else if s[i] == 0x5c {
        if i + 2 > s.len() {
            None
        } else if s[i + 1] == 0x75 {
            if i + 6 > s.len() {
                None
            } else {
                match spec_hex4(s, i + 2) {
                    None => None,
                    Some(cp) => if 0xD800 <= cp <= 0xDBFF {
                        // A high surrogate must pair with a following \u low surrogate.
                        if i + 12 > s.len() || s[i + 6] != 0x5c || s[i + 7] != 0x75 {
                            None
                        } else {
                            match spec_hex4(s, i + 8) {
                                None => None,
                                Some(cp2) => if 0xDC00 <= cp2 <= 0xDFFF {
                                    match spec_parse_string_body(s, i + 12) {
                                        None => None,
                                        Some((rest, j)) => Some(
                                            (
                                                encode_scalar(
                                                    (0x10000 + (cp - 0xD800) * 0x400 + (cp2
                                                        - 0xDC00)) as u32,
                                                ) + rest,
                                                j,
                                            ),
                                        ),
                                    }
                                } else {
                                    None
                                },
                            }
                        }
                    } else if 0xDC00 <= cp <= 0xDFFF {
                        None
                    } else {
                        match spec_parse_string_body(s, i + 6) {
                            None => None,
                            Some((rest, j)) => Some((encode_scalar(cp) + rest, j)),
                        }
                    },
                }
            }
        } else {
            match spec_unescape_simple(s[i + 1]) {
                None => None,
                Some(b) => match spec_parse_string_body(s, i + 2) {
                    None => None,
                    Some((rest, j)) => Some((seq![b] + rest, j)),
                },
            }
        }
    } else if s[i] < 0x20 {
        None
    } else {
        match spec_parse_string_body(s, i + 1) {
            None => None,
            Some((rest, j)) => Some((seq![s[i]] + rest, j)),
        }
    }
}

/// The end of the fraction part beginning at `k`, if well formed.
pub open spec fn spec_frac_end(s: Seq<u8>, k: int) -> Option<int> {
    if k < s.len() && s[k] == 0x2e {
        if k + 1 < s.len() && is_digit(s[k + 1]) {
            Some(spec_skip_digits(s, k + 1))
        } else {
            None
        }
    } else {
        Some(k)
    }
}

/// The end of the exponent part beginning at `k`, if well formed.
pub open spec fn spec_exp_end(s: Seq<u8>, k: int) -> Option<int> {
    if k < s.len() && (s[k] == 0x65 || s[k] == 0x45) {
        let m = if k + 1 < s.len() && (s[k + 1] == 0x2b || s[k + 1] == 0x2d) {
            k + 2
        } else {
            k + 1
        };
        if m < s.len() && is_digit(s[m]) {
            Some(spec_skip_digits(s, m))
        } else {
            None
        }
    } else {
        Some(k)
    }
}

/// The end of the number token beginning at `i`, if well formed.
pub open spec fn spec_number_end(s: Seq<u8>, i: int) -> Option<int> {
    let j = if 0 <= i < s.len() && s[i] == 0x2d {
        i + 1
    } else {
        i
    };
    if !(0 <= j < s.len() && is_digit(s[j])) {
        None
    } else {
        let k = if s[j] == 0x30 {
            j + 1
        } else {
            spec_skip_digits(s, j)
        };
        match spec_frac_end(s, k) {
            None => None,
            Some(k2) => spec_exp_end(s, k2),
        }
    }
}

/// Parses one JSON value beginning exactly at `i` (no leading whitespace);
/// yields the value and the index just after it.
pub open spec fn spec_parse_value(s: Seq<u8>, i: int) -> Option<(SpecJson, int)>
    decreases s.len() - i, 0int,
{
    if i < 0 || i >= s.len() {
        None
    } else if s[i] == 0x22 {
        match spec_parse_string_body(s, i + 1) {
            None => None,
            Some((content, j)) => Some((SpecJson::Str(content), j)),
        }
    } else if s[i] == 0x7b {
        spec_parse_object(s, i + 1)
    } else if s[i] == 0x5b {
        spec_parse_array(s, i + 1)
    } else if s[i] == 0x6e {
        if i + 4 <= s.len() && s[i + 1] == 0x75 && s[i + 2] == 0x6c && s[i + 3] == 0x6c {
            Some((SpecJson::Null, i + 4))
        } else {
            None
        }
    } else if s[i] == 0x74 {
        if i + 4 <= s.len() && s[i + 1] == 0x72 && s[i + 2] == 0x75 && s[i + 3] == 0x65 {
            Some((SpecJson::Bool(true), i + 4))
        } else {
            None
        }
    } else if s[i] == 0x66 {
        if i + 5 <= s.len() && s[i + 1] == 0x61 && s[i + 2] == 0x6c && s[i + 3] == 0x73 && s[i + 4]
            == 0x65 {
            Some((SpecJson::Bool(false), i + 5))
        } else {
            None
        }
    } else if s[i] == 0x2d || is_digit(s[i]) {
        match spec_number_end(s, i) {
            None => None,
            Some(e) => Some((SpecJson::Num(s.subrange(i, e)), e)),
        }
    } else {
        None
    }
}

/// Parses the remainder of an array, `i` standing just after the `[`.
pub open spec fn spec_parse_array(s: Seq<u8>, i: int) -> Option<(SpecJson, int)>
    decreases s.len() - i, 2int,
{
    if i < 0 {
        None
    } else {
        let j = spec_skip_ws(s, i);
        if j < s.len() && s[j] == 0x5d {
            Some((SpecJson::Arr(Seq::<SpecJson>::empty()), j + 1))
        } else {
            match spec_parse_items(s, i) {
                None => None,
                Some((elems, e)) => Some((SpecJson::Arr(elems), e)),
            }
        }
    }
}

/// Parses one or more comma-separated array items beginning at `i`
/// (whitespace allowed), up to and including the closing `]`.
pub open spec fn spec_parse_items(s: Seq<u8>, i: int) -> Option<(Seq<SpecJson>, int)>
    decreases s.len() - i, 1int,
{
    if i < 0 {
        None
    } else {
        let j = spec_skip_ws(s, i);
        // A step that does not advance cannot happen; the branch makes the
        // recursion visibly well founded.
        if j < i || j > s.len() {
            None
        } else {
            match spec_parse_value(s, j) {
                None => None,
                Some((v, k)) => if k <= j {
                    None
                } else {
                    let m = spec_skip_ws(s, k);
                    if m < k {
                        None
                    } else if m < s.len() && s[m] == 0x2c {
                        match spec_parse_items(s, m + 1) {
                            None => None,
                            Some((rest, e)) => Some((seq![v] + rest, e)),
                        }
                    } else if m < s.len() && s[m] == 0x5d {
                        Some((seq![v], m + 1))
                    } else {
                        None
                    }
                },
            }
        }
    }
}

/// Parses the remainder of an object, `i` standing just after the `{`.
pub open spec fn spec_parse_object(s: Seq<u8>, i: int) -> Option<(SpecJson, int)>
    decreases s.len() - i, 2int,
{
    if i < 0 {
        None
    } else {
        let j = spec_skip_ws(s, i);
        if j < s.len() && s[j] == 0x7d {
            Some((SpecJson::Obj(Seq::<(Seq<u8>, SpecJson)>::empty()), j + 1))
        } else {
            match spec_parse_members(s, i) {
                None => None,
                Some((members, e)) => Some((SpecJson::Obj(members), e)),
            }
        }
    }
}

/// Parses one or more comma-separated object members beginning at `i`
/// (whitespace allowed), up to and including the closing `}`.
pub open spec fn spec_parse_members(s: Seq<u8>, i: int) -> Option<(Seq<(Seq<u8>, SpecJson)>, int)>
    decreases s.len() - i, 1int,
{
    if i < 0 {
        None
    } else {
        let j = spec_skip_ws(s, i);
        if j < i || !(j < s.len() && s[j] == 0x22) {
            None
        } else {
            match spec_parse_string_body(s, j + 1) {
                None => None,
                Some((key, k)) => if k <= j + 1 {
                    None
                } else {
                    let m1 = spec_skip_ws(s, k);
                    if m1 < k || !(m1 < s.len() && s[m1] == 0x3a) {
                        None
                    } else {
                        let m2 = spec_skip_ws(s, m1 + 1);
                        if m2 <= m1 || m2 > s.len() {
                            None
                        } else {
                            match spec_parse_value(s, m2) {
                                None => None,
                                Some((v, e)) => if e <= m2 {
                                    None
                                } else {
                                    let m3 = spec_skip_ws(s, e);
                                    if m3 < e {
                                        None
                                    } else if m3 < s.len() && s[m3] == 0x2c {
                                        match spec_parse_members(s, m3 + 1) {
                                            None => None,
                                            Some((rest, e2)) => Some((seq![(key, v)] + rest, e2)),
                                        }
                                    } else if m3 < s.len() && s[m3] == 0x7d {
                                        Some((seq![(key, v)], m3 + 1))
                                    } else {
                                        None
                                    }
                                },
                            }
                        }
                    }
                },
            }
        }
    }
}

/// Parses a whole text as one JSON value with nothing but whitespace around
/// it. This is the strict reading of a document.
pub open spec fn spec_parse_json(s: Seq<u8>) -> Option<SpecJson> {
    match spec_parse_value(s, spec_skip_ws(s, 0)) {
        None => None,
        Some((v, j)) => if spec_skip_ws(s, j) == s.len() {
            Some(v)
        } else {
            None
        },
    }
}

// ---------------------------------------------------------------------------
// The executable parser.
// ---------------------------------------------------------------------------

fn skip_ws(s: &Vec<u8>, i: usize) -> (r: usize)
    requires
        i <= s@.len(),
    ensures
        r == spec_skip_ws(s@, i as int),
        i <= r <= s@.len(),
{
    let mut j = i;
    while j < s.len() && (s[j] == 0x20 || s[j] == 0x09 || s[j] == 0x0a || s[j] == 0x0d)
        invariant
            i <= j <= s@.len(),
            spec_skip_ws(s@, i as int) == spec_skip_ws(s@, j as int),
        decreases s@.len() - j,
    {
        j = j + 1;
    }
    j
}

fn skip_digits(s: &Vec<u8>, i: usize) -> (r: usize)
    requires
        i <= s@.len(),
    ensures
        r == spec_skip_digits(s@, i as int),
        i <= r <= s@.len(),
{
    let mut j = i;
    while j < s.len() && 0x30 <= s[j] && s[j] <= 0x39
        invariant
            i <= j <= s@.len(),
            spec_skip_digits(s@, i as int) == spec_skip_digits(s@, j as int),
        decreases s@.len() - j,
    {
        j = j + 1;
    }
    j
}

fn hex_val(b: u8) -> (r: Option<u32>)
    ensures
        r == spec_hex_val(b),
{
    if 0x30 <= b && b <= 0x39 {
        Some((b - 0x30) as u32)
    } else if 0x61 <= b && b <= 0x66 {
        Some((b - 0x61 + 10) as u32)
    } else if 0x41 <= b && b <= 0x46 {
        Some((b - 0x41 + 10) as u32)
    } else {
        None
    }
}

fn hex4(s: &Vec<u8>, i: usize) -> (r: Option<u32>)
    requires
        i + 4 <= s@.len(),
    ensures
        r == spec_hex4(s@, i as int),
        r is Some ==> r->0 <= 0xFFFF,
{
    let n = s.len();
    assert(i + 4 <= n);
    let a = hex_val(s[i]);
    let b = hex_val(s[i + 1]);
    let c = hex_val(s[i + 2]);
    let d = hex_val(s[i + 3]);
    match (a, b, c, d) {
        (Some(a), Some(b), Some(c), Some(d)) => Some(a * 0x1000 + b * 0x100 + c * 0x10 + d),
        _ => None,
    }
}

/// Appends the UTF-8 encoding of a Unicode scalar value.
fn push_scalar_utf8(out: &mut Vec<u8>, cp: u32)
    requires
        is_scalar(cp),
    ensures
        final(out)@ == old(out)@ + encode_scalar(cp),
{
    if cp <= 0x7F {
        out.push((cp & 0x7F) as u8);
    } else if cp <= 0x7FF {
        out.push(0xC0 | (((cp >> 6) & 0x1F) as u8));
        out.push(0x80 | ((cp & 0x3F) as u8));
    } else if cp <= 0xFFFF {
        out.push(0xE0 | (((cp >> 12) & 0x0F) as u8));
        out.push(0x80 | (((cp >> 6) & 0x3F) as u8));
        out.push(0x80 | ((cp & 0x3F) as u8));
    } else {
        out.push(0xF0 | (((cp >> 18) & 0x7) as u8));
        out.push(0x80 | (((cp >> 12) & 0x3F) as u8));
        out.push(0x80 | (((cp >> 6) & 0x3F) as u8));
        out.push(0x80 | ((cp & 0x3F) as u8));
    }
    assert(final(out)@ =~= old(out)@ + encode_scalar(cp));
}

fn parse_string_body(s: &Vec<u8>, i: usize) -> (r: Option<(Vec<u8>, usize)>)
    requires
        i <= s@.len(),
    ensures
        match r {
            Some(p) => spec_parse_string_body(s@, i as int) == Some((p.0@, p.1 as int)) && p.1
                <= s@.len(),
            None => spec_parse_string_body(s@, i as int) is None,
        },
    decreases s@.len() - i,
{
    if i >= s.len() {
        return None;
    }
    let b0 = s[i];
    if b0 == 0x22 {
        Some((Vec::new(), i + 1))
    } else if b0 == 0x5c {
        if s.len() - i < 2 {
            return None;
        }
        let e = s[i + 1];
        if e == 0x75 {
            if s.len() - i < 6 {
                return None;
            }
            match hex4(s, i + 2) {
                None => None,
                Some(cp) => {
                    if 0xD800 <= cp && cp <= 0xDBFF {
                        if s.len() - i < 12 || s[i + 6] != 0x5c || s[i + 7] != 0x75 {
                            return None;
                        }
                        match hex4(s, i + 8) {
                            None => None,
                            Some(cp2) => {
                                if 0xDC00 <= cp2 && cp2 <= 0xDFFF {
                                    let combined: u32 = 0x10000 + (cp - 0xD800) * 0x400 + (cp2
                                        - 0xDC00);
                                    match parse_string_body(s, i + 12) {
                                        None => None,
                                        Some((rest, j)) => {
                                            let mut out: Vec<u8> = Vec::new();
                                            push_scalar_utf8(&mut out, combined);
                                            let mut rest = rest;
                                            out.append(&mut rest);
                                            Some((out, j))
                                        },
                                    }
                                } else {
                                    None
                                }
                            },
                        }
                    } else if 0xDC00 <= cp && cp <= 0xDFFF {
                        None
                    } else {
                        match parse_string_body(s, i + 6) {
                            None => None,
                            Some((rest, j)) => {
                                let mut out: Vec<u8> = Vec::new();
                                push_scalar_utf8(&mut out, cp);
                                let mut rest = rest;
                                out.append(&mut rest);
                                Some((out, j))
                            },
                        }
                    }
                },
            }
        } else {
            let unescaped: u8 = if e == 0x22 {
                0x22
            } else if e == 0x5c {
                0x5c
            } else if e == 0x2f {
                0x2f
            } else if e == 0x62 {
                0x08
            } else if e == 0x66 {
                0x0c
            } else if e == 0x6e {
                0x0a
            } else if e == 0x72 {
                0x0d
            } else if e == 0x74 {
                0x09
            } else {
                return None;
            };
            assert(spec_unescape_simple(e) == Some(unescaped));
            match parse_string_body(s, i + 2) {
                None => None,
                Some((rest, j)) => {
                    let mut out: Vec<u8> = Vec::new();
                    out.push(unescaped);
                    let mut rest = rest;
                    out.append(&mut rest);
                    Some((out, j))
                },
            }
        }
    } else if b0 < 0x20 {
        None
    } else {
        match parse_string_body(s, i + 1) {
            None => None,
            Some((rest, j)) => {
                let mut out: Vec<u8> = Vec::new();
                out.push(b0);
                let mut rest = rest;
                out.append(&mut rest);
                Some((out, j))
            },
        }
    }
}

fn frac_end(s: &Vec<u8>, k: usize) -> (r: Option<usize>)
    requires
        k <= s@.len(),
    ensures
        match r {
            Some(e) => spec_frac_end(s@, k as int) == Some(e as int) && k <= e <= s@.len(),
            None => spec_frac_end(s@, k as int) is None,
        },
{
    if k < s.len() && s[k] == 0x2e {
        if k + 1 < s.len() && 0x30 <= s[k + 1] && s[k + 1] <= 0x39 {
            Some(skip_digits(s, k + 1))
        } else {
            None
        }
    } else {
        Some(k)
    }
}

fn exp_end(s: &Vec<u8>, k: usize) -> (r: Option<usize>)
    requires
        k <= s@.len(),
    ensures
        match r {
            Some(e) => spec_exp_end(s@, k as int) == Some(e as int) && k <= e <= s@.len(),
            None => spec_exp_end(s@, k as int) is None,
        },
{
    if k < s.len() && (s[k] == 0x65 || s[k] == 0x45) {
        let m = if k + 1 < s.len() && (s[k + 1] == 0x2b || s[k + 1] == 0x2d) {
            k + 2
        } else {
            k + 1
        };
        if m < s.len() && 0x30 <= s[m] && s[m] <= 0x39 {
            Some(skip_digits(s, m))
        } else {
            None
        }
    } else {
        Some(k)
    }
}

fn number_end(s: &Vec<u8>, i: usize) -> (r: Option<usize>)
    requires
        i <= s@.len(),
    ensures
        match r {
            Some(e) => spec_number_end(s@, i as int) == Some(e as int) && i <= e <= s@.len(),
            None => spec_number_end(s@, i as int) is None,
        },
{
    let j = if i < s.len() && s[i] == 0x2d {
        i + 1
    } else {
        i
    };
    if !(j < s.len() && 0x30 <= s[j] && s[j] <= 0x39) {
        return None;
    }
    let k = if s[j] == 0x30 {
        j + 1
    } else {
        skip_digits(s, j)
    };
    match frac_end(s, k) {
        None => None,
        Some(k2) => exp_end(s, k2),
    }
}

/// Copies `s[i..e]` into a fresh vector.
pub fn copy_range(s: &Vec<u8>, i: usize, e: usize) -> (out: Vec<u8>)
    requires
        i <= e <= s@.len(),
    ensures
        out@ == s@.subrange(i as int, e as int),
{
    let mut out: Vec<u8> = Vec::new();
    let mut k = i;
    while k < e
        invariant
            i <= k <= e <= s@.len(),
            out@ == s@.subrange(i as int, k as int),
        decreases e - k,
    {
        out.push(s[k]);
        assert(out@ =~= s@.subrange(i as int, k as int + 1));
        k = k + 1;
    }
    out
}

proof fn lemma_view_list_cons(v: JsonValue, r: Seq<JsonValue>)
    ensures
        spec_view_list(seq![v] + r) == seq![spec_view_json(v)] + spec_view_list(r),
{
    let s = seq![v] + r;
    assert(s.drop_first() =~= r);
    assert(spec_view_list(s) =~= seq![spec_view_json(v)] + spec_view_list(r));
}

proof fn lemma_view_members_cons(k: Vec<u8>, v: JsonValue, r: Seq<(Vec<u8>, JsonValue)>)
    ensures
        spec_view_members(seq![(k, v)] + r) == seq![(k@, spec_view_json(v))] + spec_view_members(r),
{
    let s = seq![(k, v)] + r;
    assert(s.drop_first() =~= r);
    assert(spec_view_members(s) =~= seq![(k@, spec_view_json(v))] + spec_view_members(r));
}

fn parse_value(s: &Vec<u8>, i: usize) -> (r: Option<(JsonValue, usize)>)
    requires
        i <= s@.len(),
    ensures
        match r {
            Some(p) => spec_parse_value(s@, i as int) == Some((p.0@, p.1 as int)) && p.1
                <= s@.len(),
            None => spec_parse_value(s@, i as int) is None,
        },
    decreases s@.len() - i, 0int,
{
    if i >= s.len() {
        return None;
    }
    let b0 = s[i];
    if b0 == 0x22 {
        match parse_string_body(s, i + 1) {
            None => None,
            Some((content, j)) => Some((JsonValue::Str(content), j)),
        }
    } else if b0 == 0x7b {
        parse_object(s, i + 1)
    } else if b0 == 0x5b {
        parse_array(s, i + 1)
    } else if b0 == 0x6e {
        if s.len() - i >= 4 && s[i + 1] == 0x75 && s[i + 2] == 0x6c && s[i + 3] == 0x6c {
            Some((JsonValue::Null, i + 4))
        } else {
            None
        }
    } else if b0 == 0x74 {
        if s.len() - i >= 4 && s[i + 1] == 0x72 && s[i + 2] == 0x75 && s[i + 3] == 0x65 {
            Some((JsonValue::Bool(true), i + 4))
        } else {
            None
        }
    } else if b0 == 0x66 {
        if s.len() - i >= 5 && s[i + 1] == 0x61 && s[i + 2] == 0x6c && s[i + 3] == 0x73 && s[i + 4]
            == 0x65 {
            Some((JsonValue::Bool(false), i + 5))
        } else {
            None
        }
    } else if b0 == 0x2d || (0x30 <= b0 && b0 <= 0x39) {
        match number_end(s, i) {
            None => None,
            Some(e) => Some((JsonValue::Num(copy_range(s, i, e)), e)),
        }
    } else {
        None
    }
}

fn parse_array(s: &Vec<u8>, i: usize) -> (r: Option<(JsonValue, usize)>)
    requires
        i <= s@.len(),
    ensures
        match r {
            Some(p) => spec_parse_array(s@, i as int) == Some((p.0@, p.1 as int)) && p.1
                <= s@.len(),
            None => spec_parse_array(s@, i as int) is None,
        },
    decreases s@.len() - i, 2int,
{
    let j = skip_ws(s, i);
    if j < s.len() && s[j] == 0x5d {
        let out: Vec<JsonValue> = Vec::new();
        proof {
            assert(spec_view_list(out@) =~= Seq::<SpecJson>::empty());
        }
        Some((JsonValue::Arr(out), j + 1))
    } else {
        match parse_items(s, i) {
            None => None,
            Some((elems, e)) => Some((JsonValue::Arr(elems), e)),
        }
    }
}

fn parse_items(s: &Vec<u8>, i: usize) -> (r: Option<(Vec<JsonValue>, usize)>)
    requires
        i <= s@.len(),
    ensures
        match r {
            Some(p) => spec_parse_items(s@, i as int) == Some((spec_view_list(p.0@), p.1 as int))
                && p.1 <= s@.len(),
            None => spec_parse_items(s@, i as int) is None,
        },
    decreases s@.len() - i, 1int,
{
    let j = skip_ws(s, i);
    match parse_value(s, j) {
        None => None,
        Some((v, k)) => {
            if k <= j {
                return None;
            }
            let m = skip_ws(s, k);
            if m < s.len() && s[m] == 0x2c {
                match parse_items(s, m + 1) {
                    None => None,
                    Some((rest, e)) => {
                        let ghost v0 = v;
                        let ghost rest0 = rest@;
                        let mut out: Vec<JsonValue> = Vec::new();
                        out.push(v);
                        let mut rest = rest;
                        out.append(&mut rest);
                        proof {
                            assert(out@ =~= seq![v0] + rest0);
                            lemma_view_list_cons(v0, rest0);
                        }
                        Some((out, e))
                    },
                }
            } else if m < s.len() && s[m] == 0x5d {
                let ghost v0 = v;
                let mut out: Vec<JsonValue> = Vec::new();
                out.push(v);
                proof {
                    assert(out@ =~= seq![v0] + Seq::<JsonValue>::empty());
                    lemma_view_list_cons(v0, Seq::<JsonValue>::empty());
                    assert(spec_view_list(Seq::<JsonValue>::empty()) =~= Seq::<SpecJson>::empty());
                    assert(seq![spec_view_json(v0)] + Seq::<SpecJson>::empty() =~= seq![
                        spec_view_json(v0),
                    ]);
                }
                Some((out, m + 1))
            } else {
                None
            }
        },
    }
}

fn parse_object(s: &Vec<u8>, i: usize) -> (r: Option<(JsonValue, usize)>)
    requires
        i <= s@.len(),
    ensures
        match r {
            Some(p) => spec_parse_object(s@, i as int) == Some((p.0@, p.1 as int)) && p.1
                <= s@.len(),
            None => spec_parse_object(s@, i as int) is None,
        },
    decreases s@.len() - i, 2int,
{
    let j = skip_ws(s, i);
    if j < s.len() && s[j] == 0x7d {
        let out: Vec<(Vec<u8>, JsonValue)> = Vec::new();
        proof {
            assert(spec_view_members(out@) =~= Seq::<(Seq<u8>, SpecJson)>::empty());
        }
        Some((JsonValue::Obj(out), j + 1))
    } else {
        match parse_members(s, i) {
            None => None,
            Some((members, e)) => Some((JsonValue::Obj(members), e)),
        }
    }
}

fn parse_members(s: &Vec<u8>, i: usize) -> (r: Option<(Vec<(Vec<u8>, JsonValue)>, usize)>)
    requires
        i <= s@.len(),
    ensures
        match r {
            Some(p) => spec_parse_members(s@, i as int) == Some(
                (spec_view_members(p.0@), p.1 as int),
            ) && p.1 <= s@.len(),
            None => spec_parse_members(s@, i as int) is None,
        },
    decreases s@.len() - i, 1int,
{
    let j = skip_ws(s, i);
    if !(j < s.len() && s[j] == 0x22) {
        return None;
    }
    match parse_string_body(s, j + 1) {
        None => None,
        Some((key, k)) => {
            if k <= j + 1 {
                return None;
            }
            let m1 = skip_ws(s, k);
            if !(m1 < s.len() && s[m1] == 0x3a) {
                return None;
            }
            let m2 = skip_ws(s, m1 + 1);
            if m2 <= m1 {
                return None;
            }
            match parse_value(s, m2) {
                None => None,
                Some((v, e)) => {
                    if e <= m2 {
                        return None;
                    }
                    let m3 = skip_ws(s, e);
                    if m3 < s.len() && s[m3] == 0x2c {
                        match parse_members(s, m3 + 1) {
                            None => None,
                            Some((rest, e2)) => {
                                let ghost k0 = key;
                                let ghost v0 = v;
                                let ghost rest0 = rest@;
                                let mut out: Vec<(Vec<u8>, JsonValue)> = Vec::new();
                                out.push((key, v));
                                let mut rest = rest;
                                out.append(&mut rest);
                                proof {
                                    assert(out@ =~= seq![(k0, v0)] + rest0);
                                    lemma_view_members_cons(k0, v0, rest0);
                                }
                                Some((out, e2))
                            },
                        }
                    } else if m3 < s.len() && s[m3] == 0x7d {
                        let ghost k0 = key;
                        let ghost v0 = v;
                        let mut out: Vec<(Vec<u8>, JsonValue)> = Vec::new();
                        out.push((key, v));
                        proof {
                            assert(out@ =~= seq![(k0, v0)] + Seq::<(Vec<u8>, JsonValue)>::empty());
                            lemma_view_members_cons(k0, v0, Seq::<(Vec<u8>, JsonValue)>::empty());
                            assert(spec_view_members(Seq::<(Vec<u8>, JsonValue)>::empty())
                                =~= Seq::<(Seq<u8>, SpecJson)>::empty());
                            assert(seq![(k0@, spec_view_json(v0))] + Seq::<(
                                Seq<u8>,
                                SpecJson,
                            )>::empty() =~= seq![(k0@, spec_view_json(v0))]);
                        }
                        Some((out, m3 + 1))
                    } else {
                        None
                    }
                },
            }
        },
    }
}

/// The value under the first member with the given key, if any: with a
/// repeated key, the first occurrence decides.
pub open spec fn spec_obj_get(ms: Seq<(Seq<u8>, SpecJson)>, key: Seq<u8>) -> Option<SpecJson>
    decreases ms.len(),
{
    if ms.len() == 0 {
        None
    } else if ms[0].0 == key {
        Some(ms[0].1)
    } else {
        spec_obj_get(ms.drop_first(), key)
    }
}

/// Finds the first member with the given key and returns its index.
pub fn obj_find(ms: &Vec<(Vec<u8>, JsonValue)>, key: &str) -> (r: Option<usize>)
    ensures
        match r {
            Some(ix) => ix < ms@.len() && spec_obj_get(spec_view_members(ms@), spec_str_bytes(key@))
                == Some(spec_view_json(ms@[ix as int].1)),
            None => spec_obj_get(spec_view_members(ms@), spec_str_bytes(key@)) is None,
        },
{
    let ghost vm = spec_view_members(ms@);
    let ghost kb = spec_str_bytes(key@);
    let n = ms.len();
    proof {
        lemma_view_members_index(ms@);
        assert(vm.skip(0) =~= vm);
    }
    let mut i: usize = 0;
    while i < n
        invariant
            i <= n,
            n == ms@.len(),
            vm == spec_view_members(ms@),
            vm.len() == n,
            kb == spec_str_bytes(key@),
            spec_obj_get(vm, kb) == spec_obj_get(vm.skip(i as int), kb),
        decreases n - i,
    {
        proof {
            lemma_view_members_index(ms@);
            assert(vm.skip(i as int)[0] == vm[i as int]);
            assert(vm.skip(i as int).drop_first() =~= vm.skip(i as int + 1));
        }
        if bytes_eq_str(&ms[i].0, key) {
            return Some(i);
        }
        i = i + 1;
    }
    proof {
        assert(vm.skip(n as int) =~= Seq::<(Seq<u8>, SpecJson)>::empty());
    }
    None
}

/// Parses a whole byte text as one JSON document: the strict reading, with
/// only whitespace allowed around the single top-level value.
pub fn parse_json(s: &Vec<u8>) -> (r: Option<JsonValue>)
    ensures
        match r {
            Some(v) => spec_parse_json(s@) == Some(v@),
            None => spec_parse_json(s@) is None,
        },
{
    let i = skip_ws(s, 0);
    match parse_value(s, i) {
        None => None,
        Some((v, j)) => {
            let e = skip_ws(s, j);
            if e == s.len() {
                Some(v)
            } else {
                None
            }
        },
    }
}

} // verus!
