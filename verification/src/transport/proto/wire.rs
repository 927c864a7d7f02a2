//! The wire format of the instruction records: base-128 varints and tagged
//! fields.
//!
//! A record is a sequence of fields. Each field starts with a varint key
//! that holds the field number above the three bits of its wire type. A
//! varint field carries one more varint, a length-delimited field a varint
//! length and that many octets, the two fixed kinds eight and four octets.

use crate::bytes::{copy_range, extend_bytes};
use vstd::prelude::*;

verus! {

/// Wire type of a varint field.
pub const WIRE_VARINT: u8 = 0;

/// Wire type of an eight-octet field.
pub const WIRE_FIXED64: u8 = 1;

/// Wire type of a length-delimited field.
pub const WIRE_BYTES: u8 = 2;

/// Wire type of a four-octet field.
pub const WIRE_FIXED32: u8 = 5;

/// Largest field number: a key has to fit 32 bits.
pub const MAX_FIELD_NUMBER: u32 = 0x1FFF_FFFF;

/// The base-128 form of `v`: seven bits to an octet, least significant
/// first, the top bit set on all but the last.
pub open spec fn spec_varint(v: u64) -> Seq<u8>
    decreases v,
{
    if v < 128 {
        seq![v as u8]
    } else {
        seq![(v % 128 + 128) as u8] + spec_varint(v / 128)
    }
}

/// 128 to the power of `i`.
pub open spec fn spec_pow128(i: nat) -> nat
    decreases i,
{
    if i == 0 {
        1
    } else {
        128 * spec_pow128((i - 1) as nat)
    }
}

/// How many values a varint can still take that begins at octet `depth` of
/// a 64-bit varint.
pub open spec fn spec_varint_room(depth: nat) -> nat
    decreases depth,
{
    if depth == 0 {
        0x1_0000_0000_0000_0000
    } else {
        spec_varint_room((depth - 1) as nat) / 128
    }
}

/// The value and length of the varint at the start of `s`, where `s` is
/// read from octet `depth` of a varint on. A varint has at most ten octets,
/// and its tenth holds one bit.
pub open spec fn spec_parse_varint_from(s: Seq<u8>, depth: nat) -> Option<(nat, nat)>
    decreases s.len(),
{
    if s.len() == 0 || depth >= 10 {
        None
    } else if s[0] < 128 {
        if depth == 9 && s[0] >= 2 {
            None
        } else {
            Some((s[0] as nat, 1nat))
        }
    } else {
        match spec_parse_varint_from(s.drop_first(), depth + 1) {
            Some((rest, n)) => Some((((s[0] - 128) + 128 * rest) as nat, n + 1)),
            None => None,
        }
    }
}

/// The value and length of the varint at the start of `s`.
pub open spec fn spec_parse_varint(s: Seq<u8>) -> Option<(u64, nat)> {
    match spec_parse_varint_from(s, 0) {
        Some((v, n)) => Some((v as u64, n)),
        None => None,
    }
}

/// The powers of 128 that a varint uses, and the room left at each octet.
pub proof fn lemma_varint_tables()
    ensures
        spec_pow128(0) == 1,
        spec_pow128(1) == 0x80,
        spec_pow128(2) == 0x4000,
        spec_pow128(3) == 0x20_0000,
        spec_pow128(4) == 0x1000_0000,
        spec_pow128(5) == 0x8_0000_0000,
        spec_pow128(6) == 0x400_0000_0000,
        spec_pow128(7) == 0x2_0000_0000_0000,
        spec_pow128(8) == 0x100_0000_0000_0000,
        spec_pow128(9) == 0x8000_0000_0000_0000,
        spec_varint_room(1) == 0x200_0000_0000_0000,
        spec_varint_room(2) == 0x4_0000_0000_0000,
        spec_varint_room(3) == 0x800_0000_0000,
        spec_varint_room(4) == 0x10_0000_0000,
        spec_varint_room(5) == 0x2000_0000,
        spec_varint_room(6) == 0x40_0000,
        spec_varint_room(7) == 0x8000,
        spec_varint_room(8) == 0x100,
        spec_varint_room(9) == 2,
        spec_varint_room(10) == 0,
{
    reveal_with_fuel(spec_pow128, 11);
    reveal_with_fuel(spec_varint_room, 11);
    assert(spec_varint_room(1) == 0x200_0000_0000_0000);
    assert(spec_varint_room(2) == 0x4_0000_0000_0000);
    assert(spec_varint_room(3) == 0x800_0000_0000);
    assert(spec_varint_room(4) == 0x10_0000_0000);
    assert(spec_varint_room(5) == 0x2000_0000);
    assert(spec_varint_room(6) == 0x40_0000);
    assert(spec_varint_room(7) == 0x8000);
    assert(spec_varint_room(8) == 0x100);
    assert(spec_varint_room(9) == 2);
}

/// From the eleventh octet on a varint has no room left.
pub proof fn lemma_varint_room_ends(depth: nat)
    requires
        depth >= 10,
    ensures
        spec_varint_room(depth) == 0,
    decreases depth,
{
    lemma_varint_tables();
    if depth > 10 {
        lemma_varint_room_ends((depth - 1) as nat);
    }
}

/// A varint read from octet `depth` on has a value within the room left
/// there, and a length of at least one octet within the input.
pub proof fn lemma_parse_varint_bounds(s: Seq<u8>, depth: nat)
    ensures
        match spec_parse_varint_from(s, depth) {
            Some((v, n)) => v < spec_varint_room(depth) && 1 <= n <= s.len() && n + depth <= 10,
            None => true,
        },
    decreases s.len(),
{
    lemma_varint_tables();
    reveal_with_fuel(spec_varint_room, 11);
    if s.len() == 0 || depth >= 10 {
    } else if s[0] < 128 {
    } else {
        lemma_parse_varint_bounds(s.drop_first(), depth + 1);
    }
}

/// Reading the base-128 form of a value gives the value back, whatever
/// follows it.
pub proof fn lemma_varint_roundtrip_from(v: u64, rest: Seq<u8>, depth: nat)
    requires
        v < spec_varint_room(depth),
    ensures
        spec_parse_varint_from(spec_varint(v) + rest, depth) == Some(
            (v as nat, spec_varint(v).len()),
        ),
    decreases v,
{
    lemma_varint_tables();
    reveal_with_fuel(spec_varint_room, 11);
    let s = spec_varint(v) + rest;
    if depth >= 10 {
        lemma_varint_room_ends(depth);
    }
    assert(depth <= 9);
    if v < 128 {
        assert(s[0] == v);
    } else {
        assert(depth < 9);
        assert(s[0] == v % 128 + 128);
        assert(s.drop_first() =~= spec_varint(v / 128) + rest);
        lemma_varint_roundtrip_from(v / 128, rest, depth + 1);
    }
}

/// Reading the base-128 form of a value gives the value back, whatever
/// follows it.
pub proof fn lemma_varint_roundtrip(v: u64, rest: Seq<u8>)
    ensures
        spec_parse_varint(spec_varint(v) + rest) == Some((v, spec_varint(v).len())),
        1 <= spec_varint(v).len() <= 10,
{
    lemma_varint_roundtrip_from(v, rest, 0);
    lemma_parse_varint_bounds(spec_varint(v) + rest, 0);
}

/// Appends the base-128 form of `v`.
pub fn push_varint(buf: &mut Vec<u8>, v: u64)
    ensures
        final(buf)@ == old(buf)@ + spec_varint(v),
{
    let mut rest: u64 = v;
    while rest >= 128
        invariant
            buf@ + spec_varint(rest) == old(buf)@ + spec_varint(v),
        decreases rest,
    {
        let ghost before = buf@;
        buf.push((rest % 128 + 128) as u8);
        assert(buf@ + spec_varint(rest / 128) =~= before + spec_varint(rest));
        rest = rest / 128;
    }
    let ghost before = buf@;
    buf.push(rest as u8);
    assert(buf@ =~= before + spec_varint(rest));
}

/// A partial reading carried on: `acc` from the octets before, the rest
/// weighted by `mult`.
pub open spec fn spec_varint_carried(
    acc: nat,
    mult: nat,
    i: nat,
    rest: Option<(nat, nat)>,
) -> Option<(nat, nat)> {
    match rest {
        Some((v, n)) => Some((acc + mult * v, n + i)),
        None => None,
    }
}

/// Reads the varint at `data[at..]`: its value and the index after it.
pub fn parse_varint(data: &[u8], at: usize) -> (read: Option<(u64, usize)>)
    requires
        at <= data@.len(),
    ensures
        match read {
            Some((v, next)) => at < next <= data@.len() && spec_parse_varint(
                data@.skip(at as int),
            ) == Some((v, (next - at) as nat)),
            None => spec_parse_varint(data@.skip(at as int)).is_none(),
        },
{
    let ghost s = data@.skip(at as int);
    let mut value: u64 = 0;
    let mut mult: u64 = 1;
    let mut i: usize = 0;
    proof {
        lemma_varint_tables();
        assert(s.skip(0) =~= s);
    }
    while i < 10
        invariant
            at <= data@.len(),
            s == data@.skip(at as int),
            i <= 10,
            i <= s.len(),
            i <= 9 ==> mult == spec_pow128(i as nat),
            value < spec_pow128(i as nat) || i == 10,
            i == 10 ==> spec_parse_varint_from(s, 0).is_none(),
            i < 10 ==> spec_parse_varint_from(s, 0) == spec_varint_carried(
                value as nat,
                mult as nat,
                i as nat,
                spec_parse_varint_from(s.skip(i as int), i as nat),
            ),
        decreases 10 - i,
    {
        proof {
            lemma_varint_tables();
            reveal_with_fuel(spec_pow128, 2);
        }
        if i >= data.len() - at {
            return None;
        }
        let b: u8 = data[at + i];
        let ghost tail = s.skip(i as int);
        assert(tail[0] == b);
        assert(tail.drop_first() =~= s.skip(i + 1));
        if b < 128 {
            if i == 9 && b >= 2 {
                return None;
            }
            assert(b * mult + value <= u64::MAX) by (nonlinear_arith)
                requires
                    value < mult,
                    (i == 9 && b <= 1 && mult == 0x8000_0000_0000_0000) || (mult
                        <= 0x100_0000_0000_0000 && b < 128),
            ;
            let total: u64 = value + (b as u64) * mult;
            assert(total == value + mult * b) by (nonlinear_arith)
                requires
                    total == value + b * mult,
            ;
            return Some((total, at + i + 1));
        }
        if i == 9 {
            assert(spec_parse_varint_from(tail.drop_first(), 10).is_none());
            return None;
        }
        assert((b - 128) * mult + value < 128 * mult <= 0x8000_0000_0000_0000)
            by (nonlinear_arith)
            requires
                value < mult,
                mult <= 0x100_0000_0000_0000,
                128 <= b < 256,
        ;
        let ghost (old_value, old_mult) = (value, mult);
        value = value + ((b - 128) as u64) * mult;
        mult = mult * 128;
        i = i + 1;
        proof {
            let inner = spec_parse_varint_from(s.skip(i as int), i as nat);
            match inner {
                Some((rest, n)) => {
                    assert(old_value + old_mult * ((b - 128) + 128 * rest) == value + mult
                        * rest) by (nonlinear_arith)
                        requires
                            value == old_value + (b - 128) * old_mult,
                            mult == old_mult * 128,
                    ;
                },
                None => {},
            }
        }
    }
    None
}

/// A field as a mathematical value: its number and what it carries.
pub struct WireFieldView {
    pub number: u32,
    pub value: WireValueView,
}

/// What a field carries, as a mathematical value.
pub enum WireValueView {
    /// A varint.
    Varint(u64),
    /// Eight octets, which no record here gives a meaning.
    Fixed64,
    /// A length and that many octets.
    Bytes(Seq<u8>),
    /// Four octets, which no record here gives a meaning.
    Fixed32,
}

/// What a field carries.
#[derive(Debug)]
pub enum WireValue {
    /// A varint.
    Varint(u64),
    /// Eight octets, skipped.
    Fixed64,
    /// A length and that many octets.
    Bytes(Vec<u8>),
    /// Four octets, skipped.
    Fixed32,
}

/// One field of a record.
#[derive(Debug)]
pub struct WireField {
    pub number: u32,
    pub value: WireValue,
}

impl View for WireValue {
    type V = WireValueView;

    open spec fn view(&self) -> WireValueView {
        match self {
            WireValue::Varint(v) => WireValueView::Varint(*v),
            WireValue::Fixed64 => WireValueView::Fixed64,
            WireValue::Bytes(b) => WireValueView::Bytes(b@),
            WireValue::Fixed32 => WireValueView::Fixed32,
        }
    }
}

impl View for WireField {
    type V = WireFieldView;

    open spec fn view(&self) -> WireFieldView {
        WireFieldView { number: self.number, value: self.value@ }
    }
}

/// The values of a list of fields.
pub open spec fn spec_field_views(fields: Seq<WireField>) -> Seq<WireFieldView> {
    Seq::new(fields.len(), |i: int| fields[i]@)
}

/// The key of a field: its number above the three bits of its wire type.
pub open spec fn spec_key(number: u32, wire_type: u8) -> u64 {
    (number * 8 + wire_type) as u64
}

/// The first field of `s` and the number of octets it takes. Keys over 32
/// bits, field number zero, the group wire types and the two unassigned
/// ones are malformed, and so is a field that runs past the end.
pub open spec fn spec_parse_field(s: Seq<u8>) -> Option<(WireFieldView, nat)> {
    match spec_parse_varint(s) {
        None => None,
        Some((key, n)) => {
            let number = key / 8;
            let wire_type = key % 8;
            let body = s.skip(n as int);
            if key > u32::MAX || number == 0 {
                None
            } else if wire_type == WIRE_VARINT {
                match spec_parse_varint(body) {
                    Some((v, m)) => Some(
                        (
                            WireFieldView {
                                number: number as u32,
                                value: WireValueView::Varint(v),
                            },
                            n + m,
                        ),
                    ),
                    None => None,
                }
            } else if wire_type == WIRE_FIXED64 {
                if body.len() >= 8 {
                    Some(
                        (
                            WireFieldView { number: number as u32, value: WireValueView::Fixed64 },
                            n + 8,
                        ),
                    )
                } else {
                    None
                }
            } else if wire_type == WIRE_BYTES {
                match spec_parse_varint(body) {
                    Some((len, m)) => if len <= body.len() - m {
                        Some(
                            (
                                WireFieldView {
                                    number: number as u32,
                                    value: WireValueView::Bytes(
                                        body.subrange(m as int, m + len),
                                    ),
                                },
                                n + m + len as nat,
                            ),
                        )
                    } else {
                        None
                    },
                    None => None,
                }
            } else if wire_type == WIRE_FIXED32 {
                if body.len() >= 4 {
                    Some(
                        (
                            WireFieldView { number: number as u32, value: WireValueView::Fixed32 },
                            n + 4,
                        ),
                    )
                } else {
                    None
                }
            } else {
                None
            }
        },
    }
}

/// The fields of a record, in order; `None` where the record is malformed.
pub open spec fn spec_parse_fields(s: Seq<u8>) -> Option<Seq<WireFieldView>>
    decreases s.len(),
{
    if s.len() == 0 {
        Some(Seq::empty())
    } else {
        match spec_parse_field(s) {
            None => None,
            Some((f, n)) => if 0 < n <= s.len() {
                match spec_parse_fields(s.skip(n as int)) {
                    Some(rest) => Some(seq![f] + rest),
                    None => None,
                }
            } else {
                None
            },
        }
    }
}

/// The octets of a varint field.
pub open spec fn spec_varint_field(number: u32, v: u64) -> Seq<u8> {
    spec_varint(spec_key(number, WIRE_VARINT)) + spec_varint(v)
}

/// The octets of a length-delimited field.
pub open spec fn spec_bytes_field(number: u32, body: Seq<u8>) -> Seq<u8> {
    spec_varint(spec_key(number, WIRE_BYTES)) + spec_varint(body.len() as u64) + body
}

/// Whether a field number can be written: from one up to the largest that
/// leaves the key within 32 bits.
pub open spec fn spec_field_number_ok(number: u32) -> bool {
    1 <= number <= MAX_FIELD_NUMBER
}

/// Reading a varint field gives its number and value back, whatever
/// follows it.
pub proof fn lemma_parse_varint_field(number: u32, v: u64, rest: Seq<u8>)
    requires
        spec_field_number_ok(number),
    ensures
        spec_parse_field(spec_varint_field(number, v) + rest) == Some(
            (
                WireFieldView { number, value: WireValueView::Varint(v) },
                spec_varint_field(number, v).len(),
            ),
        ),
        0 < spec_varint_field(number, v).len(),
{
    let key = spec_key(number, WIRE_VARINT);
    let s = spec_varint_field(number, v) + rest;
    assert(s =~= spec_varint(key) + (spec_varint(v) + rest));
    lemma_varint_roundtrip(key, spec_varint(v) + rest);
    let n = spec_varint(key).len();
    assert(s.skip(n as int) =~= spec_varint(v) + rest);
    lemma_varint_roundtrip(v, rest);
}

/// Reading a length-delimited field gives its number and octets back,
/// whatever follows it.
pub proof fn lemma_parse_bytes_field(number: u32, body: Seq<u8>, rest: Seq<u8>)
    requires
        spec_field_number_ok(number),
        body.len() <= u64::MAX,
    ensures
        spec_parse_field(spec_bytes_field(number, body) + rest) == Some(
            (
                WireFieldView { number, value: WireValueView::Bytes(body) },
                spec_bytes_field(number, body).len(),
            ),
        ),
        0 < spec_bytes_field(number, body).len(),
{
    let key = spec_key(number, WIRE_BYTES);
    let len = body.len() as u64;
    let s = spec_bytes_field(number, body) + rest;
    assert(s =~= spec_varint(key) + (spec_varint(len) + body + rest));
    lemma_varint_roundtrip(key, spec_varint(len) + body + rest);
    let n = spec_varint(key).len();
    let after_key = s.skip(n as int);
    assert(after_key =~= spec_varint(len) + (body + rest));
    lemma_varint_roundtrip(len, body + rest);
    let m = spec_varint(len).len();
    assert(after_key.subrange(m as int, m + len) =~= body);
}

/// A record that starts with a well-formed field, followed by a
/// well-formed record, is that field and then the fields of the rest.
pub proof fn lemma_parse_fields_cons(s: Seq<u8>, f: WireFieldView, n: nat, rest: Seq<WireFieldView>)
    requires
        spec_parse_field(s) == Some((f, n)),
        0 < n <= s.len(),
        spec_parse_fields(s.skip(n as int)) == Some(rest),
    ensures
        spec_parse_fields(s) == Some(seq![f] + rest),
{
}

/// Appends a varint field.
pub fn push_varint_field(buf: &mut Vec<u8>, number: u32, v: u64)
    requires
        spec_field_number_ok(number),
    ensures
        final(buf)@ == old(buf)@ + spec_varint_field(number, v),
{
    push_varint(buf, (number as u64) * 8);
    push_varint(buf, v);
    assert(buf@ =~= old(buf)@ + spec_varint_field(number, v));
}

/// Appends a length-delimited field.
pub fn push_bytes_field(buf: &mut Vec<u8>, number: u32, body: &[u8])
    requires
        spec_field_number_ok(number),
    ensures
        final(buf)@ == old(buf)@ + spec_bytes_field(number, body@),
{
    push_varint(buf, (number as u64) * 8 + 2);
    push_varint(buf, body.len() as u64);
    extend_bytes(buf, body);
    assert(buf@ =~= old(buf)@ + spec_bytes_field(number, body@));
}

/// Reads the field at `data[at..]`: the field and the index after it.
pub fn parse_field(data: &[u8], at: usize) -> (read: Option<(WireField, usize)>)
    requires
        at <= data@.len(),
    ensures
        match read {
            Some((f, next)) => at < next <= data@.len() && spec_parse_field(
                data@.skip(at as int),
            ) == Some((f@, (next - at) as nat)),
            None => spec_parse_field(data@.skip(at as int)).is_none(),
        },
{
    let ghost s = data@.skip(at as int);
    let (key, body_at) = match parse_varint(data, at) {
        Some(pair) => pair,
        None => {
            return None;
        },
    };
    let ghost body = s.skip(body_at - at);
    assert(body =~= data@.skip(body_at as int));
    if key > 0xFFFF_FFFF || key / 8 == 0 {
        return None;
    }
    let number: u32 = (key / 8) as u32;
    let wire_type: u8 = (key % 8) as u8;
    if wire_type == WIRE_VARINT {
        match parse_varint(data, body_at) {
            Some((v, next)) => Some((WireField { number, value: WireValue::Varint(v) }, next)),
            None => None,
        }
    } else if wire_type == WIRE_FIXED64 {
        if data.len() - body_at >= 8 {
            Some((WireField { number, value: WireValue::Fixed64 }, body_at + 8))
        } else {
            None
        }
    } else if wire_type == WIRE_BYTES {
        match parse_varint(data, body_at) {
            Some((len, from)) => {
                if len > (data.len() - from) as u64 {
                    return None;
                }
                let to: usize = from + len as usize;
                let contents = copy_range(data, from, to);
                assert(contents@ =~= body.subrange(from - body_at, from - body_at + len));
                Some((WireField { number, value: WireValue::Bytes(contents) }, to))
            },
            None => None,
        }
    } else if wire_type == WIRE_FIXED32 {
        if data.len() - body_at >= 4 {
            Some((WireField { number, value: WireValue::Fixed32 }, body_at + 4))
        } else {
            None
        }
    } else {
        None
    }
}

/// What is known of a record once its first fields are read: they come
/// before whatever the rest holds.
pub open spec fn spec_fields_carried(
    head: Seq<WireFieldView>,
    rest: Option<Seq<WireFieldView>>,
) -> Option<Seq<WireFieldView>> {
    match rest {
        Some(r) => Some(head + r),
        None => None,
    }
}

/// Reads a record into its fields; `None` where it is malformed.
pub fn parse_fields(data: &[u8]) -> (read: Option<Vec<WireField>>)
    ensures
        match read {
            Some(fields) => spec_parse_fields(data@) == Some(spec_field_views(fields@)),
            None => spec_parse_fields(data@).is_none(),
        },
{
    let mut fields: Vec<WireField> = Vec::new();
    let mut at: usize = 0;
    assert(data@.skip(0) =~= data@);
    proof {
        match spec_parse_fields(data@) {
            Some(all) => {
                assert(spec_field_views(fields@) + all =~= all);
            },
            None => {},
        }
    }
    while at < data.len()
        invariant
            at <= data@.len(),
            spec_parse_fields(data@) == spec_fields_carried(
                spec_field_views(fields@),
                spec_parse_fields(data@.skip(at as int)),
            ),
        decreases data@.len() - at,
    {
        let ghost tail = data@.skip(at as int);
        let ghost head = spec_field_views(fields@);
        match parse_field(data, at) {
            None => {
                return None;
            },
            Some((f, next)) => {
                let ghost fv = f@;
                fields.push(f);
                proof {
                    assert(tail.skip(next - at) =~= data@.skip(next as int));
                    assert(spec_field_views(fields@) =~= head.push(fv));
                    match spec_parse_fields(data@.skip(next as int)) {
                        Some(r) => {
                            assert(head + (seq![fv] + r) =~= head.push(fv) + r);
                        },
                        None => {},
                    }
                }
                at = next;
            },
        }
    }
    proof {
        assert(data@.skip(at as int).len() == 0);
        assert(spec_field_views(fields@) + Seq::<WireFieldView>::empty() =~= spec_field_views(
            fields@,
        ));
    }
    Some(fields)
}

/// The 64-bit varint value that stands for a signed 32-bit value: the
/// value itself, sign-extended.
pub open spec fn spec_int32_wire(v: i32) -> u64 {
    if v >= 0 {
        v as u64
    } else {
        (v + 0x1_0000_0000_0000_0000) as u64
    }
}

/// The signed 32-bit value that a varint value stands for: its low 32 bits.
pub open spec fn spec_wire_int32(u: u64) -> i32 {
    let low = u % 0x1_0000_0000;
    if low < 0x8000_0000 {
        low as i32
    } else {
        (low - 0x1_0000_0000) as i32
    }
}

/// The unsigned 32-bit value that a varint value stands for: its low 32
/// bits.
pub open spec fn spec_wire_uint32(u: u64) -> u32 {
    (u % 0x1_0000_0000) as u32
}

/// The varint value of a signed 32-bit value.
pub fn int32_wire(v: i32) -> (u: u64)
    ensures
        u == spec_int32_wire(v),
        spec_wire_int32(u) == v,
{
    if v >= 0 {
        v as u64
    } else {
        let below: u64 = (-(v as i64) - 1) as u64;
        u64::MAX - below
    }
}

/// The signed 32-bit value of a varint value.
pub fn wire_int32(u: u64) -> (v: i32)
    ensures
        v == spec_wire_int32(u),
{
    let low: u64 = u % 0x1_0000_0000;
    if low < 0x8000_0000 {
        low as i32
    } else {
        (low as i64 - 0x1_0000_0000) as i32
    }
}

/// The unsigned 32-bit value of a varint value.
pub fn wire_uint32(u: u64) -> (v: u32)
    ensures
        v == spec_wire_uint32(u),
{
    (u % 0x1_0000_0000) as u32
}

/// A record could not be read: it is malformed, or a field that it names
/// has the wrong wire type.
#[derive(Debug, Clone, Copy, PartialEq, Eq, Structural)]
pub struct DecodeError;

/// A varint that can be read from `s` reads the same with more octets
/// after it.
pub proof fn lemma_parse_varint_extend(s: Seq<u8>, t: Seq<u8>, depth: nat)
    requires
        spec_parse_varint_from(s, depth) is Some,
    ensures
        spec_parse_varint_from(s + t, depth) == spec_parse_varint_from(s, depth),
    decreases s.len(),
{
    if s[0] >= 128 {
        assert((s + t).drop_first() =~= s.drop_first() + t);
        lemma_parse_varint_extend(s.drop_first(), t, depth + 1);
    }
}

/// A field that can be read from `s` reads the same with more octets after
/// it.
pub proof fn lemma_parse_field_extend(s: Seq<u8>, t: Seq<u8>)
    requires
        spec_parse_field(s) is Some,
    ensures
        spec_parse_field(s + t) == spec_parse_field(s),
        spec_parse_field(s)->Some_0.1 <= s.len(),
{
    lemma_parse_varint_extend(s, t, 0);
    lemma_parse_varint_bounds(s, 0);
    let (key, n) = spec_parse_varint(s)->Some_0;
    let body = s.skip(n as int);
    assert((s + t).skip(n as int) =~= body + t);
    let wire_type = key % 8;
    if wire_type == WIRE_VARINT {
        lemma_parse_varint_extend(body, t, 0);
        lemma_parse_varint_bounds(body, 0);
    } else if wire_type == WIRE_BYTES {
        lemma_parse_varint_extend(body, t, 0);
        lemma_parse_varint_bounds(body, 0);
        let (len, m) = spec_parse_varint(body)->Some_0;
        assert((body + t).subrange(m as int, m + len) =~= body.subrange(m as int, m + len));
    }
}

/// The fields of two well-formed records, one written after the other, are
/// the fields of the first and then those of the second.
pub proof fn lemma_parse_fields_concat(a: Seq<u8>, b: Seq<u8>)
    requires
        spec_parse_fields(a) is Some,
        spec_parse_fields(b) is Some,
    ensures
        spec_parse_fields(a + b) == Some(
            spec_parse_fields(a)->Some_0 + spec_parse_fields(b)->Some_0,
        ),
    decreases a.len(),
{
    let fa = spec_parse_fields(a)->Some_0;
    let fb = spec_parse_fields(b)->Some_0;
    if a.len() == 0 {
        assert(a + b =~= b);
        assert(fa + fb =~= fb);
    } else {
        let (f, n) = spec_parse_field(a)->Some_0;
        lemma_parse_field_extend(a, b);
        assert((a + b).skip(n as int) =~= a.skip(n as int) + b);
        lemma_parse_fields_concat(a.skip(n as int), b);
        let rest = spec_parse_fields(a.skip(n as int))->Some_0;
        assert(seq![f] + (rest + fb) =~= (seq![f] + rest) + fb);
    }
}

/// A record that is one varint field has that one field.
pub proof fn lemma_parse_one_varint_field(number: u32, v: u64)
    requires
        spec_field_number_ok(number),
    ensures
        spec_parse_fields(spec_varint_field(number, v)) == Some(
            seq![WireFieldView { number, value: WireValueView::Varint(v) }],
        ),
{
    let s = spec_varint_field(number, v);
    let f = WireFieldView { number, value: WireValueView::Varint(v) };
    lemma_parse_varint_field(number, v, Seq::empty());
    assert(s + Seq::<u8>::empty() =~= s);
    assert(s.skip(s.len() as int) =~= Seq::<u8>::empty());
    assert(spec_parse_fields(Seq::<u8>::empty()) == Some(Seq::<WireFieldView>::empty()));
    assert(spec_parse_field(s) == Some((f, s.len())));
    lemma_parse_fields_cons(s, f, s.len(), Seq::empty());
    assert(seq![f] + Seq::<WireFieldView>::empty() =~= seq![f]);
}

/// A record that is one length-delimited field has that one field.
pub proof fn lemma_parse_one_bytes_field(number: u32, body: Seq<u8>)
    requires
        spec_field_number_ok(number),
        body.len() <= u64::MAX,
    ensures
        spec_parse_fields(spec_bytes_field(number, body)) == Some(
            seq![WireFieldView { number, value: WireValueView::Bytes(body) }],
        ),
{
    let s = spec_bytes_field(number, body);
    let f = WireFieldView { number, value: WireValueView::Bytes(body) };
    lemma_parse_bytes_field(number, body, Seq::empty());
    assert(s + Seq::<u8>::empty() =~= s);
    assert(s.skip(s.len() as int) =~= Seq::<u8>::empty());
    assert(spec_parse_fields(Seq::<u8>::empty()) == Some(Seq::<WireFieldView>::empty()));
    assert(spec_parse_field(s) == Some((f, s.len())));
    lemma_parse_fields_cons(s, f, s.len(), Seq::empty());
    assert(seq![f] + Seq::<WireFieldView>::empty() =~= seq![f]);
}

/// A varint field takes at most twenty octets, a length-delimited one at
/// most twenty more than it holds.
pub proof fn lemma_field_len(number: u32, v: u64, body: Seq<u8>)
    ensures
        spec_varint_field(number, v).len() <= 20,
        spec_bytes_field(number, body).len() <= body.len() + 20,
{
    lemma_varint_roundtrip(spec_key(number, WIRE_VARINT), Seq::empty());
    lemma_varint_roundtrip(spec_key(number, WIRE_BYTES), Seq::empty());
    lemma_varint_roundtrip(v, Seq::empty());
    lemma_varint_roundtrip(body.len() as u64, Seq::empty());
}

} // verus!
