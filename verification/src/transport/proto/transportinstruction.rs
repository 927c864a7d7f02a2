//! The record that frames every exchange of state: which state the diff
//! starts from, which it leads to, what is acknowledged and what may be
//! thrown away.

use crate::bytes::clone_bytes;
use crate::transport::proto::wire::{
    lemma_parse_bytes_field, lemma_parse_fields_concat, lemma_parse_fields_cons,
    lemma_parse_varint_field, parse_fields,
    push_bytes_field, push_varint_field, spec_bytes_field, spec_field_number_ok, spec_field_views,
    spec_parse_fields, spec_varint_field, spec_wire_uint32, wire_uint32, DecodeError, WireField,
    WireFieldView, WireValue, WireValueView,
};
use vstd::prelude::*;

verus! {

pub const FIELD_PROTOCOL_VERSION: u32 = 1;

pub const FIELD_OLD_NUM: u32 = 2;

pub const FIELD_NEW_NUM: u32 = 3;

pub const FIELD_ACK_NUM: u32 = 4;

pub const FIELD_THROWAWAY_NUM: u32 = 5;

pub const FIELD_DIFF: u32 = 6;

pub const FIELD_CHAFF: u32 = 7;

/// An instruction as a mathematical value.
pub struct InstructionView {
    pub protocol_version: Option<u32>,
    pub old_num: Option<u64>,
    pub new_num: Option<u64>,
    pub ack_num: Option<u64>,
    pub throwaway_num: Option<u64>,
    pub diff: Option<Seq<u8>>,
    pub chaff: Option<Seq<u8>>,
}

/// One instruction of the transport.
#[derive(Debug)]
pub struct Instruction {
    /// The version of the protocol that the sender speaks.
    pub protocol_version: Option<u32>,
    /// The state that the diff starts from.
    pub old_num: Option<u64>,
    /// The state that the diff leads to.
    pub new_num: Option<u64>,
    /// The latest state that the sender has received.
    pub ack_num: Option<u64>,
    /// The receiver may discard the states below this one.
    pub throwaway_num: Option<u64>,
    /// The patch from the old state to the new.
    pub diff: Option<Vec<u8>>,
    /// Random octets that vary the length of the datagram.
    pub chaff: Option<Vec<u8>>,
}

impl View for Instruction {
    type V = InstructionView;

    open spec fn view(&self) -> InstructionView {
        InstructionView {
            protocol_version: self.protocol_version,
            old_num: self.old_num,
            new_num: self.new_num,
            ack_num: self.ack_num,
            throwaway_num: self.throwaway_num,
            diff: match self.diff {
                Some(d) => Some(d@),
                None => None,
            },
            chaff: match self.chaff {
                Some(c) => Some(c@),
                None => None,
            },
        }
    }
}

/// The octets of an optional varint field.
pub open spec fn spec_optional_varint(number: u32, v: Option<u64>) -> Seq<u8> {
    match v {
        Some(x) => spec_varint_field(number, x),
        None => Seq::empty(),
    }
}

/// The octets of an optional length-delimited field.
pub open spec fn spec_optional_bytes(number: u32, v: Option<Seq<u8>>) -> Seq<u8> {
    match v {
        Some(x) => spec_bytes_field(number, x),
        None => Seq::empty(),
    }
}

/// The octets of an instruction: the fields that are set, in the order of
/// their numbers.
pub open spec fn spec_instruction_bytes(i: InstructionView) -> Seq<u8> {
    spec_optional_varint(
        FIELD_PROTOCOL_VERSION,
        match i.protocol_version {
            Some(v) => Some(v as u64),
            None => None,
        },
    ) + spec_optional_varint(FIELD_OLD_NUM, i.old_num) + spec_optional_varint(
        FIELD_NEW_NUM,
        i.new_num,
    ) + spec_optional_varint(FIELD_ACK_NUM, i.ack_num) + spec_optional_varint(
        FIELD_THROWAWAY_NUM,
        i.throwaway_num,
    ) + spec_optional_bytes(FIELD_DIFF, i.diff) + spec_optional_bytes(FIELD_CHAFF, i.chaff)
}

/// The instruction with no field set.
pub open spec fn spec_instruction_default() -> InstructionView {
    InstructionView {
        protocol_version: None,
        old_num: None,
        new_num: None,
        ack_num: None,
        throwaway_num: None,
        diff: None,
        chaff: None,
    }
}

/// An instruction after one more field: a later field replaces an earlier
/// one of the same number, a field of another number than the seven is
/// passed over, and one of the seven with the wrong wire type is
/// malformed.
pub open spec fn spec_instruction_merge(i: InstructionView, f: WireFieldView) -> Option<
    InstructionView,
> {
    if 1 <= f.number <= 5 {
        match f.value {
            WireValueView::Varint(v) => Some(
                if f.number == FIELD_PROTOCOL_VERSION {
                    InstructionView { protocol_version: Some(spec_wire_uint32(v)), ..i }
                } else if f.number == FIELD_OLD_NUM {
                    InstructionView { old_num: Some(v), ..i }
                } else if f.number == FIELD_NEW_NUM {
                    InstructionView { new_num: Some(v), ..i }
                } else if f.number == FIELD_ACK_NUM {
                    InstructionView { ack_num: Some(v), ..i }
                } else {
                    InstructionView { throwaway_num: Some(v), ..i }
                },
            ),
            _ => None,
        }
    } else if f.number == FIELD_DIFF || f.number == FIELD_CHAFF {
        match f.value {
            WireValueView::Bytes(b) => Some(
                if f.number == FIELD_DIFF {
                    InstructionView { diff: Some(b), ..i }
                } else {
                    InstructionView { chaff: Some(b), ..i }
                },
            ),
            _ => None,
        }
    } else {
        Some(i)
    }
}

/// An instruction after the first `n` of `fields`.
pub open spec fn spec_instruction_merge_all(
    i: InstructionView,
    fields: Seq<WireFieldView>,
    n: nat,
) -> Option<InstructionView>
    decreases n,
{
    if n == 0 {
        Some(i)
    } else {
        match spec_instruction_merge_all(i, fields, (n - 1) as nat) {
            Some(acc) => spec_instruction_merge(acc, fields[n - 1]),
            None => None,
        }
    }
}

/// The instruction that `data` holds; `None` where it is malformed.
pub open spec fn spec_instruction_decode(data: Seq<u8>) -> Option<InstructionView> {
    match spec_parse_fields(data) {
        Some(fields) => spec_instruction_merge_all(
            spec_instruction_default(),
            fields,
            fields.len(),
        ),
        None => None,
    }
}

impl Instruction {
    /// Writes the instruction.
    pub fn encode_to_vec(&self) -> (out: Vec<u8>)
        ensures
            out@ == spec_instruction_bytes(self@),
    {
        let mut out: Vec<u8> = Vec::new();
        match self.protocol_version {
            Some(v) => {
                push_varint_field(&mut out, FIELD_PROTOCOL_VERSION, v as u64);
            },
            None => {},
        }
        match self.old_num {
            Some(v) => {
                push_varint_field(&mut out, FIELD_OLD_NUM, v);
            },
            None => {},
        }
        match self.new_num {
            Some(v) => {
                push_varint_field(&mut out, FIELD_NEW_NUM, v);
            },
            None => {},
        }
        match self.ack_num {
            Some(v) => {
                push_varint_field(&mut out, FIELD_ACK_NUM, v);
            },
            None => {},
        }
        match self.throwaway_num {
            Some(v) => {
                push_varint_field(&mut out, FIELD_THROWAWAY_NUM, v);
            },
            None => {},
        }
        match &self.diff {
            Some(d) => {
                push_bytes_field(&mut out, FIELD_DIFF, d.as_slice());
            },
            None => {},
        }
        match &self.chaff {
            Some(c) => {
                push_bytes_field(&mut out, FIELD_CHAFF, c.as_slice());
            },
            None => {},
        }
        assert(out@ =~= spec_instruction_bytes(self@));
        out
    }

    /// The instruction after one more field.
    fn merge_field(self, f: &WireField) -> (merged: Option<Instruction>)
        ensures
            match merged {
                Some(i) => spec_instruction_merge(self@, f@) == Some(i@),
                None => spec_instruction_merge(self@, f@).is_none(),
            },
    {
        let mut next = self;
        if 1 <= f.number && f.number <= 5 {
            match &f.value {
                WireValue::Varint(v) => {
                    if f.number == FIELD_PROTOCOL_VERSION {
                        next.protocol_version = Some(wire_uint32(*v));
                    } else if f.number == FIELD_OLD_NUM {
                        next.old_num = Some(*v);
                    } else if f.number == FIELD_NEW_NUM {
                        next.new_num = Some(*v);
                    } else if f.number == FIELD_ACK_NUM {
                        next.ack_num = Some(*v);
                    } else {
                        next.throwaway_num = Some(*v);
                    }
                    Some(next)
                },
                _ => None,
            }
        } else if f.number == FIELD_DIFF || f.number == FIELD_CHAFF {
            match &f.value {
                WireValue::Bytes(b) => {
                    if f.number == FIELD_DIFF {
                        next.diff = Some(clone_bytes(b.as_slice()));
                    } else {
                        next.chaff = Some(clone_bytes(b.as_slice()));
                    }
                    Some(next)
                },
                _ => None,
            }
        } else {
            Some(next)
        }
    }

    /// Reads an instruction; fails where the octets are malformed.
    pub fn decode(data: &[u8]) -> (read: Result<Instruction, DecodeError>)
        ensures
            match read {
                Ok(i) => spec_instruction_decode(data@) == Some(i@),
                Err(_) => spec_instruction_decode(data@).is_none(),
            },
    {
        let fields = match parse_fields(data) {
            Some(fields) => fields,
            None => {
                return Err(DecodeError);
            },
        };
        let ghost views = spec_field_views(fields@);
        let mut acc: Option<Instruction> = Some(
            Instruction {
                protocol_version: None,
                old_num: None,
                new_num: None,
                ack_num: None,
                throwaway_num: None,
                diff: None,
                chaff: None,
            },
        );
        let mut i: usize = 0;
        while i < fields.len()
            invariant
                i <= fields@.len(),
                views == spec_field_views(fields@),
                match acc {
                    Some(a) => spec_instruction_merge_all(
                        spec_instruction_default(),
                        views,
                        i as nat,
                    ) == Some(a@),
                    None => spec_instruction_merge_all(
                        spec_instruction_default(),
                        views,
                        i as nat,
                    ).is_none(),
                },
            decreases fields@.len() - i,
        {
            assert(views[i as int] == fields@[i as int]@);
            acc = match acc {
                Some(a) => a.merge_field(&fields[i]),
                None => None,
            };
            i = i + 1;
        }
        match acc {
            Some(a) => Ok(a),
            None => Err(DecodeError),
        }
    }
}

/// The field that an optional varint field is read as, if it is set.
pub open spec fn spec_optional_varint_read(number: u32, v: Option<u64>) -> Seq<WireFieldView> {
    match v {
        Some(x) => seq![WireFieldView { number, value: WireValueView::Varint(x) }],
        None => Seq::empty(),
    }
}

/// The field that an optional length-delimited field is read as, if it is
/// set.
pub open spec fn spec_optional_bytes_read(number: u32, v: Option<Seq<u8>>) -> Seq<WireFieldView> {
    match v {
        Some(x) => seq![WireFieldView { number, value: WireValueView::Bytes(x) }],
        None => Seq::empty(),
    }
}

/// An optional varint field before fields that can be read is read as
/// itself, if it is set, and the fields after it.
pub proof fn lemma_parse_optional_varint(
    number: u32,
    v: Option<u64>,
    rest: Seq<u8>,
    fields: Seq<WireFieldView>,
)
    requires
        spec_field_number_ok(number),
        spec_parse_fields(rest) == Some(fields),
    ensures
        spec_parse_fields(spec_optional_varint(number, v) + rest) == Some(
            spec_optional_varint_read(number, v) + fields,
        ),
{
    match v {
        Some(x) => {
            lemma_parse_varint_field(number, x, rest);
            let s = spec_varint_field(number, x) + rest;
            let n = spec_varint_field(number, x).len();
            assert(s.skip(n as int) =~= rest);
            lemma_parse_fields_cons(
                s,
                WireFieldView { number, value: WireValueView::Varint(x) },
                n,
                fields,
            );
        },
        None => {
            assert(Seq::<u8>::empty() + rest =~= rest);
            assert(Seq::<WireFieldView>::empty() + fields =~= fields);
        },
    }
}

/// An optional length-delimited field before fields that can be read is
/// read as itself, if it is set, and the fields after it.
pub proof fn lemma_parse_optional_bytes(
    number: u32,
    v: Option<Seq<u8>>,
    rest: Seq<u8>,
    fields: Seq<WireFieldView>,
)
    requires
        spec_field_number_ok(number),
        v is Some ==> v->Some_0.len() <= u64::MAX,
        spec_parse_fields(rest) == Some(fields),
    ensures
        spec_parse_fields(spec_optional_bytes(number, v) + rest) == Some(
            spec_optional_bytes_read(number, v) + fields,
        ),
{
    match v {
        Some(x) => {
            lemma_parse_bytes_field(number, x, rest);
            let s = spec_bytes_field(number, x) + rest;
            let n = spec_bytes_field(number, x).len();
            assert(s.skip(n as int) =~= rest);
            lemma_parse_fields_cons(
                s,
                WireFieldView { number, value: WireValueView::Bytes(x) },
                n,
                fields,
            );
        },
        None => {
            assert(Seq::<u8>::empty() + rest =~= rest);
            assert(Seq::<WireFieldView>::empty() + fields =~= fields);
        },
    }
}

/// What the first `n` fields make of an instruction depends on those
/// fields alone.
pub proof fn lemma_merge_all_prefix(
    i: InstructionView,
    a: Seq<WireFieldView>,
    b: Seq<WireFieldView>,
    n: nat,
)
    requires
        n <= a.len(),
        n <= b.len(),
        forall|k: int| 0 <= k < n ==> a[k] == b[k],
    ensures
        spec_instruction_merge_all(i, a, n) == spec_instruction_merge_all(i, b, n),
    decreases n,
{
    if n > 0 {
        lemma_merge_all_prefix(i, a, b, (n - 1) as nat);
    }
}

/// Fields after fields are merged after them.
pub proof fn lemma_merge_all_append(
    i: InstructionView,
    a: Seq<WireFieldView>,
    b: Seq<WireFieldView>,
)
    ensures
        spec_instruction_merge_all(i, a + b, (a + b).len()) == match spec_instruction_merge_all(
            i,
            a,
            a.len(),
        ) {
            Some(acc) => spec_instruction_merge_all(acc, b, b.len()),
            None => None,
        },
    decreases b.len(),
{
    if b.len() == 0 {
        assert(a + b =~= a);
    } else {
        let shorter = b.drop_last();
        lemma_merge_all_append(i, a, shorter);
        lemma_merge_all_prefix(i, a + b, a + shorter, (a + shorter).len());
        assert((a + b)[(a + b).len() - 1] == b.last());
        match spec_instruction_merge_all(i, a, a.len()) {
            Some(acc) => {
                lemma_merge_all_prefix(acc, b, shorter, shorter.len());
            },
            None => {},
        }
    }
}

/// The fields that an instruction is read as.
pub open spec fn spec_instruction_read(i: InstructionView) -> Seq<WireFieldView> {
    spec_optional_varint_read(
        FIELD_PROTOCOL_VERSION,
        match i.protocol_version {
            Some(v) => Some(v as u64),
            None => None,
        },
    ) + spec_optional_varint_read(FIELD_OLD_NUM, i.old_num) + spec_optional_varint_read(
        FIELD_NEW_NUM,
        i.new_num,
    ) + spec_optional_varint_read(FIELD_ACK_NUM, i.ack_num) + spec_optional_varint_read(
        FIELD_THROWAWAY_NUM,
        i.throwaway_num,
    ) + spec_optional_bytes_read(FIELD_DIFF, i.diff) + spec_optional_bytes_read(
        FIELD_CHAFF,
        i.chaff,
    )
}

/// Whether the diff and the chaff of an instruction are short enough for
/// their lengths to be written.
pub open spec fn spec_instruction_fits(i: InstructionView) -> bool {
    &&& i.diff is Some ==> i.diff->Some_0.len() <= u64::MAX
    &&& i.chaff is Some ==> i.chaff->Some_0.len() <= u64::MAX
}

/// An optional varint field alone is read as itself, if it is set.
pub proof fn lemma_parse_optional_varint_alone(number: u32, v: Option<u64>)
    requires
        spec_field_number_ok(number),
    ensures
        spec_parse_fields(spec_optional_varint(number, v)) == Some(
            spec_optional_varint_read(number, v),
        ),
{
    lemma_parse_optional_varint(number, v, Seq::empty(), Seq::empty());
    assert(spec_optional_varint(number, v) + Seq::<u8>::empty() =~= spec_optional_varint(
        number,
        v,
    ));
    assert(spec_optional_varint_read(number, v) + Seq::<WireFieldView>::empty()
        =~= spec_optional_varint_read(number, v));
}

/// An optional length-delimited field alone is read as itself, if it is
/// set.
pub proof fn lemma_parse_optional_bytes_alone(number: u32, v: Option<Seq<u8>>)
    requires
        spec_field_number_ok(number),
        v is Some ==> v->Some_0.len() <= u64::MAX,
    ensures
        spec_parse_fields(spec_optional_bytes(number, v)) == Some(
            spec_optional_bytes_read(number, v),
        ),
{
    lemma_parse_optional_bytes(number, v, Seq::empty(), Seq::empty());
    assert(spec_optional_bytes(number, v) + Seq::<u8>::empty() =~= spec_optional_bytes(
        number,
        v,
    ));
    assert(spec_optional_bytes_read(number, v) + Seq::<WireFieldView>::empty()
        =~= spec_optional_bytes_read(number, v));
}

/// What was written of an instruction is read as its fields.
pub proof fn lemma_instruction_parse(i: InstructionView)
    requires
        spec_instruction_fits(i),
    ensures
        spec_parse_fields(spec_instruction_bytes(i)) == Some(spec_instruction_read(i)),
{
    let version = match i.protocol_version {
        Some(v) => Some(v as u64),
        None => None,
    };
    let b1 = spec_optional_varint(FIELD_PROTOCOL_VERSION, version);
    let b2 = spec_optional_varint(FIELD_OLD_NUM, i.old_num);
    let b3 = spec_optional_varint(FIELD_NEW_NUM, i.new_num);
    let b4 = spec_optional_varint(FIELD_ACK_NUM, i.ack_num);
    let b5 = spec_optional_varint(FIELD_THROWAWAY_NUM, i.throwaway_num);
    let b6 = spec_optional_bytes(FIELD_DIFF, i.diff);
    let b7 = spec_optional_bytes(FIELD_CHAFF, i.chaff);
    lemma_parse_optional_varint_alone(FIELD_PROTOCOL_VERSION, version);
    lemma_parse_optional_varint_alone(FIELD_OLD_NUM, i.old_num);
    lemma_parse_optional_varint_alone(FIELD_NEW_NUM, i.new_num);
    lemma_parse_optional_varint_alone(FIELD_ACK_NUM, i.ack_num);
    lemma_parse_optional_varint_alone(FIELD_THROWAWAY_NUM, i.throwaway_num);
    lemma_parse_optional_bytes_alone(FIELD_DIFF, i.diff);
    lemma_parse_optional_bytes_alone(FIELD_CHAFF, i.chaff);
    lemma_parse_fields_concat(b1, b2);
    lemma_parse_fields_concat(b1 + b2, b3);
    lemma_parse_fields_concat(b1 + b2 + b3, b4);
    lemma_parse_fields_concat(b1 + b2 + b3 + b4, b5);
    lemma_parse_fields_concat(b1 + b2 + b3 + b4 + b5, b6);
    lemma_parse_fields_concat(b1 + b2 + b3 + b4 + b5 + b6, b7);
}

/// An optional field that is well-formed is merged as itself, if it is
/// set.
pub proof fn lemma_merge_optional(acc: InstructionView, fields: Seq<WireFieldView>)
    requires
        fields.len() <= 1,
    ensures
        spec_instruction_merge_all(acc, fields, fields.len()) == if fields.len() == 0 {
            Some(acc)
        } else {
            spec_instruction_merge(acc, fields[0])
        },
{
    reveal_with_fuel(spec_instruction_merge_all, 2);
}

/// The fields of an instruction, merged, give the instruction.
pub proof fn lemma_instruction_merge(i: InstructionView)
    ensures
        spec_instruction_merge_all(
            spec_instruction_default(),
            spec_instruction_read(i),
            spec_instruction_read(i).len(),
        ) == Some(i),
{
    let version = match i.protocol_version {
        Some(v) => Some(v as u64),
        None => None,
    };
    let f7 = spec_optional_bytes_read(FIELD_CHAFF, i.chaff);
    let f6 = spec_optional_bytes_read(FIELD_DIFF, i.diff);
    let f5 = spec_optional_varint_read(FIELD_THROWAWAY_NUM, i.throwaway_num);
    let f4 = spec_optional_varint_read(FIELD_ACK_NUM, i.ack_num);
    let f3 = spec_optional_varint_read(FIELD_NEW_NUM, i.new_num);
    let f2 = spec_optional_varint_read(FIELD_OLD_NUM, i.old_num);
    let f1 = spec_optional_varint_read(FIELD_PROTOCOL_VERSION, version);
    let d = spec_instruction_default();
    let i1 = InstructionView { protocol_version: i.protocol_version, ..d };
    let i2 = InstructionView { old_num: i.old_num, ..i1 };
    let i3 = InstructionView { new_num: i.new_num, ..i2 };
    let i4 = InstructionView { ack_num: i.ack_num, ..i3 };
    let i5 = InstructionView { throwaway_num: i.throwaway_num, ..i4 };
    let i6 = InstructionView { diff: i.diff, ..i5 };
    lemma_merge_optional(d, f1);
    assert(spec_instruction_merge_all(d, f1, f1.len()) == Some(i1)) by {
        if i.protocol_version is Some {
            let v = i.protocol_version->Some_0;
            assert(spec_wire_uint32(v as u64) == v);
        }
    }
    lemma_merge_optional(i1, f2);
    lemma_merge_optional(i2, f3);
    lemma_merge_optional(i3, f4);
    lemma_merge_optional(i4, f5);
    lemma_merge_optional(i5, f6);
    lemma_merge_optional(i6, f7);
    assert(i == (InstructionView { chaff: i.chaff, ..i6 }));
    lemma_merge_all_append(d, f1, f2);
    lemma_merge_all_append(d, f1 + f2, f3);
    lemma_merge_all_append(d, f1 + f2 + f3, f4);
    lemma_merge_all_append(d, f1 + f2 + f3 + f4, f5);
    lemma_merge_all_append(d, f1 + f2 + f3 + f4 + f5, f6);
    lemma_merge_all_append(d, f1 + f2 + f3 + f4 + f5 + f6, f7);
}

/// Reading what was written of an instruction gives the instruction back.
pub proof fn lemma_instruction_roundtrip(i: InstructionView)
    requires
        spec_instruction_fits(i),
    ensures
        spec_instruction_decode(spec_instruction_bytes(i)) == Some(i),
{
    lemma_instruction_parse(i);
    lemma_instruction_merge(i);
}

} // verus!
