//! The client's record: keystrokes and window sizes.
//!
//! A message is a list of instructions in field 1. An instruction holds a
//! keystroke record in field 2, whose field 4 are the octets typed, or a
//! resize record in field 3, whose fields 5 and 6 are width and height.

use crate::bytes::clone_bytes;
use crate::transport::proto::wire::{
    int32_wire, lemma_field_len, lemma_parse_fields_concat, lemma_parse_one_bytes_field,
    lemma_parse_one_varint_field, parse_fields, push_bytes_field, push_varint_field, spec_bytes_field, spec_int32_wire,
    spec_parse_fields, spec_varint_field, spec_wire_int32, wire_int32, DecodeError, WireField,
    WireFieldView, WireValue, WireValueView, spec_field_views,
};
use vstd::prelude::*;

verus! {

/// Field of a message that holds one instruction.
pub const FIELD_INSTRUCTION: u32 = 1;

/// Field of an instruction that holds a keystroke record.
pub const FIELD_KEYSTROKE: u32 = 2;

/// Field of an instruction that holds a resize record.
pub const FIELD_RESIZE: u32 = 3;

/// Field of a keystroke record that holds the octets typed.
pub const FIELD_KEYS: u32 = 4;

/// Field of a resize record that holds the width.
pub const FIELD_WIDTH: u32 = 5;

/// Field of a resize record that holds the height.
pub const FIELD_HEIGHT: u32 = 6;

/// A keystroke record as a mathematical value.
pub struct KeystrokeView {
    pub keys: Option<Seq<u8>>,
}

/// A resize record as a mathematical value.
pub struct ResizeMessageView {
    pub width: Option<i32>,
    pub height: Option<i32>,
}

/// An instruction as a mathematical value.
pub struct InstructionView {
    pub keystroke: Option<KeystrokeView>,
    pub resize: Option<ResizeMessageView>,
}

/// A message as a mathematical value.
pub struct UserMessageView {
    pub instruction: Seq<InstructionView>,
}

/// Octets typed, in order.
#[derive(Debug)]
pub struct Keystroke {
    pub keys: Option<Vec<u8>>,
}

/// A new window size.
#[derive(Debug, Clone, Copy)]
pub struct ResizeMessage {
    pub width: Option<i32>,
    pub height: Option<i32>,
}

/// One step of user input.
#[derive(Debug)]
pub struct Instruction {
    pub keystroke: Option<Keystroke>,
    pub resize: Option<ResizeMessage>,
}

/// A list of steps of user input.
#[derive(Debug)]
pub struct UserMessage {
    pub instruction: Vec<Instruction>,
}

impl View for Keystroke {
    type V = KeystrokeView;

    open spec fn view(&self) -> KeystrokeView {
        KeystrokeView {
            keys: match self.keys {
                Some(k) => Some(k@),
                None => None,
            },
        }
    }
}

impl View for ResizeMessage {
    type V = ResizeMessageView;

    open spec fn view(&self) -> ResizeMessageView {
        ResizeMessageView { width: self.width, height: self.height }
    }
}

impl View for Instruction {
    type V = InstructionView;

    open spec fn view(&self) -> InstructionView {
        InstructionView {
            keystroke: match self.keystroke {
                Some(k) => Some(k@),
                None => None,
            },
            resize: match self.resize {
                Some(r) => Some(r@),
                None => None,
            },
        }
    }
}

/// The values of a list of instructions.
pub open spec fn spec_instruction_views(list: Seq<Instruction>) -> Seq<InstructionView> {
    Seq::new(list.len(), |i: int| list[i]@)
}

impl View for UserMessage {
    type V = UserMessageView;

    open spec fn view(&self) -> UserMessageView {
        UserMessageView { instruction: spec_instruction_views(self.instruction@) }
    }
}

/// The octets of a keystroke record.
pub open spec fn spec_keystroke_bytes(k: KeystrokeView) -> Seq<u8> {
    match k.keys {
        Some(keys) => spec_bytes_field(FIELD_KEYS, keys),
        None => Seq::empty(),
    }
}

/// The octets of a resize record.
pub open spec fn spec_resize_bytes(r: ResizeMessageView) -> Seq<u8> {
    (match r.width {
        Some(w) => spec_varint_field(FIELD_WIDTH, spec_int32_wire(w)),
        None => Seq::empty(),
    }) + (match r.height {
        Some(h) => spec_varint_field(FIELD_HEIGHT, spec_int32_wire(h)),
        None => Seq::empty(),
    })
}

/// The octets of an instruction.
pub open spec fn spec_instruction_bytes(i: InstructionView) -> Seq<u8> {
    (match i.keystroke {
        Some(k) => spec_bytes_field(FIELD_KEYSTROKE, spec_keystroke_bytes(k)),
        None => Seq::empty(),
    }) + (match i.resize {
        Some(r) => spec_bytes_field(FIELD_RESIZE, spec_resize_bytes(r)),
        None => Seq::empty(),
    })
}

/// The octets of the first `n` instructions of a list, each as field 1.
pub open spec fn spec_instructions_bytes(list: Seq<InstructionView>, n: nat) -> Seq<u8>
    decreases n,
{
    if n == 0 {
        Seq::empty()
    } else {
        spec_instructions_bytes(list, (n - 1) as nat) + spec_bytes_field(
            FIELD_INSTRUCTION,
            spec_instruction_bytes(list[n - 1]),
        )
    }
}

/// The octets of a message.
pub open spec fn spec_user_message_bytes(m: UserMessageView) -> Seq<u8> {
    spec_instructions_bytes(m.instruction, m.instruction.len())
}

/// The record with no field set.
pub open spec fn spec_keystroke_default() -> KeystrokeView {
    KeystrokeView { keys: None }
}

/// The record with no field set.
pub open spec fn spec_resize_default() -> ResizeMessageView {
    ResizeMessageView { width: None, height: None }
}

/// The record with no field set.
pub open spec fn spec_instruction_default() -> InstructionView {
    InstructionView { keystroke: None, resize: None }
}

/// A keystroke record after one more field. A later field 4 replaces an
/// earlier one; other fields are passed over.
pub open spec fn spec_keystroke_merge(k: KeystrokeView, f: WireFieldView) -> Option<
    KeystrokeView,
> {
    if f.number == FIELD_KEYS {
        match f.value {
            WireValueView::Bytes(b) => Some(KeystrokeView { keys: Some(b) }),
            _ => None,
        }
    } else {
        Some(k)
    }
}

/// A keystroke record after the first `n` of `fields`.
pub open spec fn spec_keystroke_merge_all(
    k: KeystrokeView,
    fields: Seq<WireFieldView>,
    n: nat,
) -> Option<KeystrokeView>
    decreases n,
{
    if n == 0 {
        Some(k)
    } else {
        match spec_keystroke_merge_all(k, fields, (n - 1) as nat) {
            Some(acc) => spec_keystroke_merge(acc, fields[n - 1]),
            None => None,
        }
    }
}

/// A resize record after one more field.
pub open spec fn spec_resize_merge(r: ResizeMessageView, f: WireFieldView) -> Option<
    ResizeMessageView,
> {
    if f.number == FIELD_WIDTH {
        match f.value {
            WireValueView::Varint(v) => Some(
                ResizeMessageView { width: Some(spec_wire_int32(v)), height: r.height },
            ),
            _ => None,
        }
    } else if f.number == FIELD_HEIGHT {
        match f.value {
            WireValueView::Varint(v) => Some(
                ResizeMessageView { width: r.width, height: Some(spec_wire_int32(v)) },
            ),
            _ => None,
        }
    } else {
        Some(r)
    }
}

/// A resize record after the first `n` of `fields`.
pub open spec fn spec_resize_merge_all(
    r: ResizeMessageView,
    fields: Seq<WireFieldView>,
    n: nat,
) -> Option<ResizeMessageView>
    decreases n,
{
    if n == 0 {
        Some(r)
    } else {
        match spec_resize_merge_all(r, fields, (n - 1) as nat) {
            Some(acc) => spec_resize_merge(acc, fields[n - 1]),
            None => None,
        }
    }
}

/// A keystroke record after the fields that `body` holds.
pub open spec fn spec_keystroke_merge_bytes(k: KeystrokeView, body: Seq<u8>) -> Option<
    KeystrokeView,
> {
    match spec_parse_fields(body) {
        Some(fields) => spec_keystroke_merge_all(k, fields, fields.len()),
        None => None,
    }
}

/// A resize record after the fields that `body` holds.
pub open spec fn spec_resize_merge_bytes(r: ResizeMessageView, body: Seq<u8>) -> Option<
    ResizeMessageView,
> {
    match spec_parse_fields(body) {
        Some(fields) => spec_resize_merge_all(r, fields, fields.len()),
        None => None,
    }
}

/// An instruction after one more field. A record that comes a second time
/// is merged into the first.
pub open spec fn spec_instruction_merge(i: InstructionView, f: WireFieldView) -> Option<
    InstructionView,
> {
    if f.number == FIELD_KEYSTROKE {
        match f.value {
            WireValueView::Bytes(b) => match spec_keystroke_merge_bytes(
                match i.keystroke {
                    Some(k) => k,
                    None => spec_keystroke_default(),
                },
                b,
            ) {
                Some(k) => Some(InstructionView { keystroke: Some(k), resize: i.resize }),
                None => None,
            },
            _ => None,
        }
    } else if f.number == FIELD_RESIZE {
        match f.value {
            WireValueView::Bytes(b) => match spec_resize_merge_bytes(
                match i.resize {
                    Some(r) => r,
                    None => spec_resize_default(),
                },
                b,
            ) {
                Some(r) => Some(InstructionView { keystroke: i.keystroke, resize: Some(r) }),
                None => None,
            },
            _ => None,
        }
    } else {
        Some(i)
    }
}

/// An instruction after the first `n` of `fields`.
pub open spec fn spec_instruction_merge_all(
    i: InstructionView,
    fields: Seq<WireFieldView>,
    n: nat,
) -> Option<InstructionView>
    decreases n,
{
    if n == 0 {
        Some(i)
    } else {
        match spec_instruction_merge_all(i, fields, (n - 1) as nat) {
            Some(acc) => spec_instruction_merge(acc, fields[n - 1]),
            None => None,
        }
    }
}

/// The instruction that `body` holds.
pub open spec fn spec_instruction_decode(body: Seq<u8>) -> Option<InstructionView> {
    match spec_parse_fields(body) {
        Some(fields) => spec_instruction_merge_all(
            spec_instruction_default(),
            fields,
            fields.len(),
        ),
        None => None,
    }
}

/// A message after one more field: each field 1 adds an instruction.
pub open spec fn spec_user_message_merge(m: UserMessageView, f: WireFieldView) -> Option<
    UserMessageView,
> {
    if f.number == FIELD_INSTRUCTION {
        match f.value {
            WireValueView::Bytes(b) => match spec_instruction_decode(b) {
                Some(i) => Some(UserMessageView { instruction: m.instruction.push(i) }),
                None => None,
            },
            _ => None,
        }
    } else {
        Some(m)
    }
}

/// A message after the first `n` of `fields`.
pub open spec fn spec_user_message_merge_all(
    m: UserMessageView,
    fields: Seq<WireFieldView>,
    n: nat,
) -> Option<UserMessageView>
    decreases n,
{
    if n == 0 {
        Some(m)
    } else {
        match spec_user_message_merge_all(m, fields, (n - 1) as nat) {
            Some(acc) => spec_user_message_merge(acc, fields[n - 1]),
            None => None,
        }
    }
}

/// The message that `data` holds; `None` where it is malformed.
pub open spec fn spec_user_message_decode(data: Seq<u8>) -> Option<UserMessageView> {
    match spec_parse_fields(data) {
        Some(fields) => spec_user_message_merge_all(
            UserMessageView { instruction: Seq::empty() },
            fields,
            fields.len(),
        ),
        None => None,
    }
}

impl Clone for Keystroke {
    fn clone(&self) -> (copy: Self)
        ensures
            copy@ == self@,
    {
        Keystroke {
            keys: match &self.keys {
                Some(k) => Some(clone_bytes(k.as_slice())),
                None => None,
            },
        }
    }
}

impl Clone for Instruction {
    fn clone(&self) -> (copy: Self)
        ensures
            copy@ == self@,
    {
        Instruction {
            keystroke: match &self.keystroke {
                Some(k) => Some(k.clone()),
                None => None,
            },
            resize: self.resize,
        }
    }
}

impl Keystroke {
    /// Writes the record.
    pub fn encode_to_vec(&self) -> (out: Vec<u8>)
        ensures
            out@ == spec_keystroke_bytes(self@),
    {
        let mut out: Vec<u8> = Vec::new();
        match &self.keys {
            Some(keys) => {
                push_bytes_field(&mut out, FIELD_KEYS, keys.as_slice());
            },
            None => {},
        }
        assert(out@ =~= spec_keystroke_bytes(self@));
        out
    }

    /// The record after the given fields.
    fn merge_fields(self, fields: &Vec<WireField>) -> (merged: Option<Keystroke>)
        ensures
            match merged {
                Some(k) => spec_keystroke_merge_all(
                    self@,
                    spec_field_views(fields@),
                    fields@.len(),
                ) == Some(k@),
                None => spec_keystroke_merge_all(
                    self@,
                    spec_field_views(fields@),
                    fields@.len(),
                ).is_none(),
            },
    {
        let ghost start = self@;
        let ghost views = spec_field_views(fields@);
        let mut acc = self;
        let mut failed = false;
        let mut i: usize = 0;
        while i < fields.len()
            invariant
                i <= fields@.len(),
                views == spec_field_views(fields@),
                spec_keystroke_merge_all(start, views, i as nat) == if failed {
                    None
                } else {
                    Some(acc@)
                },
            decreases fields@.len() - i,
        {
            let f = &fields[i];
            assert(views[i as int] == f@);
            if !failed && f.number == FIELD_KEYS {
                match &f.value {
                    WireValue::Bytes(b) => {
                        acc = Keystroke { keys: Some(clone_bytes(b.as_slice())) };
                    },
                    _ => {
                        failed = true;
                    },
                }
            }
            i = i + 1;
        }
        if failed {
            None
        } else {
            Some(acc)
        }
    }

    /// The record after the fields that `body` holds.
    fn merge_bytes(self, body: &[u8]) -> (merged: Option<Keystroke>)
        ensures
            match merged {
                Some(k) => spec_keystroke_merge_bytes(self@, body@) == Some(k@),
                None => spec_keystroke_merge_bytes(self@, body@).is_none(),
            },
    {
        match parse_fields(body) {
            Some(fields) => self.merge_fields(&fields),
            None => None,
        }
    }
}

impl ResizeMessage {
    /// Writes the record.
    pub fn encode_to_vec(&self) -> (out: Vec<u8>)
        ensures
            out@ == spec_resize_bytes(self@),
    {
        let mut out: Vec<u8> = Vec::new();
        match self.width {
            Some(w) => {
                push_varint_field(&mut out, FIELD_WIDTH, int32_wire(w));
            },
            None => {},
        }
        match self.height {
            Some(h) => {
                push_varint_field(&mut out, FIELD_HEIGHT, int32_wire(h));
            },
            None => {},
        }
        assert(out@ =~= spec_resize_bytes(self@));
        out
    }

    /// The record after the given fields.
    fn merge_fields(self, fields: &Vec<WireField>) -> (merged: Option<ResizeMessage>)
        ensures
            match merged {
                Some(r) => spec_resize_merge_all(self@, spec_field_views(fields@), fields@.len())
                    == Some(r@),
                None => spec_resize_merge_all(
                    self@,
                    spec_field_views(fields@),
                    fields@.len(),
                ).is_none(),
            },
    {
        let ghost start = self@;
        let ghost views = spec_field_views(fields@);
        let mut acc = self;
        let mut failed = false;
        let mut i: usize = 0;
        while i < fields.len()
            invariant
                i <= fields@.len(),
                views == spec_field_views(fields@),
                spec_resize_merge_all(start, views, i as nat) == if failed {
                    None
                } else {
                    Some(acc@)
                },
            decreases fields@.len() - i,
        {
            let f = &fields[i];
            assert(views[i as int] == f@);
            if !failed && f.number == FIELD_WIDTH {
                match &f.value {
                    WireValue::Varint(v) => {
                        acc = ResizeMessage { width: Some(wire_int32(*v)), height: acc.height };
                    },
                    _ => {
                        failed = true;
                    },
                }
            } else if !failed && f.number == FIELD_HEIGHT {
                match &f.value {
                    WireValue::Varint(v) => {
                        acc = ResizeMessage { width: acc.width, height: Some(wire_int32(*v)) };
                    },
                    _ => {
                        failed = true;
                    },
                }
            }
            i = i + 1;
        }
        if failed {
            None
        } else {
            Some(acc)
        }
    }

    /// The record after the fields that `body` holds.
    pub fn merge_bytes(self, body: &[u8]) -> (merged: Option<ResizeMessage>)
        ensures
            match merged {
                Some(r) => spec_resize_merge_bytes(self@, body@) == Some(r@),
                None => spec_resize_merge_bytes(self@, body@).is_none(),
            },
    {
        match parse_fields(body) {
            Some(fields) => self.merge_fields(&fields),
            None => None,
        }
    }
}

impl Instruction {
    /// Writes the instruction.
    pub fn encode_to_vec(&self) -> (out: Vec<u8>)
        ensures
            out@ == spec_instruction_bytes(self@),
    {
        let mut out: Vec<u8> = Vec::new();
        match &self.keystroke {
            Some(k) => {
                let body = k.encode_to_vec();
                push_bytes_field(&mut out, FIELD_KEYSTROKE, body.as_slice());
            },
            None => {},
        }
        match &self.resize {
            Some(r) => {
                let body = r.encode_to_vec();
                push_bytes_field(&mut out, FIELD_RESIZE, body.as_slice());
            },
            None => {},
        }
        assert(out@ =~= spec_instruction_bytes(self@));
        out
    }

    /// The instruction after one more field.
    fn merge_field(self, f: &WireField) -> (merged: Option<Instruction>)
        ensures
            match merged {
                Some(i) => spec_instruction_merge(self@, f@) == Some(i@),
                None => spec_instruction_merge(self@, f@).is_none(),
            },
    {
        if f.number == FIELD_KEYSTROKE {
            match &f.value {
                WireValue::Bytes(b) => {
                    let Instruction { keystroke, resize } = self;
                    let base = match keystroke {
                        Some(k) => k,
                        None => Keystroke { keys: None },
                    };
                    match base.merge_bytes(b.as_slice()) {
                        Some(k) => Some(Instruction { keystroke: Some(k), resize }),
                        None => None,
                    }
                },
                _ => None,
            }
        } else if f.number == FIELD_RESIZE {
            match &f.value {
                WireValue::Bytes(b) => {
                    let Instruction { keystroke, resize } = self;
                    let base = match resize {
                        Some(r) => r,
                        None => ResizeMessage { width: None, height: None },
                    };
                    match base.merge_bytes(b.as_slice()) {
                        Some(r) => Some(Instruction { keystroke, resize: Some(r) }),
                        None => None,
                    }
                },
                _ => None,
            }
        } else {
            Some(self)
        }
    }

    /// Reads an instruction.
    pub fn decode(body: &[u8]) -> (read: Result<Instruction, DecodeError>)
        ensures
            match read {
                Ok(i) => spec_instruction_decode(body@) == Some(i@),
                Err(_) => spec_instruction_decode(body@).is_none(),
            },
    {
        let fields = match parse_fields(body) {
            Some(fields) => fields,
            None => {
                return Err(DecodeError);
            },
        };
        let ghost views = spec_field_views(fields@);
        let mut acc: Option<Instruction> = Some(Instruction { keystroke: None, resize: None });
        let mut i: usize = 0;
        while i < fields.len()
            invariant
                i <= fields@.len(),
                views == spec_field_views(fields@),
                match acc {
                    Some(a) => spec_instruction_merge_all(
                        spec_instruction_default(),
                        views,
                        i as nat,
                    ) == Some(a@),
                    None => spec_instruction_merge_all(
                        spec_instruction_default(),
                        views,
                        i as nat,
                    ).is_none(),
                },
            decreases fields@.len() - i,
        {
            assert(views[i as int] == fields@[i as int]@);
            acc = match acc {
                Some(a) => a.merge_field(&fields[i]),
                None => None,
            };
            i = i + 1;
        }
        match acc {
            Some(a) => Ok(a),
            None => Err(DecodeError),
        }
    }
}

impl UserMessage {
    /// Writes the message.
    pub fn encode_to_vec(&self) -> (out: Vec<u8>)
        ensures
            out@ == spec_user_message_bytes(self@),
    {
        let mut out: Vec<u8> = Vec::new();
        let mut i: usize = 0;
        let ghost list = self@.instruction;
        while i < self.instruction.len()
            invariant
                i <= self.instruction@.len(),
                list == self@.instruction,
                out@ == spec_instructions_bytes(list, i as nat),
            decreases self.instruction@.len() - i,
        {
            let body = self.instruction[i].encode_to_vec();
            assert(list[i as int] == self.instruction@[i as int]@);
            push_bytes_field(&mut out, FIELD_INSTRUCTION, body.as_slice());
            i = i + 1;
        }
        out
    }

    /// Reads a message; fails where the octets are malformed.
    pub fn decode(data: &[u8]) -> (read: Result<UserMessage, DecodeError>)
        ensures
            match read {
                Ok(m) => spec_user_message_decode(data@) == Some(m@),
                Err(_) => spec_user_message_decode(data@).is_none(),
            },
    {
        let fields = match parse_fields(data) {
            Some(fields) => fields,
            None => {
                return Err(DecodeError);
            },
        };
        let ghost views = spec_field_views(fields@);
        let ghost start = UserMessageView { instruction: Seq::empty() };
        let mut list: Vec<Instruction> = Vec::new();
        let mut failed = false;
        let mut i: usize = 0;
        assert(spec_instruction_views(list@) =~= Seq::empty());
        while i < fields.len()
            invariant
                i <= fields@.len(),
                views == spec_field_views(fields@),
                start == (UserMessageView { instruction: Seq::empty() }),
                spec_user_message_merge_all(start, views, i as nat) == if failed {
                    None
                } else {
                    Some(UserMessageView { instruction: spec_instruction_views(list@) })
                },
            decreases fields@.len() - i,
        {
            let f = &fields[i];
            assert(views[i as int] == f@);
            if !failed && f.number == FIELD_INSTRUCTION {
                match &f.value {
                    WireValue::Bytes(b) => {
                        match Instruction::decode(b.as_slice()) {
                            Ok(inst) => {
                                let ghost before = spec_instruction_views(list@);
                                let ghost iv = inst@;
                                list.push(inst);
                                assert(spec_instruction_views(list@) =~= before.push(iv));
                            },
                            Err(_) => {
                                failed = true;
                            },
                        }
                    },
                    _ => {
                        failed = true;
                    },
                }
            }
            i = i + 1;
        }
        if failed {
            Err(DecodeError)
        } else {
            Ok(UserMessage { instruction: list })
        }
    }
}

/// Reading what was written of a keystroke record gives the record back.
pub proof fn lemma_keystroke_roundtrip(k: KeystrokeView)
    requires
        k.keys is Some ==> k.keys->Some_0.len() <= u64::MAX,
    ensures
        spec_keystroke_merge_bytes(spec_keystroke_default(), spec_keystroke_bytes(k)) == Some(k),
        k.keys is Some ==> spec_keystroke_bytes(k).len() <= k.keys->Some_0.len() + 20,
        k.keys is None ==> spec_keystroke_bytes(k).len() == 0,
{
    reveal_with_fuel(spec_keystroke_merge_all, 2);
    match k.keys {
        Some(keys) => {
            lemma_parse_one_bytes_field(FIELD_KEYS, keys);
            lemma_field_len(FIELD_KEYS, 0, keys);
        },
        None => {
            assert(spec_parse_fields(Seq::<u8>::empty()) == Some(Seq::<WireFieldView>::empty()));
        },
    }
}

/// Reading what was written of a resize record gives the record back.
pub proof fn lemma_resize_roundtrip(r: ResizeMessageView)
    ensures
        spec_resize_merge_bytes(spec_resize_default(), spec_resize_bytes(r)) == Some(r),
        spec_resize_bytes(r).len() <= 40,
{
    reveal_with_fuel(spec_resize_merge_all, 3);
    let empty = Seq::<u8>::empty();
    assert(spec_parse_fields(empty) == Some(Seq::<WireFieldView>::empty()));
    let wide = match r.width {
        Some(w) => spec_varint_field(FIELD_WIDTH, spec_int32_wire(w)),
        None => empty,
    };
    let high = match r.height {
        Some(h) => spec_varint_field(FIELD_HEIGHT, spec_int32_wire(h)),
        None => empty,
    };
    match r.width {
        Some(w) => {
            lemma_parse_one_varint_field(FIELD_WIDTH, spec_int32_wire(w));
            lemma_field_len(FIELD_WIDTH, spec_int32_wire(w), empty);
            assert(spec_wire_int32(spec_int32_wire(w)) == w);
        },
        None => {},
    }
    match r.height {
        Some(h) => {
            lemma_parse_one_varint_field(FIELD_HEIGHT, spec_int32_wire(h));
            lemma_field_len(FIELD_HEIGHT, spec_int32_wire(h), empty);
            assert(spec_wire_int32(spec_int32_wire(h)) == h);
        },
        None => {},
    }
    lemma_parse_fields_concat(wide, high);
    let fields = spec_parse_fields(wide + high)->Some_0;
    assert(fields =~= spec_parse_fields(wide)->Some_0 + spec_parse_fields(high)->Some_0);
}

/// Reading what was written of an instruction gives the instruction
/// back, where what was written has a length that can be written.
pub proof fn lemma_instruction_roundtrip(i: InstructionView)
    requires
        spec_instruction_bytes(i).len() <= u64::MAX,
    ensures
        spec_instruction_decode(spec_instruction_bytes(i)) == Some(i),
{
    reveal_with_fuel(spec_instruction_merge_all, 3);
    let empty = Seq::<u8>::empty();
    assert(spec_parse_fields(empty) == Some(Seq::<WireFieldView>::empty()));
    let first = match i.keystroke {
        Some(k) => spec_bytes_field(FIELD_KEYSTROKE, spec_keystroke_bytes(k)),
        None => empty,
    };
    let second = match i.resize {
        Some(r) => spec_bytes_field(FIELD_RESIZE, spec_resize_bytes(r)),
        None => empty,
    };
    match i.keystroke {
        Some(k) => {
            lemma_keystroke_roundtrip(k);
            lemma_parse_one_bytes_field(FIELD_KEYSTROKE, spec_keystroke_bytes(k));
            lemma_field_len(FIELD_KEYSTROKE, 0, spec_keystroke_bytes(k));
        },
        None => {},
    }
    match i.resize {
        Some(r) => {
            lemma_resize_roundtrip(r);
            lemma_parse_one_bytes_field(FIELD_RESIZE, spec_resize_bytes(r));
            lemma_field_len(FIELD_RESIZE, 0, spec_resize_bytes(r));
        },
        None => {},
    }
    lemma_parse_fields_concat(first, second);
    let fields = spec_parse_fields(first + second)->Some_0;
    assert(fields =~= spec_parse_fields(first)->Some_0 + spec_parse_fields(second)->Some_0);
}

/// What the first `n` fields make of a message depends on those fields
/// alone.
pub proof fn lemma_user_message_merge_prefix(
    m: UserMessageView,
    a: Seq<WireFieldView>,
    b: Seq<WireFieldView>,
    n: nat,
)
    requires
        n <= a.len(),
        n <= b.len(),
        forall|j: int| 0 <= j < n ==> a[j] == b[j],
    ensures
        spec_user_message_merge_all(m, a, n) == spec_user_message_merge_all(m, b, n),
    decreases n,
{
    if n > 0 {
        lemma_user_message_merge_prefix(m, a, b, (n - 1) as nat);
    }
}

/// The fields that the first `n` instructions of a list are written as.
pub open spec fn spec_instruction_fields(list: Seq<InstructionView>, n: nat) -> Seq<
    WireFieldView,
> {
    Seq::new(
        n,
        |j: int|
            WireFieldView {
                number: FIELD_INSTRUCTION,
                value: WireValueView::Bytes(spec_instruction_bytes(list[j])),
            },
    )
}

/// The octets written for the first `n` instructions hold one field for
/// each.
pub proof fn lemma_instructions_parse(list: Seq<InstructionView>, n: nat)
    requires
        n <= list.len(),
        forall|j: int|
            0 <= j < list.len() ==> (#[trigger] spec_instruction_bytes(list[j])).len()
                <= u64::MAX,
    ensures
        spec_parse_fields(spec_instructions_bytes(list, n)) == Some(
            spec_instruction_fields(list, n),
        ),
    decreases n,
{
    if n == 0 {
        assert(spec_instruction_fields(list, 0) =~= Seq::empty());
    } else {
        let j = (n - 1) as nat;
        lemma_instructions_parse(list, j);
        let body = spec_instruction_bytes(list[j as int]);
        let head = spec_instructions_bytes(list, j);
        let tail = spec_bytes_field(FIELD_INSTRUCTION, body);
        lemma_parse_one_bytes_field(FIELD_INSTRUCTION, body);
        lemma_parse_fields_concat(head, tail);
        let f = WireFieldView { number: FIELD_INSTRUCTION, value: WireValueView::Bytes(body) };
        assert(spec_instruction_fields(list, j) + seq![f] =~= spec_instruction_fields(list, n));
        assert(spec_instructions_bytes(list, n) == head + tail);
    }
}

/// The fields written for the first `n` instructions make a message of
/// those instructions.
pub proof fn lemma_instructions_merge(list: Seq<InstructionView>, n: nat)
    requires
        n <= list.len(),
        forall|j: int|
            0 <= j < list.len() ==> #[trigger] spec_instruction_decode(
                spec_instruction_bytes(list[j]),
            ) == Some(list[j]),
    ensures
        spec_user_message_merge_all(
            UserMessageView { instruction: Seq::empty() },
            spec_instruction_fields(list, n),
            n,
        ) == Some(UserMessageView { instruction: list.take(n as int) }),
    decreases n,
{
    let start = UserMessageView { instruction: Seq::empty() };
    if n == 0 {
        assert(list.take(0) =~= Seq::empty());
    } else {
        let j = (n - 1) as nat;
        lemma_instructions_merge(list, j);
        let inst = list[j as int];
        let body = spec_instruction_bytes(inst);
        let fields = spec_instruction_fields(list, n);
        lemma_user_message_merge_prefix(start, fields, spec_instruction_fields(list, j), j);
        let before = UserMessageView { instruction: list.take(j as int) };
        assert(spec_user_message_merge_all(start, fields, j) == Some(before));
        assert(fields[j as int] == (WireFieldView {
            number: FIELD_INSTRUCTION,
            value: WireValueView::Bytes(body),
        }));
        assert(spec_instruction_decode(body) == Some(inst));
        assert(spec_user_message_merge(before, fields[j as int]) == Some(
            UserMessageView { instruction: before.instruction.push(inst) },
        ));
        assert(list.take(j as int).push(inst) =~= list.take(n as int));
    }
}

/// What was written of a message is at least as long as what was written
/// of each of its instructions.
pub proof fn lemma_instructions_len(list: Seq<InstructionView>, n: nat, j: int)
    requires
        0 <= j < n <= list.len(),
    ensures
        spec_instruction_bytes(list[j]).len() <= spec_instructions_bytes(list, n).len(),
    decreases n,
{
    if j < n - 1 {
        lemma_instructions_len(list, (n - 1) as nat, j);
    }
}

/// Reading what was written of a message gives the message back, where
/// what was written has a length that can be written: as every message
/// has that is held in memory.
pub proof fn lemma_user_message_roundtrip(m: UserMessageView)
    requires
        spec_user_message_bytes(m).len() <= u64::MAX,
    ensures
        spec_user_message_decode(spec_user_message_bytes(m)) == Some(m),
{
    let list = m.instruction;
    assert forall|j: int| 0 <= j < list.len() implies (#[trigger] spec_instruction_bytes(
        list[j],
    )).len() <= u64::MAX && spec_instruction_decode(spec_instruction_bytes(list[j])) == Some(
        list[j],
    ) by {
        lemma_instructions_len(list, list.len(), j);
        lemma_instruction_roundtrip(list[j]);
    }
    lemma_instructions_parse(list, list.len());
    lemma_instructions_merge(list, list.len());
    assert(list.take(list.len() as int) =~= list);
}

} // verus!
