//! The server's record: terminal output, window sizes and echo
//! acknowledgements.
//!
//! A message is a list of instructions in field 1. An instruction holds
//! host octets in field 2 (the octets in its field 4), a resize record in
//! field 3 (width and height in fields 5 and 6), an echo acknowledgement in
//! field 7 (the number in its field 8), or several of these.

use crate::bytes::clone_bytes;
use crate::transport::proto::userinput;
use crate::transport::proto::userinput::{
    lemma_resize_roundtrip, spec_resize_bytes, spec_resize_default, spec_resize_merge_bytes,
    ResizeMessageView,
};
use crate::transport::proto::wire::{
    lemma_field_len, lemma_parse_fields_concat, lemma_parse_one_bytes_field,
    lemma_parse_one_varint_field, parse_fields, push_bytes_field, push_varint_field,
    spec_bytes_field, spec_field_views, spec_parse_fields, spec_varint_field, DecodeError,
    WireField, WireFieldView, WireValue, WireValueView,
};
use vstd::prelude::*;

verus! {

/// Field of a message that holds one instruction.
pub const FIELD_INSTRUCTION: u32 = 1;

/// Field of an instruction that holds host octets.
pub const FIELD_HOSTBYTES: u32 = 2;

/// Field of an instruction that holds a resize record.
pub const FIELD_RESIZE: u32 = 3;

/// Field of a host-octets record that holds the octets.
pub const FIELD_HOSTSTRING: u32 = 4;

/// Field of an instruction that holds an echo acknowledgement.
pub const FIELD_ECHOACK: u32 = 7;

/// Field of an echo acknowledgement that holds the number.
pub const FIELD_ECHO_ACK_NUM: u32 = 8;

/// Host octets as a mathematical value.
pub struct HostBytesView {
    pub hoststring: Option<Seq<u8>>,
}

/// An echo acknowledgement as a mathematical value.
pub struct EchoAckView {
    pub echo_ack_num: Option<u64>,
}

/// An instruction as a mathematical value.
pub struct InstructionView {
    pub hostbytes: Option<HostBytesView>,
    pub resize: Option<ResizeMessageView>,
    pub echoack: Option<EchoAckView>,
}

/// A message as a mathematical value.
pub struct HostMessageView {
    pub instruction: Seq<InstructionView>,
}

/// Octets that the host wrote to the terminal.
#[derive(Debug)]
pub struct HostBytes {
    pub hoststring: Option<Vec<u8>>,
}

/// A new window size.
#[derive(Debug, Clone, Copy)]
pub struct ResizeMessage {
    pub width: Option<i32>,
    pub height: Option<i32>,
}

/// The latest state of user input whose effect the terminal shows.
#[derive(Debug, Clone, Copy)]
pub struct EchoAck {
    pub echo_ack_num: Option<u64>,
}

/// One step of the host's output.
#[derive(Debug)]
pub struct Instruction {
    pub hostbytes: Option<HostBytes>,
    pub resize: Option<ResizeMessage>,
    pub echoack: Option<EchoAck>,
}

/// A list of steps of the host's output.
#[derive(Debug)]
pub struct HostMessage {
    pub instruction: Vec<Instruction>,
}

impl View for HostBytes {
    type V = HostBytesView;

    open spec fn view(&self) -> HostBytesView {
        HostBytesView {
            hoststring: match self.hoststring {
                Some(b) => Some(b@),
                None => None,
            },
        }
    }
}

impl View for ResizeMessage {
    type V = ResizeMessageView;

    open spec fn view(&self) -> ResizeMessageView {
        ResizeMessageView { width: self.width, height: self.height }
    }
}

impl View for EchoAck {
    type V = EchoAckView;

    open spec fn view(&self) -> EchoAckView {
        EchoAckView { echo_ack_num: self.echo_ack_num }
    }
}

impl View for Instruction {
    type V = InstructionView;

    open spec fn view(&self) -> InstructionView {
        InstructionView {
            hostbytes: match self.hostbytes {
                Some(h) => Some(h@),
                None => None,
            },
            resize: match self.resize {
                Some(r) => Some(r@),
                None => None,
            },
            echoack: match self.echoack {
                Some(e) => Some(e@),
                None => None,
            },
        }
    }
}

/// The values of a list of instructions.
pub open spec fn spec_instruction_views(list: Seq<Instruction>) -> Seq<InstructionView> {
    Seq::new(list.len(), |i: int| list[i]@)
}

impl View for HostMessage {
    type V = HostMessageView;

    open spec fn view(&self) -> HostMessageView {
        HostMessageView { instruction: spec_instruction_views(self.instruction@) }
    }
}

/// The octets of a host-octets record.
pub open spec fn spec_hostbytes_bytes(h: HostBytesView) -> Seq<u8> {
    match h.hoststring {
        Some(b) => spec_bytes_field(FIELD_HOSTSTRING, b),
        None => Seq::empty(),
    }
}

/// The octets of an echo acknowledgement.
pub open spec fn spec_echoack_bytes(e: EchoAckView) -> Seq<u8> {
    match e.echo_ack_num {
        Some(n) => spec_varint_field(FIELD_ECHO_ACK_NUM, n),
        None => Seq::empty(),
    }
}

/// The octets of an instruction.
pub open spec fn spec_instruction_bytes(i: InstructionView) -> Seq<u8> {
    (match i.hostbytes {
        Some(h) => spec_bytes_field(FIELD_HOSTBYTES, spec_hostbytes_bytes(h)),
        None => Seq::empty(),
    }) + (match i.resize {
        Some(r) => spec_bytes_field(FIELD_RESIZE, spec_resize_bytes(r)),
        None => Seq::empty(),
    }) + (match i.echoack {
        Some(e) => spec_bytes_field(FIELD_ECHOACK, spec_echoack_bytes(e)),
        None => Seq::empty(),
    })
}

/// The octets of the first `n` instructions of a list, each as field 1.
pub open spec fn spec_instructions_bytes(list: Seq<InstructionView>, n: nat) -> Seq<u8>
    decreases n,
{
    if n == 0 {
        Seq::empty()
    } else {
        spec_instructions_bytes(list, (n - 1) as nat) + spec_bytes_field(
            FIELD_INSTRUCTION,
            spec_instruction_bytes(list[n - 1]),
        )
    }
}

/// The octets of a message.
pub open spec fn spec_host_message_bytes(m: HostMessageView) -> Seq<u8> {
    spec_instructions_bytes(m.instruction, m.instruction.len())
}

/// A host-octets record after one more field.
pub open spec fn spec_hostbytes_merge(h: HostBytesView, f: WireFieldView) -> Option<HostBytesView> {
    if f.number == FIELD_HOSTSTRING {
        match f.value {
            WireValueView::Bytes(b) => Some(HostBytesView { hoststring: Some(b) }),
            _ => None,
        }
    } else {
        Some(h)
    }
}

/// A host-octets record after the first `n` of `fields`.
pub open spec fn spec_hostbytes_merge_all(
    h: HostBytesView,
    fields: Seq<WireFieldView>,
    n: nat,
) -> Option<HostBytesView>
    decreases n,
{
    if n == 0 {
        Some(h)
    } else {
        match spec_hostbytes_merge_all(h, fields, (n - 1) as nat) {
            Some(acc) => spec_hostbytes_merge(acc, fields[n - 1]),
            None => None,
        }
    }
}

/// A host-octets record after the fields that `body` holds.
pub open spec fn spec_hostbytes_merge_bytes(h: HostBytesView, body: Seq<u8>) -> Option<
    HostBytesView,
> {
    match spec_parse_fields(body) {
        Some(fields) => spec_hostbytes_merge_all(h, fields, fields.len()),
        None => None,
    }
}

/// An echo acknowledgement after one more field.
pub open spec fn spec_echoack_merge(e: EchoAckView, f: WireFieldView) -> Option<EchoAckView> {
    if f.number == FIELD_ECHO_ACK_NUM {
        match f.value {
            WireValueView::Varint(v) => Some(EchoAckView { echo_ack_num: Some(v) }),
            _ => None,
        }
    } else {
        Some(e)
    }
}

/// An echo acknowledgement after the first `n` of `fields`.
pub open spec fn spec_echoack_merge_all(
    e: EchoAckView,
    fields: Seq<WireFieldView>,
    n: nat,
) -> Option<EchoAckView>
    decreases n,
{
    if n == 0 {
        Some(e)
    } else {
        match spec_echoack_merge_all(e, fields, (n - 1) as nat) {
            Some(acc) => spec_echoack_merge(acc, fields[n - 1]),
            None => None,
        }
    }
}

/// An echo acknowledgement after the fields that `body` holds.
pub open spec fn spec_echoack_merge_bytes(e: EchoAckView, body: Seq<u8>) -> Option<EchoAckView> {
    match spec_parse_fields(body) {
        Some(fields) => spec_echoack_merge_all(e, fields, fields.len()),
        None => None,
    }
}

/// An instruction after one more field. A record that comes a second time
/// is merged into the first.
pub open spec fn spec_instruction_merge(i: InstructionView, f: WireFieldView) -> Option<
    InstructionView,
> {
    if f.number == FIELD_HOSTBYTES {
        match f.value {
            WireValueView::Bytes(b) => match spec_hostbytes_merge_bytes(
                match i.hostbytes {
                    Some(h) => h,
                    None => HostBytesView { hoststring: None },
                },
                b,
            ) {
                Some(h) => Some(InstructionView { hostbytes: Some(h), ..i }),
                None => None,
            },
            _ => None,
        }
    } else if f.number == FIELD_RESIZE {
        match f.value {
            WireValueView::Bytes(b) => match spec_resize_merge_bytes(
                match i.resize {
                    Some(r) => r,
                    None => spec_resize_default(),
                },
                b,
            ) {
                Some(r) => Some(InstructionView { resize: Some(r), ..i }),
                None => None,
            },
            _ => None,
        }
    } else if f.number == FIELD_ECHOACK {
        match f.value {
            WireValueView::Bytes(b) => match spec_echoack_merge_bytes(
                match i.echoack {
                    Some(e) => e,
                    None => EchoAckView { echo_ack_num: None },
                },
                b,
            ) {
                Some(e) => Some(InstructionView { echoack: Some(e), ..i }),
                None => None,
            },
            _ => None,
        }
    } else {
        Some(i)
    }
}

/// An instruction after the first `n` of `fields`.
pub open spec fn spec_instruction_merge_all(
    i: InstructionView,
    fields: Seq<WireFieldView>,
    n: nat,
) -> Option<InstructionView>
    decreases n,
{
    if n == 0 {
        Some(i)
    } else {
        match spec_instruction_merge_all(i, fields, (n - 1) as nat) {
            Some(acc) => spec_instruction_merge(acc, fields[n - 1]),
            None => None,
        }
    }
}

/// The instruction that `body` holds.
pub open spec fn spec_instruction_decode(body: Seq<u8>) -> Option<InstructionView> {
    match spec_parse_fields(body) {
        Some(fields) => spec_instruction_merge_all(
            InstructionView { hostbytes: None, resize: None, echoack: None },
            fields,
            fields.len(),
        ),
        None => None,
    }
}

/// A message after one more field: each field 1 adds an instruction.
pub open spec fn spec_host_message_merge(m: HostMessageView, f: WireFieldView) -> Option<
    HostMessageView,
> {
    if f.number == FIELD_INSTRUCTION {
        match f.value {
            WireValueView::Bytes(b) => match spec_instruction_decode(b) {
                Some(i) => Some(HostMessageView { instruction: m.instruction.push(i) }),
                None => None,
            },
            _ => None,
        }
    } else {
        Some(m)
    }
}

/// A message after the first `n` of `fields`.
pub open spec fn spec_host_message_merge_all(
    m: HostMessageView,
    fields: Seq<WireFieldView>,
    n: nat,
) -> Option<HostMessageView>
    decreases n,
{
    if n == 0 {
        Some(m)
    } else {
        match spec_host_message_merge_all(m, fields, (n - 1) as nat) {
            Some(acc) => spec_host_message_merge(acc, fields[n - 1]),
            None => None,
        }
    }
}

/// The message that `data` holds; `None` where it is malformed.
pub open spec fn spec_host_message_decode(data: Seq<u8>) -> Option<HostMessageView> {
    match spec_parse_fields(data) {
        Some(fields) => spec_host_message_merge_all(
            HostMessageView { instruction: Seq::empty() },
            fields,
            fields.len(),
        ),
        None => None,
    }
}

impl HostBytes {
    /// Writes the record.
    pub fn encode_to_vec(&self) -> (out: Vec<u8>)
        ensures
            out@ == spec_hostbytes_bytes(self@),
    {
        let mut out: Vec<u8> = Vec::new();
        match &self.hoststring {
            Some(b) => {
                push_bytes_field(&mut out, FIELD_HOSTSTRING, b.as_slice());
            },
            None => {},
        }
        assert(out@ =~= spec_hostbytes_bytes(self@));
        out
    }

    /// The record after the fields that `body` holds.
    fn merge_bytes(self, body: &[u8]) -> (merged: Option<HostBytes>)
        ensures
            match merged {
                Some(h) => spec_hostbytes_merge_bytes(self@, body@) == Some(h@),
                None => spec_hostbytes_merge_bytes(self@, body@).is_none(),
            },
    {
        let fields = match parse_fields(body) {
            Some(fields) => fields,
            None => {
                return None;
            },
        };
        let ghost start = self@;
        let ghost views = spec_field_views(fields@);
        let mut acc = self;
        let mut failed = false;
        let mut i: usize = 0;
        while i < fields.len()
            invariant
                i <= fields@.len(),
                views == spec_field_views(fields@),
                spec_hostbytes_merge_all(start, views, i as nat) == if failed {
                    None
                } else {
                    Some(acc@)
                },
            decreases fields@.len() - i,
        {
            let f = &fields[i];
            assert(views[i as int] == f@);
            if !failed && f.number == FIELD_HOSTSTRING {
                match &f.value {
                    WireValue::Bytes(b) => {
                        acc = HostBytes { hoststring: Some(clone_bytes(b.as_slice())) };
                    },
                    _ => {
                        failed = true;
                    },
                }
            }
            i = i + 1;
        }
        if failed {
            None
        } else {
            Some(acc)
        }
    }
}

impl ResizeMessage {
    /// Writes the record.
    pub fn encode_to_vec(&self) -> (out: Vec<u8>)
        ensures
            out@ == spec_resize_bytes(self@),
    {
        (userinput::ResizeMessage { width: self.width, height: self.height }).encode_to_vec()
    }
}

impl EchoAck {
    /// Writes the record.
    pub fn encode_to_vec(&self) -> (out: Vec<u8>)
        ensures
            out@ == spec_echoack_bytes(self@),
    {
        let mut out: Vec<u8> = Vec::new();
        match self.echo_ack_num {
            Some(n) => {
                push_varint_field(&mut out, FIELD_ECHO_ACK_NUM, n);
            },
            None => {},
        }
        assert(out@ =~= spec_echoack_bytes(self@));
        out
    }

    /// The record after the fields that `body` holds.
    fn merge_bytes(self, body: &[u8]) -> (merged: Option<EchoAck>)
        ensures
            match merged {
                Some(e) => spec_echoack_merge_bytes(self@, body@) == Some(e@),
                None => spec_echoack_merge_bytes(self@, body@).is_none(),
            },
    {
        let fields = match parse_fields(body) {
            Some(fields) => fields,
            None => {
                return None;
            },
        };
        let ghost start = self@;
        let ghost views = spec_field_views(fields@);
        let mut acc = self;
        let mut failed = false;
        let mut i: usize = 0;
        while i < fields.len()
            invariant
                i <= fields@.len(),
                views == spec_field_views(fields@),
                spec_echoack_merge_all(start, views, i as nat) == if failed {
                    None
                } else {
                    Some(acc@)
                },
            decreases fields@.len() - i,
        {
            let f = &fields[i];
            assert(views[i as int] == f@);
            if !failed && f.number == FIELD_ECHO_ACK_NUM {
                match &f.value {
                    WireValue::Varint(v) => {
                        acc = EchoAck { echo_ack_num: Some(*v) };
                    },
                    _ => {
                        failed = true;
                    },
                }
            }
            i = i + 1;
        }
        if failed {
            None
        } else {
            Some(acc)
        }
    }
}

impl Instruction {
    /// Writes the instruction.
    pub fn encode_to_vec(&self) -> (out: Vec<u8>)
        ensures
            out@ == spec_instruction_bytes(self@),
    {
        let mut out: Vec<u8> = Vec::new();
        match &self.hostbytes {
            Some(h) => {
                let body = h.encode_to_vec();
                push_bytes_field(&mut out, FIELD_HOSTBYTES, body.as_slice());
            },
            None => {},
        }
        match &self.resize {
            Some(r) => {
                let body = r.encode_to_vec();
                push_bytes_field(&mut out, FIELD_RESIZE, body.as_slice());
            },
            None => {},
        }
        match &self.echoack {
            Some(e) => {
                let body = e.encode_to_vec();
                push_bytes_field(&mut out, FIELD_ECHOACK, body.as_slice());
            },
            None => {},
        }
        assert(out@ =~= spec_instruction_bytes(self@));
        out
    }

    /// The instruction after one more field.
    fn merge_field(self, f: &WireField) -> (merged: Option<Instruction>)
        ensures
            match merged {
                Some(i) => spec_instruction_merge(self@, f@) == Some(i@),
                None => spec_instruction_merge(self@, f@).is_none(),
            },
    {
        if f.number == FIELD_HOSTBYTES {
            match &f.value {
                WireValue::Bytes(b) => {
                    let Instruction { hostbytes, resize, echoack } = self;
                    let base = match hostbytes {
                        Some(h) => h,
                        None => HostBytes { hoststring: None },
                    };
                    match base.merge_bytes(b.as_slice()) {
                        Some(h) => Some(Instruction { hostbytes: Some(h), resize, echoack }),
                        None => None,
                    }
                },
                _ => None,
            }
        } else if f.number == FIELD_RESIZE {
            match &f.value {
                WireValue::Bytes(b) => {
                    let Instruction { hostbytes, resize, echoack } = self;
                    let base = match resize {
                        Some(r) => userinput::ResizeMessage { width: r.width, height: r.height },
                        None => userinput::ResizeMessage { width: None, height: None },
                    };
                    match base.merge_bytes(b.as_slice()) {
                        Some(r) => Some(
                            Instruction {
                                hostbytes,
                                resize: Some(ResizeMessage { width: r.width, height: r.height }),
                                echoack,
                            },
                        ),
                        None => None,
                    }
                },
                _ => None,
            }
        } else if f.number == FIELD_ECHOACK {
            match &f.value {
                WireValue::Bytes(b) => {
                    let Instruction { hostbytes, resize, echoack } = self;
                    let base = match echoack {
                        Some(e) => e,
                        None => EchoAck { echo_ack_num: None },
                    };
                    match base.merge_bytes(b.as_slice()) {
                        Some(e) => Some(Instruction { hostbytes, resize, echoack: Some(e) }),
                        None => None,
                    }
                },
                _ => None,
            }
        } else {
            Some(self)
        }
    }

    /// Reads an instruction.
    pub fn decode(body: &[u8]) -> (read: Result<Instruction, DecodeError>)
        ensures
            match read {
                Ok(i) => spec_instruction_decode(body@) == Some(i@),
                Err(_) => spec_instruction_decode(body@).is_none(),
            },
    {
        let fields = match parse_fields(body) {
            Some(fields) => fields,
            None => {
                return Err(DecodeError);
            },
        };
        let ghost views = spec_field_views(fields@);
        let ghost start = InstructionView { hostbytes: None, resize: None, echoack: None };
        let mut acc: Option<Instruction> = Some(
            Instruction { hostbytes: None, resize: None, echoack: None },
        );
        let mut i: usize = 0;
        while i < fields.len()
            invariant
                i <= fields@.len(),
                views == spec_field_views(fields@),
                start == (InstructionView { hostbytes: None, resize: None, echoack: None }),
                match acc {
                    Some(a) => spec_instruction_merge_all(start, views, i as nat) == Some(a@),
                    None => spec_instruction_merge_all(start, views, i as nat).is_none(),
                },
            decreases fields@.len() - i,
        {
            assert(views[i as int] == fields@[i as int]@);
            acc = match acc {
                Some(a) => a.merge_field(&fields[i]),
                None => None,
            };
            i = i + 1;
        }
        match acc {
            Some(a) => Ok(a),
            None => Err(DecodeError),
        }
    }
}

impl HostMessage {
    /// Writes the message.
    pub fn encode_to_vec(&self) -> (out: Vec<u8>)
        ensures
            out@ == spec_host_message_bytes(self@),
    {
        let mut out: Vec<u8> = Vec::new();
        let mut i: usize = 0;
        let ghost list = self@.instruction;
        while i < self.instruction.len()
            invariant
                i <= self.instruction@.len(),
                list == self@.instruction,
                out@ == spec_instructions_bytes(list, i as nat),
            decreases self.instruction@.len() - i,
        {
            let body = self.instruction[i].encode_to_vec();
            assert(list[i as int] == self.instruction@[i as int]@);
            push_bytes_field(&mut out, FIELD_INSTRUCTION, body.as_slice());
            i = i + 1;
        }
        out
    }

    /// Reads a message; fails where the octets are malformed.
    pub fn decode(data: &[u8]) -> (read: Result<HostMessage, DecodeError>)
        ensures
            match read {
                Ok(m) => spec_host_message_decode(data@) == Some(m@),
                Err(_) => spec_host_message_decode(data@).is_none(),
            },
    {
        let fields = match parse_fields(data) {
            Some(fields) => fields,
            None => {
                return Err(DecodeError);
            },
        };
        let ghost views = spec_field_views(fields@);
        let ghost start = HostMessageView { instruction: Seq::empty() };
        let mut list: Vec<Instruction> = Vec::new();
        let mut failed = false;
        let mut i: usize = 0;
        assert(spec_instruction_views(list@) =~= Seq::empty());
        while i < fields.len()
            invariant
                i <= fields@.len(),
                views == spec_field_views(fields@),
                start == (HostMessageView { instruction: Seq::empty() }),
                spec_host_message_merge_all(start, views, i as nat) == if failed {
                    None
                } else {
                    Some(HostMessageView { instruction: spec_instruction_views(list@) })
                },
            decreases fields@.len() - i,
        {
            let f = &fields[i];
            assert(views[i as int] == f@);
            if !failed && f.number == FIELD_INSTRUCTION {
                match &f.value {
                    WireValue::Bytes(b) => {
                        match Instruction::decode(b.as_slice()) {
                            Ok(inst) => {
                                let ghost before = spec_instruction_views(list@);
                                let ghost iv = inst@;
                                list.push(inst);
                                assert(spec_instruction_views(list@) =~= before.push(iv));
                            },
                            Err(_) => {
                                failed = true;
                            },
                        }
                    },
                    _ => {
                        failed = true;
                    },
                }
            }
            i = i + 1;
        }
        if failed {
            Err(DecodeError)
        } else {
            Ok(HostMessage { instruction: list })
        }
    }
}

/// Whether the host octets of an instruction are short enough for their
/// length to be written.
pub open spec fn spec_instruction_fits(i: InstructionView) -> bool {
    match i.hostbytes {
        Some(h) => match h.hoststring {
            Some(b) => b.len() <= 0xFFFF_FFFF_FFFF_FF00,
            None => true,
        },
        None => true,
    }
}

/// Reading what was written of a host-octets record gives the record
/// back.
pub proof fn lemma_hostbytes_roundtrip(h: HostBytesView)
    requires
        h.hoststring is Some ==> h.hoststring->Some_0.len() <= u64::MAX,
    ensures
        spec_hostbytes_merge_bytes(HostBytesView { hoststring: None }, spec_hostbytes_bytes(h))
            == Some(h),
        h.hoststring is Some ==> spec_hostbytes_bytes(h).len() <= h.hoststring->Some_0.len() + 20,
        h.hoststring is None ==> spec_hostbytes_bytes(h).len() == 0,
{
    reveal_with_fuel(spec_hostbytes_merge_all, 2);
    match h.hoststring {
        Some(b) => {
            lemma_parse_one_bytes_field(FIELD_HOSTSTRING, b);
            lemma_field_len(FIELD_HOSTSTRING, 0, b);
        },
        None => {
            assert(spec_parse_fields(Seq::<u8>::empty()) == Some(Seq::<WireFieldView>::empty()));
        },
    }
}

/// Reading what was written of an echo acknowledgement gives it back.
pub proof fn lemma_echoack_roundtrip(e: EchoAckView)
    ensures
        spec_echoack_merge_bytes(EchoAckView { echo_ack_num: None }, spec_echoack_bytes(e))
            == Some(e),
        spec_echoack_bytes(e).len() <= 20,
{
    reveal_with_fuel(spec_echoack_merge_all, 2);
    match e.echo_ack_num {
        Some(n) => {
            lemma_parse_one_varint_field(FIELD_ECHO_ACK_NUM, n);
            lemma_field_len(FIELD_ECHO_ACK_NUM, n, Seq::empty());
        },
        None => {
            assert(spec_parse_fields(Seq::<u8>::empty()) == Some(Seq::<WireFieldView>::empty()));
        },
    }
}

/// The fields that an instruction is written as: one for each record
/// that it holds.
pub open spec fn spec_instruction_read(i: InstructionView) -> Seq<WireFieldView> {
    (match i.hostbytes {
        Some(h) => seq![
            WireFieldView {
                number: FIELD_HOSTBYTES,
                value: WireValueView::Bytes(spec_hostbytes_bytes(h)),
            },
        ],
        None => Seq::empty(),
    }) + (match i.resize {
        Some(r) => seq![
            WireFieldView {
                number: FIELD_RESIZE,
                value: WireValueView::Bytes(spec_resize_bytes(r)),
            },
        ],
        None => Seq::empty(),
    }) + (match i.echoack {
        Some(e) => seq![
            WireFieldView {
                number: FIELD_ECHOACK,
                value: WireValueView::Bytes(spec_echoack_bytes(e)),
            },
        ],
        None => Seq::empty(),
    })
}

/// What was written of an instruction is read as its fields.
pub proof fn lemma_instruction_parse(i: InstructionView)
    requires
        spec_instruction_fits(i),
    ensures
        spec_parse_fields(spec_instruction_bytes(i)) == Some(spec_instruction_read(i)),
        spec_instruction_bytes(i).len() <= u64::MAX,
{
    let empty = Seq::<u8>::empty();
    assert(spec_parse_fields(empty) == Some(Seq::<WireFieldView>::empty()));
    let first = match i.hostbytes {
        Some(h) => spec_bytes_field(FIELD_HOSTBYTES, spec_hostbytes_bytes(h)),
        None => empty,
    };
    let second = match i.resize {
        Some(r) => spec_bytes_field(FIELD_RESIZE, spec_resize_bytes(r)),
        None => empty,
    };
    let third = match i.echoack {
        Some(e) => spec_bytes_field(FIELD_ECHOACK, spec_echoack_bytes(e)),
        None => empty,
    };
    match i.hostbytes {
        Some(h) => {
            lemma_hostbytes_roundtrip(h);
            lemma_parse_one_bytes_field(FIELD_HOSTBYTES, spec_hostbytes_bytes(h));
            lemma_field_len(FIELD_HOSTBYTES, 0, spec_hostbytes_bytes(h));
        },
        None => {},
    }
    match i.resize {
        Some(r) => {
            lemma_resize_roundtrip(r);
            lemma_parse_one_bytes_field(FIELD_RESIZE, spec_resize_bytes(r));
            lemma_field_len(FIELD_RESIZE, 0, spec_resize_bytes(r));
        },
        None => {},
    }
    match i.echoack {
        Some(e) => {
            lemma_echoack_roundtrip(e);
            lemma_parse_one_bytes_field(FIELD_ECHOACK, spec_echoack_bytes(e));
            lemma_field_len(FIELD_ECHOACK, 0, spec_echoack_bytes(e));
        },
        None => {},
    }
    lemma_parse_fields_concat(first, second);
    lemma_parse_fields_concat(first + second, third);
}

/// What the first `n` fields make of an instruction depends on those
/// fields alone.
pub proof fn lemma_instruction_merge_prefix(
    i: InstructionView,
    a: Seq<WireFieldView>,
    b: Seq<WireFieldView>,
    n: nat,
)
    requires
        n <= a.len(),
        n <= b.len(),
        forall|k: int| 0 <= k < n ==> a[k] == b[k],
    ensures
        spec_instruction_merge_all(i, a, n) == spec_instruction_merge_all(i, b, n),
    decreases n,
{
    if n > 0 {
        lemma_instruction_merge_prefix(i, a, b, (n - 1) as nat);
    }
}

/// Fields after fields are merged after them.
pub proof fn lemma_instruction_merge_append(
    i: InstructionView,
    a: Seq<WireFieldView>,
    b: Seq<WireFieldView>,
)
    ensures
        spec_instruction_merge_all(i, a + b, (a + b).len()) == match spec_instruction_merge_all(
            i,
            a,
            a.len(),
        ) {
            Some(acc) => spec_instruction_merge_all(acc, b, b.len()),
            None => None,
        },
    decreases b.len(),
{
    if b.len() == 0 {
        assert(a + b =~= a);
    } else {
        let shorter = b.drop_last();
        lemma_instruction_merge_append(i, a, shorter);
        lemma_instruction_merge_prefix(i, a + b, a + shorter, (a + shorter).len());
        assert((a + b)[(a + b).len() - 1] == b.last());
        match spec_instruction_merge_all(i, a, a.len()) {
            Some(acc) => {
                lemma_instruction_merge_prefix(acc, b, shorter, shorter.len());
            },
            None => {},
        }
    }
}

/// A record alone is merged as itself, if there is one.
pub proof fn lemma_instruction_merge_one(acc: InstructionView, fields: Seq<WireFieldView>)
    requires
        fields.len() <= 1,
    ensures
        spec_instruction_merge_all(acc, fields, fields.len()) == if fields.len() == 0 {
            Some(acc)
        } else {
            spec_instruction_merge(acc, fields[0])
        },
{
    reveal_with_fuel(spec_instruction_merge_all, 2);
}

/// The fields of an instruction, merged, give the instruction.
pub proof fn lemma_instruction_merge(i: InstructionView)
    requires
        spec_instruction_fits(i),
    ensures
        spec_instruction_merge_all(
            InstructionView { hostbytes: None, resize: None, echoack: None },
            spec_instruction_read(i),
            spec_instruction_read(i).len(),
        ) == Some(i),
{
    let start = InstructionView { hostbytes: None, resize: None, echoack: None };
    let first = match i.hostbytes {
        Some(h) => seq![
            WireFieldView {
                number: FIELD_HOSTBYTES,
                value: WireValueView::Bytes(spec_hostbytes_bytes(h)),
            },
        ],
        None => Seq::empty(),
    };
    let second = match i.resize {
        Some(r) => seq![
            WireFieldView {
                number: FIELD_RESIZE,
                value: WireValueView::Bytes(spec_resize_bytes(r)),
            },
        ],
        None => Seq::empty(),
    };
    let third = match i.echoack {
        Some(e) => seq![
            WireFieldView {
                number: FIELD_ECHOACK,
                value: WireValueView::Bytes(spec_echoack_bytes(e)),
            },
        ],
        None => Seq::empty(),
    };
    let i1 = InstructionView { hostbytes: i.hostbytes, ..start };
    let i2 = InstructionView { resize: i.resize, ..i1 };
    match i.hostbytes {
        Some(h) => {
            lemma_hostbytes_roundtrip(h);
        },
        None => {},
    }
    match i.resize {
        Some(r) => {
            lemma_resize_roundtrip(r);
        },
        None => {},
    }
    match i.echoack {
        Some(e) => {
            lemma_echoack_roundtrip(e);
        },
        None => {},
    }
    lemma_instruction_merge_one(start, first);
    lemma_instruction_merge_one(i1, second);
    lemma_instruction_merge_one(i2, third);
    assert(spec_instruction_merge_all(start, first, first.len()) == Some(i1));
    assert(spec_instruction_merge_all(i1, second, second.len()) == Some(i2));
    assert(i == (InstructionView { echoack: i.echoack, ..i2 }));
    assert(spec_instruction_merge_all(i2, third, third.len()) == Some(i));
    lemma_instruction_merge_append(start, first, second);
    lemma_instruction_merge_append(start, first + second, third);
}

/// Reading what was written of an instruction gives the instruction back.
pub proof fn lemma_instruction_roundtrip(i: InstructionView)
    requires
        spec_instruction_fits(i),
    ensures
        spec_instruction_decode(spec_instruction_bytes(i)) == Some(i),
        spec_instruction_bytes(i).len() <= u64::MAX,
{
    lemma_instruction_parse(i);
    lemma_instruction_merge(i);
}

/// What the first `n` fields make of a message depends on those fields
/// alone.
pub proof fn lemma_host_message_merge_prefix(
    m: HostMessageView,
    a: Seq<WireFieldView>,
    b: Seq<WireFieldView>,
    n: nat,
)
    requires
        n <= a.len(),
        n <= b.len(),
        forall|j: int| 0 <= j < n ==> a[j] == b[j],
    ensures
        spec_host_message_merge_all(m, a, n) == spec_host_message_merge_all(m, b, n),
    decreases n,
{
    if n > 0 {
        lemma_host_message_merge_prefix(m, a, b, (n - 1) as nat);
    }
}

/// The fields that the first `n` instructions of a list are written as.
pub open spec fn spec_instruction_fields(list: Seq<InstructionView>, n: nat) -> Seq<
    WireFieldView,
> {
    Seq::new(
        n,
        |j: int|
            WireFieldView {
                number: FIELD_INSTRUCTION,
                value: WireValueView::Bytes(spec_instruction_bytes(list[j])),
            },
    )
}

/// The octets written for the first `n` instructions hold one field for
/// each.
pub proof fn lemma_instructions_parse(list: Seq<InstructionView>, n: nat)
    requires
        n <= list.len(),
        forall|j: int|
            0 <= j < list.len() ==> (#[trigger] spec_instruction_bytes(list[j])).len()
                <= u64::MAX,
    ensures
        spec_parse_fields(spec_instructions_bytes(list, n)) == Some(
            spec_instruction_fields(list, n),
        ),
    decreases n,
{
    if n == 0 {
        assert(spec_instruction_fields(list, 0) =~= Seq::empty());
    } else {
        let j = (n - 1) as nat;
        lemma_instructions_parse(list, j);
        let body = spec_instruction_bytes(list[j as int]);
        let head = spec_instructions_bytes(list, j);
        let tail = spec_bytes_field(FIELD_INSTRUCTION, body);
        lemma_parse_one_bytes_field(FIELD_INSTRUCTION, body);
        lemma_parse_fields_concat(head, tail);
        let f = WireFieldView { number: FIELD_INSTRUCTION, value: WireValueView::Bytes(body) };
        assert(spec_instruction_fields(list, j) + seq![f] =~= spec_instruction_fields(list, n));
        assert(spec_instructions_bytes(list, n) == head + tail);
    }
}

/// The fields written for the first `n` instructions make a message of
/// those instructions.
pub proof fn lemma_instructions_merge(list: Seq<InstructionView>, n: nat)
    requires
        n <= list.len(),
        forall|j: int|
            0 <= j < list.len() ==> #[trigger] spec_instruction_decode(
                spec_instruction_bytes(list[j]),
            ) == Some(list[j]),
    ensures
        spec_host_message_merge_all(
            HostMessageView { instruction: Seq::empty() },
            spec_instruction_fields(list, n),
            n,
        ) == Some(HostMessageView { instruction: list.take(n as int) }),
    decreases n,
{
    let start = HostMessageView { instruction: Seq::empty() };
    if n == 0 {
        assert(list.take(0) =~= Seq::empty());
    } else {
        let j = (n - 1) as nat;
        lemma_instructions_merge(list, j);
        let inst = list[j as int];
        let body = spec_instruction_bytes(inst);
        let fields = spec_instruction_fields(list, n);
        lemma_host_message_merge_prefix(start, fields, spec_instruction_fields(list, j), j);
        let before = HostMessageView { instruction: list.take(j as int) };
        assert(spec_host_message_merge_all(start, fields, j) == Some(before));
        assert(fields[j as int] == (WireFieldView {
            number: FIELD_INSTRUCTION,
            value: WireValueView::Bytes(body),
        }));
        assert(spec_instruction_decode(body) == Some(inst));
        assert(spec_host_message_merge(before, fields[j as int]) == Some(
            HostMessageView { instruction: before.instruction.push(inst) },
        ));
        assert(list.take(j as int).push(inst) =~= list.take(n as int));
    }
}

/// Reading what was written of a message gives the message back.
pub proof fn lemma_host_message_roundtrip(m: HostMessageView)
    requires
        forall|j: int|
            0 <= j < m.instruction.len() ==> spec_instruction_fits(#[trigger] m.instruction[j]),
    ensures
        spec_host_message_decode(spec_host_message_bytes(m)) == Some(m),
{
    let list = m.instruction;
    assert forall|j: int| 0 <= j < list.len() implies (#[trigger] spec_instruction_bytes(
        list[j],
    )).len() <= u64::MAX && spec_instruction_decode(spec_instruction_bytes(list[j])) == Some(
        list[j],
    ) by {
        assert(spec_instruction_fits(list[j]));
        lemma_instruction_roundtrip(list[j]);
    }
    lemma_instructions_parse(list, list.len());
    lemma_instructions_merge(list, list.len());
    assert(list.take(list.len() as int) =~= list);
}

} // verus!
