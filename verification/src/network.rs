//! Cleartext framing: the timestamp header of a packet, the header of a
//! fragment, the fragmenter and the reassembler.
//!
//! A packet is two big-endian 16-bit timestamps followed by a fragment. A
//! fragment is an eight-octet instruction id, two octets that hold the final
//! flag in the top bit and the fragment number below it, and a chunk.

use crate::bytes::{
    bytes_equal, clone_bytes, copy_range, extend_bytes, lemma_u16_be_roundtrip, lemma_u64_be_roundtrip,
    push_u16_be, push_u64_be, read_u16_be, read_u64_be, spec_u16_be, spec_u16_from_be,
    spec_u64_be, spec_u64_from_be,
};
use crate::clock::unix_millis;
use vstd::prelude::*;
use vstd::std_specs::cmp::PartialEqSpecImpl;

verus! {

/// Octets taken by the two timestamps.
pub const TIMESTAMP_LEN: usize = 4;

/// Octets taken by a fragment's header.
pub const FRAG_HEADER_LEN: usize = 10;

/// Largest datagram sent.
pub const DEFAULT_MTU: usize = 1280;

/// Octets that encryption adds to a datagram: wire nonce and tag.
pub const CRYPTO_OVERHEAD: usize = 24;

/// Largest chunk that fits a datagram beside all headers.
pub const MAX_FRAG_PAYLOAD: usize = 1242;

/// The top bit of a fragment's number field: the final flag.
pub const FINAL_FLAG: u16 = 0x8000;

/// The fifteen bits below the final flag.
pub const FRAGMENT_NUM_MASK: u16 = 0x7FFF;

/// Why cleartext could not be read as a packet or a fragment.
#[derive(Debug, Clone, Copy, PartialEq, Eq, Structural)]
pub enum FrameError {
    /// Fewer than four octets: no room for the timestamps.
    ShortPacket,
    /// Fewer than ten octets: no room for a fragment header.
    ShortFragment,
}

/// A packet as a mathematical value.
pub struct PacketView {
    pub timestamp: u16,
    pub timestamp_reply: u16,
    pub payload: Seq<u8>,
}

/// The cleartext of a datagram.
#[derive(Debug)]
pub struct Packet {
    /// Sender's clock in milliseconds, modulo 65536.
    pub timestamp: u16,
    /// The last timestamp the sender received, or `0xFFFF` for none.
    pub timestamp_reply: u16,
    /// The fragment carried, or nothing for a heartbeat.
    pub payload: Vec<u8>,
}

impl View for Packet {
    type V = PacketView;

    open spec fn view(&self) -> PacketView {
        PacketView {
            timestamp: self.timestamp,
            timestamp_reply: self.timestamp_reply,
            payload: self.payload@,
        }
    }
}

impl Clone for Packet {
    fn clone(&self) -> (copy: Self)
        ensures
            copy@ == self@,
    {
        Packet {
            timestamp: self.timestamp,
            timestamp_reply: self.timestamp_reply,
            payload: clone_bytes(self.payload.as_slice()),
        }
    }
}

/// The octets of a packet: both timestamps, then the payload.
pub open spec fn spec_packet_bytes(p: PacketView) -> Seq<u8> {
    spec_u16_be(p.timestamp) + spec_u16_be(p.timestamp_reply) + p.payload
}

/// The packet that octets hold, or the reason they hold none.
pub open spec fn spec_parse_packet(data: Seq<u8>) -> Result<PacketView, FrameError> {
    if data.len() < TIMESTAMP_LEN {
        Err(FrameError::ShortPacket)
    } else {
        Ok(
            PacketView {
                timestamp: spec_u16_from_be(data.subrange(0, 2)),
                timestamp_reply: spec_u16_from_be(data.subrange(2, 4)),
                payload: data.subrange(4, data.len() as int),
            },
        )
    }
}

impl Packet {
    /// Writes the packet as cleartext.
    pub fn to_bytes(&self) -> (out: Vec<u8>)
        ensures
            out@ == spec_packet_bytes(self@),
            out@.len() == self.payload@.len() + TIMESTAMP_LEN,
    {
        let mut buf: Vec<u8> = Vec::new();
        push_u16_be(&mut buf, self.timestamp);
        push_u16_be(&mut buf, self.timestamp_reply);
        extend_bytes(&mut buf, self.payload.as_slice());
        buf
    }

    /// Reads cleartext as a packet; `ShortPacket` for fewer than four octets.
    pub fn from_bytes(data: &[u8]) -> (parsed: Result<Packet, FrameError>)
        ensures
            match parsed {
                Ok(p) => spec_parse_packet(data@) == Ok::<PacketView, FrameError>(p@),
                Err(e) => spec_parse_packet(data@) == Err::<PacketView, FrameError>(e),
            },
    {
        if data.len() < TIMESTAMP_LEN {
            return Err(FrameError::ShortPacket);
        }
        let timestamp = read_u16_be(data, 0);
        let timestamp_reply = read_u16_be(data, 2);
        let payload = copy_range(data, TIMESTAMP_LEN, data.len());
        Ok(Packet { timestamp, timestamp_reply, payload })
    }
}

/// Reading what `to_bytes` wrote gives the packet back.
pub proof fn lemma_packet_roundtrip(p: PacketView)
    ensures
        spec_parse_packet(spec_packet_bytes(p)) == Ok::<PacketView, FrameError>(p),
{
    let data = spec_packet_bytes(p);
    lemma_u16_be_roundtrip(p.timestamp);
    lemma_u16_be_roundtrip(p.timestamp_reply);
    assert(data.subrange(0, 2) =~= spec_u16_be(p.timestamp));
    assert(data.subrange(2, 4) =~= spec_u16_be(p.timestamp_reply));
    assert(data.subrange(4, data.len() as int) =~= p.payload);
}

/// A fragment as a mathematical value.
pub struct FragmentView {
    pub id: u64,
    pub fragment_num: u16,
    pub is_final: bool,
    pub contents: Seq<u8>,
}

/// One piece of an instruction.
#[derive(Debug, Eq)]
pub struct Fragment {
    /// The instruction that this is a piece of.
    pub id: u64,
    /// Position of the piece, from zero.
    pub fragment_num: u16,
    /// Whether this is the last piece.
    pub is_final: bool,
    /// The piece.
    pub contents: Vec<u8>,
}

impl View for Fragment {
    type V = FragmentView;

    open spec fn view(&self) -> FragmentView {
        FragmentView {
            id: self.id,
            fragment_num: self.fragment_num,
            is_final: self.is_final,
            contents: self.contents@,
        }
    }
}

impl Clone for Fragment {
    fn clone(&self) -> (copy: Self)
        ensures
            copy@ == self@,
    {
        Fragment {
            id: self.id,
            fragment_num: self.fragment_num,
            is_final: self.is_final,
            contents: clone_bytes(self.contents.as_slice()),
        }
    }
}

impl PartialEq for Fragment {
    fn eq(&self, other: &Fragment) -> (same: bool) {
        self.id == other.id && self.fragment_num == other.fragment_num && self.is_final
            == other.is_final && bytes_equal(self.contents.as_slice(), other.contents.as_slice())
    }
}

impl PartialEqSpecImpl for Fragment {
    open spec fn obeys_eq_spec() -> bool {
        true
    }

    open spec fn eq_spec(&self, other: &Fragment) -> bool {
        self@ == other@
    }
}

/// The number field of a fragment: the final flag over the fragment number.
pub open spec fn spec_fragment_field(fragment_num: u16, is_final: bool) -> u16 {
    if is_final {
        FINAL_FLAG | fragment_num
    } else {
        fragment_num
    }
}

/// The octets of a fragment: id, number field, contents.
pub open spec fn spec_fragment_bytes(f: FragmentView) -> Seq<u8> {
    spec_u64_be(f.id) + spec_u16_be(spec_fragment_field(f.fragment_num, f.is_final))
        + f.contents
}

/// The fragment that octets hold, or the reason they hold none.
pub open spec fn spec_parse_fragment(data: Seq<u8>) -> Result<FragmentView, FrameError> {
    if data.len() < FRAG_HEADER_LEN {
        Err(FrameError::ShortFragment)
    } else {
        let field = spec_u16_from_be(data.subrange(8, 10));
        Ok(
            FragmentView {
                id: spec_u64_from_be(data.subrange(0, 8)),
                fragment_num: field & FRAGMENT_NUM_MASK,
                is_final: (field >> 15) != 0,
                contents: data.subrange(10, data.len() as int),
            },
        )
    }
}

impl Fragment {
    /// Writes the fragment as octets.
    pub fn to_bytes(&self) -> (out: Vec<u8>)
        ensures
            out@ == spec_fragment_bytes(self@),
            out@.len() == self.contents@.len() + FRAG_HEADER_LEN,
    {
        let mut buf: Vec<u8> = Vec::new();
        push_u64_be(&mut buf, self.id);
        let combined: u16 = if self.is_final {
            FINAL_FLAG | self.fragment_num
        } else {
            self.fragment_num
        };
        push_u16_be(&mut buf, combined);
        extend_bytes(&mut buf, self.contents.as_slice());
        buf
    }

    /// Reads octets as a fragment; `ShortFragment` for fewer than ten.
    pub fn from_bytes(data: &[u8]) -> (parsed: Result<Fragment, FrameError>)
        ensures
            match parsed {
                Ok(f) => spec_parse_fragment(data@) == Ok::<FragmentView, FrameError>(f@),
                Err(e) => spec_parse_fragment(data@) == Err::<FragmentView, FrameError>(e),
            },
    {
        if data.len() < FRAG_HEADER_LEN {
            return Err(FrameError::ShortFragment);
        }
        let id = read_u64_be(data, 0);
        let combined = read_u16_be(data, 8);
        let is_final = (combined >> 15) != 0;
        let fragment_num = combined & FRAGMENT_NUM_MASK;
        let contents = copy_range(data, FRAG_HEADER_LEN, data.len());
        Ok(Fragment { id, fragment_num, is_final, contents })
    }
}

/// Reading what `to_bytes` wrote gives the fragment back, as long as its
/// number fits the fifteen bits that the header has for it.
pub proof fn lemma_fragment_roundtrip(f: FragmentView)
    requires
        f.fragment_num <= FRAGMENT_NUM_MASK,
    ensures
        spec_parse_fragment(spec_fragment_bytes(f)) == Ok::<FragmentView, FrameError>(f),
{
    let data = spec_fragment_bytes(f);
    let field = spec_fragment_field(f.fragment_num, f.is_final);
    let n = f.fragment_num;
    lemma_u64_be_roundtrip(f.id);
    lemma_u16_be_roundtrip(field);
    assert(data.subrange(0, 8) =~= spec_u64_be(f.id));
    assert(data.subrange(8, 10) =~= spec_u16_be(field));
    assert(data.subrange(10, data.len() as int) =~= f.contents);
    assert(n <= 0x7FFFu16 ==> (0x8000u16 | n) & 0x7FFFu16 == n && ((0x8000u16 | n) >> 15) != 0
        && n & 0x7FFFu16 == n && (n >> 15) == 0) by (bit_vector);
}

/// The state of a fragmenter as a mathematical value.
pub struct FragmenterView {
    /// The id given to the last instruction; zero before the first.
    pub instruction_id: u64,
    /// The payload and chunk size of the last call, if there was one.
    pub last: Option<(Seq<u8>, usize)>,
}

/// Cuts instructions into fragments and numbers the instructions.
pub struct Fragmenter {
    next_instruction_id: u64,
    last_payload: Vec<u8>,
    last_max_frag_payload: usize,
    has_last: bool,
}

impl View for Fragmenter {
    type V = FragmenterView;

    closed spec fn view(&self) -> FragmenterView {
        FragmenterView {
            instruction_id: self.next_instruction_id,
            last: if self.has_last {
                Some((self.last_payload@, self.last_max_frag_payload))
            } else {
                None
            },
        }
    }
}

/// The fragmenter after one more call: the id stays where payload and chunk
/// size are those of the call before, and goes up by one otherwise.
pub open spec fn spec_fragmenter_next(
    before: FragmenterView,
    payload: Seq<u8>,
    max_frag_payload: usize,
) -> FragmenterView {
    FragmenterView {
        instruction_id: if before.last == Some((payload, max_frag_payload)) {
            before.instruction_id
        } else {
            (before.instruction_id + 1) as u64
        },
        last: Some((payload, max_frag_payload)),
    }
}

/// How many fragments a payload of `len` octets makes with chunks of at
/// most `max`: one for an empty payload, else `len / max` rounded up.
pub open spec fn spec_fragment_count(len: nat, max: nat) -> nat {
    if len == 0 || max == 0 {
        1
    } else {
        ((len - 1) / (max as int) + 1) as nat
    }
}

/// Fragment `i` of a payload.
pub open spec fn spec_fragment_at(id: u64, payload: Seq<u8>, max: nat, i: int) -> FragmentView {
    let count = spec_fragment_count(payload.len(), max);
    let start = i * max;
    let end = if start + max < payload.len() {
        start + max
    } else {
        payload.len() as int
    };
    FragmentView {
        id,
        fragment_num: (i % 0x1_0000) as u16,
        is_final: i == count - 1,
        contents: if payload.len() == 0 {
            Seq::empty()
        } else {
            payload.subrange(start, end)
        },
    }
}

/// The fragments of a payload, in order.
pub open spec fn spec_fragments(id: u64, payload: Seq<u8>, max: nat) -> Seq<FragmentView> {
    Seq::new(
        spec_fragment_count(payload.len(), max),
        |i: int| spec_fragment_at(id, payload, max, i),
    )
}

/// The values of a list of fragments.
pub open spec fn spec_fragment_views(frags: Seq<Fragment>) -> Seq<FragmentView> {
    Seq::new(frags.len(), |i: int| frags[i]@)
}

/// Chunk `i` of a payload starts inside it and, if it is the last, ends
/// with it.
pub proof fn lemma_fragment_bounds(len: nat, max: nat, i: int)
    requires
        len > 0,
        max > 0,
        0 <= i < spec_fragment_count(len, max),
    ensures
        i * max < len,
        i == spec_fragment_count(len, max) - 1 <==> i * max + max >= len,
{
    let q = (len - 1) / (max as int);
    assert(q * max <= len - 1 < q * max + max) by (nonlinear_arith)
        requires
            q == (len - 1) / (max as int),
            max > 0,
            len > 0,
    ;
    assert(i * max <= q * max) by (nonlinear_arith)
        requires
            0 <= i <= q,
            max > 0,
    ;
    if i < q {
        assert(i * max + max <= q * max) by (nonlinear_arith)
            requires
                0 <= i < q,
                max > 0,
        ;
    }
}

impl Fragmenter {
    /// A fragmenter that has numbered no instruction yet.
    pub fn new() -> (f: Fragmenter)
        ensures
            f@ == (FragmenterView { instruction_id: 0, last: None }),
    {
        Fragmenter {
            next_instruction_id: 0,
            last_payload: Vec::new(),
            last_max_frag_payload: usize::MAX,
            has_last: false,
        }
    }

    /// Whether the next call would repeat the last one.
    fn repeats(&self, instruction: &[u8], max_frag_payload: usize) -> (same: bool)
        ensures
            same == (self@.last == Some((instruction@, max_frag_payload))),
    {
        self.has_last && self.last_max_frag_payload == max_frag_payload && bytes_equal(
            self.last_payload.as_slice(),
            instruction,
        )
    }

    /// Whether the fragmenter can take this call: it repeats the last one,
    /// or there is an id left.
    pub fn has_room_for(&self, instruction: &[u8], max_frag_payload: usize) -> (ok: bool)
        ensures
            ok == (self@.last == Some((instruction@, max_frag_payload)) || self@.instruction_id
                < u64::MAX),
    {
        self.repeats(instruction, max_frag_payload) || self.next_instruction_id < u64::MAX
    }

    /// Whether another instruction id can still be given.
    pub fn has_headroom(&self) -> (ok: bool)
        ensures
            ok == (self@.instruction_id < u64::MAX),
    {
        self.next_instruction_id < u64::MAX
    }

    /// Cuts `instruction` into chunks of at most `max_frag_payload` octets.
    /// An empty instruction gives one empty, final fragment. The fragments
    /// carry the id of the call before where payload and chunk size repeat
    /// it, and the next id otherwise.
    pub fn make_fragments(&mut self, instruction: &[u8], max_frag_payload: usize) -> (frags: Vec<
        Fragment,
    >)
        requires
            old(self)@.last != Some((instruction@, max_frag_payload)) ==> old(self)@.instruction_id
                < u64::MAX,
            instruction@.len() > 0 ==> max_frag_payload > 0,
        ensures
            final(self)@ == spec_fragmenter_next(old(self)@, instruction@, max_frag_payload),
            spec_fragment_views(frags@) == spec_fragments(
                final(self)@.instruction_id,
                instruction@,
                max_frag_payload as nat,
            ),
    {
        if !self.repeats(instruction, max_frag_payload) {
            self.next_instruction_id = self.next_instruction_id + 1;
        }
        self.has_last = true;
        self.last_max_frag_payload = max_frag_payload;
        self.last_payload = clone_bytes(instruction);
        let id = self.next_instruction_id;
        let len = instruction.len();
        let ghost want = spec_fragments(id, instruction@, max_frag_payload as nat);
        let mut out: Vec<Fragment> = Vec::new();
        if len == 0 {
            out.push(Fragment { id, fragment_num: 0, is_final: true, contents: Vec::new() });
            assert(spec_fragment_views(out@) =~= want);
            return out;
        }
        let total: usize = (len - 1) / max_frag_payload + 1;
        let mut i: usize = 0;
        let mut start: usize = 0;
        while i < total
            invariant
                len == instruction@.len(),
                len > 0,
                max_frag_payload > 0,
                total == spec_fragment_count(len as nat, max_frag_payload as nat),
                want == spec_fragments(id, instruction@, max_frag_payload as nat),
                i <= total,
                i < total ==> start == i * max_frag_payload,
                out@.len() == i,
                forall|k: int| 0 <= k < i ==> (#[trigger] out@[k])@ == want[k],
            decreases total - i,
        {
            proof {
                lemma_fragment_bounds(len as nat, max_frag_payload as nat, i as int);
            }
            let last = len - start <= max_frag_payload;
            let end: usize = if last {
                len
            } else {
                start + max_frag_payload
            };
            let contents = copy_range(instruction, start, end);
            let fragment_num: u16 = (i % 0x1_0000) as u16;
            out.push(Fragment { id, fragment_num, is_final: i == total - 1, contents });
            proof {
                assert(out@[i as int]@ == want[i as int]);
                if i + 1 < total {
                    lemma_fragment_bounds(len as nat, max_frag_payload as nat, i + 1);
                    assert((i + 1) * max_frag_payload == i * max_frag_payload + max_frag_payload)
                        by (nonlinear_arith);
                }
            }
            start = end;
            i = i + 1;
        }
        assert(spec_fragment_views(out@) =~= want);
        out
    }
}

/// The id that a fragmenter gives to an instruction, whatever it has
/// numbered before: the one it gave the call before where payload and
/// chunk size repeat it, and one more where either has changed and there
/// is an id left.
pub proof fn lemma_fragmenter_id_reuse(
    start: FragmenterView,
    first: Seq<u8>,
    first_max: usize,
    second: Seq<u8>,
    second_max: usize,
)
    requires
        !(second == first && second_max == first_max) ==> spec_fragmenter_next(
            start,
            first,
            first_max,
        ).instruction_id < u64::MAX,
    ensures
        ({
            let one = spec_fragmenter_next(start, first, first_max);
            let two = spec_fragmenter_next(one, second, second_max);
            two.instruction_id == if second == first && second_max == first_max {
                one.instruction_id as int
            } else {
                one.instruction_id + 1
            }
        }),
{
}

/// The state of a reassembler as a mathematical value.
pub struct AssemblyView {
    /// The instruction being assembled, if any.
    pub current_id: Option<u64>,
    /// The fragments that have arrived, each in the slot of its number.
    pub slots: Seq<Option<FragmentView>>,
    /// How many fragments the instruction has, once its last one has come.
    pub total: Option<nat>,
}

/// How many of the first `n` slots are filled.
pub open spec fn spec_filled(slots: Seq<Option<FragmentView>>, n: nat) -> nat
    decreases n,
{
    if n == 0 {
        0
    } else {
        spec_filled(slots, (n - 1) as nat) + if n <= slots.len() && slots[n - 1] is Some {
            1nat
        } else {
            0nat
        }
    }
}

/// The contents of the first `n` slots, one after the other.
pub open spec fn spec_joined(slots: Seq<Option<FragmentView>>, n: nat) -> Seq<u8>
    decreases n,
{
    if n == 0 {
        Seq::empty()
    } else {
        spec_joined(slots, (n - 1) as nat) + if n <= slots.len() && slots[n - 1] is Some {
            slots[n - 1]->Some_0.contents
        } else {
            Seq::empty()
        }
    }
}

/// The reassembler that holds nothing.
pub open spec fn spec_assembly_empty() -> AssemblyView {
    AssemblyView { current_id: None, slots: Seq::empty(), total: None }
}

/// `slots`, made longer with empty slots until it has `n`.
pub open spec fn spec_slots_grown(slots: Seq<Option<FragmentView>>, n: nat) -> Seq<
    Option<FragmentView>,
> {
    if slots.len() >= n {
        slots
    } else {
        Seq::new(
            n,
            |i: int|
                if i < slots.len() {
                    slots[i]
                } else {
                    None
                },
        )
    }
}

/// The reassembler once `f` sits in its slot. A fragment of another
/// instruction than the one in progress discards what was there. A slot
/// that is filled already stays as it is.
pub open spec fn spec_assembly_slotted(a: AssemblyView, f: FragmentView) -> AssemblyView {
    let idx = f.fragment_num as int;
    if a.current_id != Some(f.id) {
        AssemblyView {
            current_id: Some(f.id),
            slots: spec_slots_grown(Seq::empty(), (idx + 1) as nat).update(idx, Some(f)),
            total: if f.is_final {
                Some((idx + 1) as nat)
            } else {
                None
            },
        }
    } else {
        let grown = spec_slots_grown(a.slots, (idx + 1) as nat);
        AssemblyView {
            current_id: a.current_id,
            slots: if grown[idx] is Some {
                grown
            } else {
                grown.update(idx, Some(f))
            },
            total: if f.is_final {
                Some((idx + 1) as nat)
            } else {
                a.total
            },
        }
    }
}

/// Whether the reassembler can take `f`: a fragment that arrives twice must
/// be the same both times, no more fragments may have arrived than the
/// instruction has, and when as many have arrived as it has, they must be
/// its first ones.
pub open spec fn spec_assembly_accepts(a: AssemblyView, f: FragmentView) -> bool {
    let idx = f.fragment_num as int;
    let t = spec_assembly_slotted(a, f);
    &&& (a.current_id == Some(f.id) && idx < a.slots.len() && a.slots[idx] is Some)
        ==> a.slots[idx] == Some(f)
    &&& t.total is Some ==> {
        let n = t.total->Some_0;
        &&& spec_filled(t.slots, t.slots.len()) <= n
        &&& spec_filled(t.slots, t.slots.len()) == n ==> spec_filled(t.slots, n) == n
    }
}

/// Whether the instruction is complete once `f` sits in its slot.
pub open spec fn spec_assembly_completes(a: AssemblyView, f: FragmentView) -> bool {
    let t = spec_assembly_slotted(a, f);
    t.total is Some && spec_filled(t.slots, t.slots.len()) == t.total->Some_0
}

/// The reassembler after `f`, and the instruction that `f` completed.
pub open spec fn spec_assembly_add(a: AssemblyView, f: FragmentView) -> (
    AssemblyView,
    Option<Seq<u8>>,
) {
    let t = spec_assembly_slotted(a, f);
    if spec_assembly_completes(a, f) {
        (spec_assembly_empty(), Some(spec_joined(t.slots, t.total->Some_0)))
    } else {
        (t, None)
    }
}

/// Puts the fragments of one instruction together again.
pub struct FragmentAssembly {
    current_id: Option<u64>,
    fragments: Vec<Option<Fragment>>,
    fragments_arrived: usize,
    fragments_total: Option<usize>,
}

/// The values of a list of slots.
pub open spec fn spec_slot_views(slots: Seq<Option<Fragment>>) -> Seq<Option<FragmentView>> {
    Seq::new(
        slots.len(),
        |i: int|
            match slots[i] {
                Some(f) => Some(f@),
                None => None,
            },
    )
}

impl View for FragmentAssembly {
    type V = AssemblyView;

    closed spec fn view(&self) -> AssemblyView {
        AssemblyView {
            current_id: self.current_id,
            slots: spec_slot_views(self.fragments@),
            total: match self.fragments_total {
                Some(t) => Some(t as nat),
                None => None,
            },
        }
    }
}

/// Filling an empty slot adds one to the count of every range that holds
/// it, and changes no other.
pub proof fn lemma_filled_update(
    slots: Seq<Option<FragmentView>>,
    idx: int,
    f: FragmentView,
    n: nat,
)
    requires
        0 <= idx < slots.len(),
        slots[idx] is None,
    ensures
        spec_filled(slots.update(idx, Some(f)), n) == spec_filled(slots, n) + if idx < n {
            1nat
        } else {
            0nat
        },
    decreases n,
{
    if n > 0 {
        lemma_filled_update(slots, idx, f, (n - 1) as nat);
    }
}

/// Two lists of slots that agree on which of the first `n` are filled have
/// the same count there; slots past the end count as empty.
pub proof fn lemma_filled_agree(
    a: Seq<Option<FragmentView>>,
    b: Seq<Option<FragmentView>>,
    n: nat,
)
    requires
        forall|i: int|
            0 <= i < n ==> ((i < a.len() && a[i] is Some) <==> (i < b.len() && b[i] is Some)),
    ensures
        spec_filled(a, n) == spec_filled(b, n),
    decreases n,
{
    if n > 0 {
        lemma_filled_agree(a, b, (n - 1) as nat);
    }
}

/// A range counts at most its length, and counts its length only where
/// every slot of it is filled.
pub proof fn lemma_filled_bound(slots: Seq<Option<FragmentView>>, n: nat)
    ensures
        spec_filled(slots, n) <= n,
        spec_filled(slots, n) == n ==> forall|i: int|
            0 <= i < n ==> i < slots.len() && (#[trigger] slots[i]) is Some,
        n > slots.len() ==> spec_filled(slots, n) == spec_filled(slots, slots.len()),
    decreases n,
{
    if n > 0 {
        lemma_filled_bound(slots, (n - 1) as nat);
    }
}

impl FragmentAssembly {
    /// What the type keeps true of itself: the counter of arrived fragments
    /// is the number of filled slots.
    pub closed spec fn wf(&self) -> bool {
        &&& self.fragments_arrived == spec_filled(self@.slots, self@.slots.len())
        &&& self.fragments@.len() <= 0x1_0000
    }

    /// A reassembler that holds nothing.
    pub fn new() -> (a: FragmentAssembly)
        ensures
            a.wf(),
            a@ == spec_assembly_empty(),
    {
        let a = FragmentAssembly {
            current_id: None,
            fragments: Vec::new(),
            fragments_arrived: 0,
            fragments_total: None,
        };
        assert(a@.slots =~= Seq::empty());
        a
    }

    /// Makes the list of slots at least `n` long.
    fn grow(&mut self, n: usize)
        requires
            n <= 0x1_0000,
            old(self).wf(),
        ensures
            final(self).wf(),
            final(self)@.slots == spec_slots_grown(old(self)@.slots, n as nat),
            final(self)@.current_id == old(self)@.current_id,
            final(self)@.total == old(self)@.total,
            final(self).fragments_arrived == old(self).fragments_arrived,
    {
        let ghost before = self@.slots;
        while self.fragments.len() < n
            invariant
                n <= 0x1_0000,
                self.fragments@.len() <= 0x1_0000,
                self.current_id == old(self).current_id,
                self.fragments_total == old(self).fragments_total,
                self.fragments_arrived == old(self).fragments_arrived,
                before == old(self)@.slots,
                self@.slots.len() >= before.len(),
                self@.slots.len() > before.len() ==> self@.slots.len() <= n,
                forall|i: int|
                    0 <= i < self@.slots.len() ==> self@.slots[i] == if i < before.len() {
                        before[i]
                    } else {
                        None
                    },
            decreases n - self.fragments@.len(),
        {
            let ghost prev = self@.slots;
            self.fragments.push(None);
            assert(self@.slots =~= prev.push(None));
        }
        proof {
            assert(self@.slots =~= spec_slots_grown(before, n as nat));
            lemma_filled_agree(self@.slots, before, self@.slots.len());
            lemma_filled_bound(before, self@.slots.len());
        }
    }

    /// Whether `add_fragment` can take this fragment.
    pub fn accepts(&self, fragment: &Fragment) -> (ok: bool)
        requires
            self.wf(),
        ensures
            ok == spec_assembly_accepts(self@, fragment@),
    {
        let idx = fragment.fragment_num as usize;
        let ghost t = spec_assembly_slotted(self@, fragment@);
        let ghost slots = self@.slots;
        let same_id = match self.current_id {
            Some(id) => id == fragment.id,
            None => false,
        };
        if !same_id {
            // One fragment in a fresh list of slots.
            proof {
                let fresh = spec_slots_grown(Seq::empty(), (idx + 1) as nat);
                lemma_filled_agree(fresh, Seq::empty(), (idx + 1) as nat);
                lemma_filled_bound(Seq::empty(), (idx + 1) as nat);
                lemma_filled_update(fresh, idx as int, fragment@, (idx + 1) as nat);
                lemma_filled_bound(t.slots, (idx + 1) as nat);
            }
            return true;
        }
        let filled_there = idx < self.fragments.len() && self.fragments[idx].is_some();
        if filled_there {
            let same = match &self.fragments[idx] {
                Some(existing) => existing == fragment,
                None => false,
            };
            if !same {
                return false;
            }
        }
        proof {
            lemma_filled_bound(slots, slots.len());
        }
        let arrived: usize = if filled_there {
            self.fragments_arrived
        } else {
            self.fragments_arrived + 1
        };
        proof {
            let grown = spec_slots_grown(slots, (idx + 1) as nat);
            lemma_filled_agree(grown, slots, grown.len());
            lemma_filled_bound(slots, grown.len());
            if !filled_there {
                lemma_filled_update(grown, idx as int, fragment@, grown.len());
            }
            assert(arrived == spec_filled(t.slots, t.slots.len()));
        }
        let total: Option<usize> = if fragment.is_final {
            Some(idx + 1)
        } else {
            self.fragments_total
        };
        match total {
            None => true,
            Some(n) => {
                if arrived > n {
                    return false;
                }
                if arrived < n {
                    return true;
                }
                // As many as the instruction has: are they its first ones?
                let mut i: usize = 0;
                let mut all = true;
                while i < n
                    invariant
                        self.wf(),
                        slots == self@.slots,
                        t == spec_assembly_slotted(self@, fragment@),
                        self@.current_id == Some(fragment.id),
                        idx == fragment.fragment_num,
                        i <= n,
                        all ==> spec_filled(t.slots, i as nat) == i,
                        !all ==> spec_filled(t.slots, n as nat) < n,
                    decreases n - i,
                {
                    let here = i == idx || (i < self.fragments.len() && self.fragments[i].is_some());
                    proof {
                        lemma_filled_bound(t.slots, i as nat);
                        lemma_filled_bound(t.slots, (i + 1) as nat);
                        if !here && all {
                            lemma_filled_missing(t.slots, i as int, n as nat);
                        }
                    }
                    if !here {
                        all = false;
                    }
                    i = i + 1;
                }
                all
            },
        }
    }

    /// Takes a fragment. Where it completes the instruction, gives the
    /// instruction's octets and holds nothing afterwards.
    pub fn add_fragment(&mut self, fragment: Fragment) -> (done: Option<Vec<u8>>)
        requires
            old(self).wf(),
            spec_assembly_accepts(old(self)@, fragment@),
        ensures
            final(self).wf(),
            final(self)@ == spec_assembly_add(old(self)@, fragment@).0,
            match done {
                Some(bytes) => spec_assembly_add(old(self)@, fragment@).1 == Some(bytes@),
                None => spec_assembly_add(old(self)@, fragment@).1.is_none(),
            },
    {
        let idx = fragment.fragment_num as usize;
        let is_final = fragment.is_final;
        let ghost f = fragment@;
        let ghost t = spec_assembly_slotted(self@, f);
        let same_id = match self.current_id {
            Some(id) => id == fragment.id,
            None => false,
        };
        if !same_id {
            self.current_id = Some(fragment.id);
            self.fragments = Vec::new();
            self.fragments_arrived = 0;
            self.fragments_total = None;
            assert(self@.slots =~= Seq::empty());
        }
        self.grow(idx + 1);
        let ghost grown = self@.slots;
        proof {
            lemma_filled_bound(grown, grown.len());
        }
        if self.fragments[idx].is_none() {
            self.fragments[idx] = Some(fragment);
            self.fragments_arrived = self.fragments_arrived + 1;
            proof {
                assert(self@.slots =~= grown.update(idx as int, Some(f)));
                lemma_filled_update(grown, idx as int, f, grown.len());
            }
        }
        if is_final {
            self.fragments_total = Some(idx + 1);
        }
        assert(self@.slots =~= t.slots);
        assert(self@ == t);
        match self.fragments_total {
            None => None,
            Some(total) => {
                if self.fragments_arrived != total {
                    return None;
                }
                proof {
                    lemma_filled_bound(t.slots, total as nat);
                }
                let mut out: Vec<u8> = Vec::new();
                let mut i: usize = 0;
                while i < total
                    invariant
                        i <= total <= self.fragments@.len(),
                        self@ == t,
                        forall|k: int| 0 <= k < total ==> (#[trigger] t.slots[k]) is Some,
                        out@ == spec_joined(t.slots, i as nat),
                    decreases total - i,
                {
                    assert(t.slots[i as int] is Some);
                    match &self.fragments[i] {
                        Some(frag) => {
                            extend_bytes(&mut out, frag.contents.as_slice());
                        },
                        None => {},
                    }
                    i = i + 1;
                }
                self.current_id = None;
                self.fragments = Vec::new();
                self.fragments_arrived = 0;
                self.fragments_total = None;
                assert(self@.slots =~= Seq::empty());
                Some(out)
            },
        }
    }
}

/// A range with an empty slot counts less than its length.
pub proof fn lemma_filled_missing(slots: Seq<Option<FragmentView>>, i: int, n: nat)
    requires
        0 <= i < n,
        !(i < slots.len() && slots[i] is Some),
    ensures
        spec_filled(slots, n) < n,
    decreases n,
{
    lemma_filled_bound(slots, (n - 1) as nat);
    if i < n - 1 {
        lemma_filled_missing(slots, i, (n - 1) as nat);
    }
}

/// The reassembler after the first `n` of `frags`, and what the last of them
/// completed.
pub open spec fn spec_assembly_feed(a: AssemblyView, frags: Seq<FragmentView>, n: nat) -> (
    AssemblyView,
    Option<Seq<u8>>,
)
    decreases n,
{
    if n == 0 {
        (a, None)
    } else {
        spec_assembly_add(spec_assembly_feed(a, frags, (n - 1) as nat).0, frags[n - 1])
    }
}

/// Whether the reassembler can take each of the first `n` of `frags` in turn.
pub open spec fn spec_assembly_feed_accepted(
    a: AssemblyView,
    frags: Seq<FragmentView>,
    n: nat,
) -> bool
    decreases n,
{
    n > 0 ==> spec_assembly_feed_accepted(a, frags, (n - 1) as nat) && spec_assembly_accepts(
        spec_assembly_feed(a, frags, (n - 1) as nat).0,
        frags[n - 1],
    )
}

/// The reassembler that holds the first `n` of `frags` and waits for more.
pub open spec fn spec_assembly_partial(id: u64, frags: Seq<FragmentView>, n: nat) -> AssemblyView {
    AssemblyView {
        current_id: Some(id),
        slots: Seq::new(n, |i: int| Some(frags[i])),
        total: None,
    }
}

/// A range of filled slots counts its length.
pub proof fn lemma_filled_all(slots: Seq<Option<FragmentView>>, n: nat)
    requires
        n <= slots.len(),
        forall|i: int| 0 <= i < n ==> (#[trigger] slots[i]) is Some,
    ensures
        spec_filled(slots, n) == n,
    decreases n,
{
    if n > 0 {
        lemma_filled_all(slots, (n - 1) as nat);
    }
}

/// The first `k` chunks of a payload, joined, are its first `k * max`
/// octets, or all of it.
pub proof fn lemma_joined_chunks(
    id: u64,
    payload: Seq<u8>,
    max: nat,
    slots: Seq<Option<FragmentView>>,
    k: nat,
)
    requires
        max > 0,
        k <= spec_fragment_count(payload.len(), max),
        k <= slots.len(),
        forall|i: int| 0 <= i < k ==> (#[trigger] slots[i]) == Some(spec_fragment_at(id, payload, max, i)),
    ensures
        spec_joined(slots, k) == payload.subrange(
            0,
            if k * max < payload.len() {
                (k * max) as int
            } else {
                payload.len() as int
            },
        ),
    decreases k,
{
    if k == 0 {
        assert(0 * max == 0) by (nonlinear_arith);
        assert(spec_joined(slots, 0) =~= payload.subrange(0, 0));
    } else {
        let j = (k - 1) as nat;
        lemma_joined_chunks(id, payload, max, slots, j);
        assert(slots[j as int] == Some(spec_fragment_at(id, payload, max, j as int)));
        assert(k * max == j * max + max) by (nonlinear_arith)
            requires
                k == j + 1,
        ;
        if payload.len() == 0 {
            assert(spec_joined(slots, k) =~= payload.subrange(0, 0));
        } else {
            lemma_fragment_bounds(payload.len(), max, j as int);
            let upto = if k * max < payload.len() {
                (k * max) as int
            } else {
                payload.len() as int
            };
            assert(spec_joined(slots, k) =~= payload.subrange(0, upto));
        }
    }
}

/// Fed all but the last fragment of an instruction, a reassembler that was
/// not busy with that instruction takes each, completes nothing, and holds
/// exactly them.
pub proof fn lemma_feed_prefix(a: AssemblyView, id: u64, payload: Seq<u8>, max: nat, n: nat)
    requires
        max > 0,
        a.current_id != Some(id),
        spec_fragment_count(payload.len(), max) <= 0x1_0000,
        n < spec_fragment_count(payload.len(), max),
    ensures
        spec_assembly_feed_accepted(a, spec_fragments(id, payload, max), n),
        spec_assembly_feed(a, spec_fragments(id, payload, max), n) == (
            if n == 0 {
                a
            } else {
                spec_assembly_partial(id, spec_fragments(id, payload, max), n)
            },
            None::<Seq<u8>>,
        ),
    decreases n,
{
    let frags = spec_fragments(id, payload, max);
    if n > 0 {
        let j = (n - 1) as nat;
        lemma_feed_prefix(a, id, payload, max, j);
        let before = spec_assembly_feed(a, frags, j).0;
        let f = frags[j as int];
        assert(f == spec_fragment_at(id, payload, max, j as int));
        assert(f.fragment_num == j);
        assert(!f.is_final);
        let t = spec_assembly_slotted(before, f);
        assert(t.slots =~= spec_assembly_partial(id, frags, n).slots);
        assert(t == spec_assembly_partial(id, frags, n));
    }
}

/// Cutting a payload into fragments and feeding them, in order, to a
/// reassembler that was not busy with that instruction gives the payload
/// back with the last fragment and nothing before it. This holds for every
/// payload and every chunk size of at least one octet that make no more
/// than 65536 fragments.
pub proof fn lemma_reassembly_roundtrip(a: AssemblyView, id: u64, payload: Seq<u8>, max: nat)
    requires
        max > 0,
        a.current_id != Some(id),
        spec_fragment_count(payload.len(), max) <= 0x1_0000,
    ensures
        ({
            let frags = spec_fragments(id, payload, max);
            &&& spec_assembly_feed_accepted(a, frags, frags.len())
            &&& spec_assembly_feed(a, frags, frags.len()) == (
                spec_assembly_empty(),
                Some(payload),
            )
            &&& forall|n: nat|
                n < frags.len() ==> (#[trigger] spec_assembly_feed(a, frags, n)).1.is_none()
        }),
{
    let frags = spec_fragments(id, payload, max);
    let count = spec_fragment_count(payload.len(), max);
    let j = (count - 1) as nat;
    assert forall|n: nat| n < frags.len() implies (#[trigger] spec_assembly_feed(
        a,
        frags,
        n,
    )).1.is_none() by {
        lemma_feed_prefix(a, id, payload, max, n);
    }
    lemma_feed_prefix(a, id, payload, max, j);
    let before = spec_assembly_feed(a, frags, j).0;
    let f = frags[j as int];
    assert(f == spec_fragment_at(id, payload, max, j as int));
    assert(f.fragment_num == j && f.is_final);
    let t = spec_assembly_slotted(before, f);
    let full = Seq::new(count, |i: int| Some(frags[i]));
    assert(t.slots =~= full);
    assert(t.total == Some(count));
    lemma_filled_all(full, count);
    assert forall|i: int| 0 <= i < count implies (#[trigger] full[i]) == Some(
        spec_fragment_at(id, payload, max, i),
    ) by {}
    lemma_joined_chunks(id, payload, max, full, count);
    if payload.len() > 0 {
        lemma_fragment_bounds(payload.len(), max, j as int);
        assert(count * max == j * max + max) by (nonlinear_arith)
            requires
                count == j + 1,
        ;
    }
    assert(payload.subrange(0, payload.len() as int) =~= payload);
    assert(spec_joined(full, count) == payload);
}

/// The timestamp of a time in milliseconds: the time modulo 65536.
pub open spec fn spec_timestamp(millis: u128) -> u16 {
    (millis % 0x1_0000) as u16
}

/// The timestamp of a time in milliseconds.
pub fn timestamp_of(millis: u128) -> (ts: u16)
    ensures
        ts == spec_timestamp(millis),
{
    (millis % 0x1_0000) as u16
}

/// The timestamp of the present time: the milliseconds since the Unix
/// epoch, modulo 65536.
pub fn current_timestamp() -> (ts: u16) {
    timestamp_of(unix_millis())
}

} // verus!
