//! The client's document: an ordered log of keystrokes and window sizes
//! that only grows, except where a common prefix is taken off.

use crate::transport::proto::userinput::{
    lemma_user_message_roundtrip, spec_user_message_bytes,
    spec_user_message_decode, Instruction, InstructionView, Keystroke, KeystrokeView,
    ResizeMessage, ResizeMessageView, UserMessage, UserMessageView, spec_instruction_views,
    spec_instructions_bytes,
};
use crate::transport::proto::wire::{
    lemma_varint_roundtrip, spec_bytes_field, spec_key, WIRE_BYTES,
};
use vstd::prelude::*;
use vstd::std_specs::cmp::PartialEqSpecImpl;

verus! {

/// One event of user input.
#[derive(Debug, Clone, Copy, PartialEq, Eq, Structural)]
pub enum UserEvent {
    /// One octet typed.
    Keystroke(u8),
    /// A new window size.
    Resize { width: i32, height: i32 },
}

/// Why a diff could not be applied.
#[derive(Debug, Clone, Copy, PartialEq, Eq, Structural)]
pub enum StreamError {
    /// The diff is malformed, or holds an instruction without a keystroke
    /// or a complete window size.
    BadUserDiff,
}

/// The log of user input.
#[derive(Debug, Eq)]
pub struct UserStream {
    actions: Vec<UserEvent>,
}

impl View for UserStream {
    type V = Seq<UserEvent>;

    closed spec fn view(&self) -> Seq<UserEvent> {
        self.actions@
    }
}

impl Clone for UserStream {
    fn clone(&self) -> (copy: Self)
        ensures
            copy@ == self@,
    {
        let mut actions: Vec<UserEvent> = Vec::new();
        let mut i: usize = 0;
        while i < self.actions.len()
            invariant
                i <= self.actions@.len(),
                actions@ == self.actions@.take(i as int),
            decreases self.actions@.len() - i,
        {
            actions.push(self.actions[i]);
            i = i + 1;
            assert(actions@ =~= self.actions@.take(i as int));
        }
        assert(self.actions@.take(i as int) =~= self.actions@);
        UserStream { actions }
    }
}

impl PartialEq for UserStream {
    fn eq(&self, other: &UserStream) -> (same: bool) {
        if self.actions.len() != other.actions.len() {
            return false;
        }
        let mut i: usize = 0;
        while i < self.actions.len()
            invariant
                self.actions@.len() == other.actions@.len(),
                i <= self.actions@.len(),
                forall|k: int| 0 <= k < i ==> self.actions@[k] == other.actions@[k],
            decreases self.actions@.len() - i,
        {
            if self.actions[i] != other.actions[i] {
                return false;
            }
            i = i + 1;
        }
        assert(self.actions@ =~= other.actions@);
        true
    }
}

impl PartialEqSpecImpl for UserStream {
    open spec fn obeys_eq_spec() -> bool {
        true
    }

    open spec fn eq_spec(&self, other: &UserStream) -> bool {
        self@ == other@
    }
}

/// Whether `prefix` is how `whole` begins.
pub open spec fn spec_is_prefix(prefix: Seq<UserEvent>, whole: Seq<UserEvent>) -> bool {
    prefix.len() <= whole.len() && whole.take(prefix.len() as int) == prefix
}

/// The instruction that holds the given octets typed.
pub open spec fn spec_keystroke_instruction(keys: Seq<u8>) -> InstructionView {
    InstructionView { keystroke: Some(KeystrokeView { keys: Some(keys) }), resize: None }
}

/// The instruction that holds a window size.
pub open spec fn spec_resize_instruction(width: i32, height: i32) -> InstructionView {
    InstructionView {
        keystroke: None,
        resize: Some(ResizeMessageView { width: Some(width), height: Some(height) }),
    }
}

/// Whether more keystrokes can join an instruction.
pub open spec fn spec_takes_keys(i: InstructionView) -> bool {
    i.keystroke is Some && i.keystroke->Some_0.keys is Some && i.resize is None
}

/// The instructions that a run of events is written as: keystrokes that
/// follow one another share one instruction, each window size has its own.
pub open spec fn spec_batch(events: Seq<UserEvent>) -> Seq<InstructionView>
    decreases events.len(),
{
    if events.len() == 0 {
        Seq::empty()
    } else {
        let before = spec_batch(events.drop_last());
        match events.last() {
            UserEvent::Keystroke(b) => if before.len() > 0 && spec_takes_keys(before.last()) {
                before.drop_last().push(
                    spec_keystroke_instruction(before.last().keystroke->Some_0.keys->Some_0.push(b)),
                )
            } else {
                before.push(spec_keystroke_instruction(seq![b]))
            },
            UserEvent::Resize { width, height } => before.push(
                spec_resize_instruction(width, height),
            ),
        }
    }
}

/// The diff that brings `basis` to `whole`: the events after the basis, as
/// a message.
pub open spec fn spec_diff(whole: Seq<UserEvent>, basis: Seq<UserEvent>) -> Seq<u8> {
    spec_user_message_bytes(
        UserMessageView { instruction: spec_batch(whole.skip(basis.len() as int)) },
    )
}

/// Whether an instruction can be applied: it holds keystrokes or a window
/// size, its keystroke record holds octets, its window size both numbers.
pub open spec fn spec_instruction_valid(i: InstructionView) -> bool {
    &&& i.keystroke is Some || i.resize is Some
    &&& i.keystroke is Some ==> i.keystroke->Some_0.keys is Some
    &&& i.resize is Some ==> i.resize->Some_0.width is Some && i.resize->Some_0.height is Some
}

/// The keystrokes of a run of octets.
pub open spec fn spec_key_events(keys: Seq<u8>) -> Seq<UserEvent> {
    Seq::new(keys.len(), |k: int| UserEvent::Keystroke(keys[k]))
}

/// The events of one instruction: its keystrokes, then its window size.
pub open spec fn spec_instruction_events(i: InstructionView) -> Seq<UserEvent> {
    (match i.keystroke {
        Some(k) => match k.keys {
            Some(keys) => spec_key_events(keys),
            None => Seq::empty(),
        },
        None => Seq::empty(),
    }) + (match i.resize {
        Some(r) => if r.width is Some && r.height is Some {
            seq![UserEvent::Resize { width: r.width->Some_0, height: r.height->Some_0 }]
        } else {
            Seq::empty()
        },
        None => Seq::empty(),
    })
}

/// The events of the first `n` instructions of a list.
pub open spec fn spec_message_events(list: Seq<InstructionView>, n: nat) -> Seq<UserEvent>
    decreases n,
{
    if n == 0 {
        Seq::empty()
    } else {
        spec_message_events(list, (n - 1) as nat) + spec_instruction_events(list[n - 1])
    }
}

/// The events that a diff adds; `None` where it cannot be applied.
pub open spec fn spec_diff_events(diff: Seq<u8>) -> Option<Seq<UserEvent>> {
    if diff.len() == 0 {
        Some(Seq::empty())
    } else {
        match spec_user_message_decode(diff) {
            Some(m) => if forall|j: int|
                0 <= j < m.instruction.len() ==> spec_instruction_valid(
                    #[trigger] m.instruction[j],
                ) {
                Some(spec_message_events(m.instruction, m.instruction.len()))
            } else {
                None
            },
            None => None,
        }
    }
}

impl UserStream {
    /// The empty log.
    pub fn new() -> (s: UserStream)
        ensures
            s@ == Seq::<UserEvent>::empty(),
    {
        UserStream { actions: Vec::new() }
    }

    /// Appends one octet typed.
    pub fn push_keystroke(&mut self, byte: u8)
        ensures
            final(self)@ == old(self)@.push(UserEvent::Keystroke(byte)),
    {
        self.actions.push(UserEvent::Keystroke(byte));
    }

    /// Appends the octets typed, in order.
    pub fn push_keystrokes(&mut self, bytes: &[u8])
        ensures
            final(self)@ == old(self)@ + spec_key_events(bytes@),
    {
        let mut i: usize = 0;
        assert(self@ =~= old(self)@ + spec_key_events(bytes@).take(0));
        while i < bytes.len()
            invariant
                i <= bytes@.len(),
                self@ == old(self)@ + spec_key_events(bytes@).take(i as int),
            decreases bytes@.len() - i,
        {
            self.actions.push(UserEvent::Keystroke(bytes[i]));
            i = i + 1;
            assert(self@ =~= old(self)@ + spec_key_events(bytes@).take(i as int));
        }
        assert(spec_key_events(bytes@).take(i as int) =~= spec_key_events(bytes@));
    }

    /// Appends a window size.
    pub fn push_resize(&mut self, width: i32, height: i32)
        ensures
            final(self)@ == old(self)@.push(UserEvent::Resize { width, height }),
    {
        self.actions.push(UserEvent::Resize { width, height });
    }

    /// Whether the log holds no event.
    pub fn is_empty(&self) -> (empty: bool)
        ensures
            empty == (self@.len() == 0),
    {
        self.actions.len() == 0
    }

    /// The number of events in the log.
    pub fn len(&self) -> (n: usize)
        ensures
            n == self@.len(),
    {
        self.actions.len()
    }

    /// Whether the log begins with all of `prefix`.
    pub fn starts_with(&self, prefix: &UserStream) -> (yes: bool)
        ensures
            yes == spec_is_prefix(prefix@, self@),
    {
        let n = prefix.actions.len();
        if n > self.actions.len() {
            return false;
        }
        let mut i: usize = 0;
        while i < n
            invariant
                n == prefix.actions@.len(),
                n <= self.actions@.len(),
                i <= n,
                forall|k: int| 0 <= k < i ==> self.actions@[k] == prefix.actions@[k],
            decreases n - i,
        {
            if self.actions[i] != prefix.actions[i] {
                assert(self@.take(n as int)[i as int] != prefix@[i as int]);
                return false;
            }
            i = i + 1;
        }
        assert(self@.take(n as int) =~= prefix@);
        true
    }

    /// Takes the events of `prefix` off the front of the log, which must
    /// begin with them. The log is shorter by the length of the prefix
    /// afterwards.
    pub fn subtract(&mut self, prefix: &UserStream)
        requires
            spec_is_prefix(prefix@, old(self)@),
        ensures
            final(self)@ == old(self)@.skip(prefix@.len() as int),
            final(self)@.len() == old(self)@.len() - prefix@.len(),
    {
        let n = prefix.actions.len();
        if n == 0 {
            assert(self@.skip(0) =~= self@);
            return ;
        }
        let mut rest: Vec<UserEvent> = Vec::new();
        let mut i: usize = n;
        while i < self.actions.len()
            invariant
                n <= i <= self.actions@.len(),
                rest@ == self.actions@.subrange(n as int, i as int),
            decreases self.actions@.len() - i,
        {
            rest.push(self.actions[i]);
            i = i + 1;
            assert(rest@ =~= self.actions@.subrange(n as int, i as int));
        }
        assert(rest@ =~= self.actions@.skip(n as int));
        self.actions = rest;
    }

    /// Writes the events after `existing`, which must be how the log
    /// begins, as a message. Nothing is written where there are none.
    pub fn diff_from(&self, existing: &UserStream) -> (diff: Vec<u8>)
        requires
            spec_is_prefix(existing@, self@),
        ensures
            diff@ == spec_diff(self@, existing@),
            self@.len() == existing@.len() ==> diff@.len() == 0,
            spec_diff_events(diff@) == Some(self@.skip(existing@.len() as int)),
    {
        let start = existing.actions.len();
        let ghost tail = self@.skip(start as int);
        let mut list: Vec<Instruction> = Vec::new();
        let mut pending: Vec<u8> = Vec::new();
        let mut have_keys = false;
        let mut i: usize = start;
        assert(tail.take(0) =~= Seq::empty());
        assert(spec_instruction_views(list@) =~= Seq::empty());
        while i < self.actions.len()
            invariant
                start <= i <= self.actions@.len(),
                tail == self@.skip(start as int),
                have_keys ==> spec_batch(tail.take(i - start)) == spec_instruction_views(
                    list@,
                ).push(spec_keystroke_instruction(pending@)),
                !have_keys ==> spec_batch(tail.take(i - start)) == spec_instruction_views(list@),
                !have_keys ==> list@.len() == 0 || !spec_takes_keys(list@.last()@),
            decreases self.actions@.len() - i,
        {
            let ghost done = tail.take(i - start);
            let ghost next = tail.take(i - start + 1);
            let ghost views = spec_instruction_views(list@);
            assert(next.drop_last() =~= done);
            assert(next.last() == self.actions@[i as int]);
            match self.actions[i] {
                UserEvent::Keystroke(b) => {
                    if have_keys {
                        let ghost keys = pending@;
                        pending.push(b);
                        assert(views.push(spec_keystroke_instruction(keys)).drop_last() =~= views);
                    } else {
                        pending = Vec::new();
                        pending.push(b);
                        have_keys = true;
                        assert(pending@ =~= seq![b]);
                        assert(views.len() > 0 ==> views.last() == list@.last()@);
                    }
                },
                UserEvent::Resize { width, height } => {
                    if have_keys {
                        let ghost keys = pending@;
                        list.push(
                            Instruction { keystroke: Some(Keystroke { keys: Some(pending) }), resize: None },
                        );
                        assert(spec_instruction_views(list@) =~= views.push(
                            spec_keystroke_instruction(keys),
                        ));
                        pending = Vec::new();
                        have_keys = false;
                    }
                    let ghost views2 = spec_instruction_views(list@);
                    list.push(
                        Instruction {
                            keystroke: None,
                            resize: Some(
                                ResizeMessage { width: Some(width), height: Some(height) },
                            ),
                        },
                    );
                    assert(spec_instruction_views(list@) =~= views2.push(
                        spec_resize_instruction(width, height),
                    ));
                },
            }
            i = i + 1;
        }
        assert(tail.take(i - start) =~= tail);
        if have_keys {
            let ghost views = spec_instruction_views(list@);
            let ghost keys = pending@;
            list.push(
                Instruction { keystroke: Some(Keystroke { keys: Some(pending) }), resize: None },
            );
            assert(spec_instruction_views(list@) =~= views.push(spec_keystroke_instruction(keys)));
        }
        let message = UserMessage { instruction: list };
        let diff = message.encode_to_vec();
        let written = diff.len();
        proof {
            lemma_diff_then_apply(self@, existing@);
            if self@.len() == existing@.len() {
                assert(tail.len() == 0);
                assert(spec_batch(tail) =~= Seq::empty());
                assert(spec_instructions_bytes(Seq::<InstructionView>::empty(), 0)
                    =~= Seq::<u8>::empty());
            }
        }
        diff
    }

    /// Writes the whole log as a message.
    pub fn init_diff(&self) -> (diff: Vec<u8>)
        ensures
            diff@ == spec_diff(self@, Seq::<UserEvent>::empty()),
    {
        let empty = UserStream::new();
        assert(self@.take(0) =~= Seq::<UserEvent>::empty());
        self.diff_from(&empty)
    }

    /// Appends the events of a diff. A diff that is malformed, or holds an
    /// instruction that cannot be applied, leaves the log as it was and
    /// gives `BadUserDiff`.
    pub fn apply_string(&mut self, diff: &[u8]) -> (applied: Result<(), StreamError>)
        ensures
            match spec_diff_events(diff@) {
                Some(events) => applied is Ok && final(self)@ == old(self)@ + events,
                None => applied == Err::<(), StreamError>(StreamError::BadUserDiff)
                    && final(self)@ == old(self)@,
            },
    {
        if diff.len() == 0 {
            assert(self@ =~= old(self)@ + Seq::<UserEvent>::empty());
            return Ok(());
        }
        let message = match UserMessage::decode(diff) {
            Ok(m) => m,
            Err(_) => {
                return Err(StreamError::BadUserDiff);
            },
        };
        let ghost list = message@.instruction;
        let n = message.instruction.len();
        let mut j: usize = 0;
        while j < n
            invariant
                n == message.instruction@.len(),
                list == message@.instruction,
                j <= n,
                diff@.len() > 0,
                spec_user_message_decode(diff@) == Some(message@),
                self@ == old(self)@,
                forall|k: int| 0 <= k < j ==> spec_instruction_valid(#[trigger] list[k]),
            decreases n - j,
        {
            let inst = &message.instruction[j];
            assert(list[j as int] == inst@);
            let has_keys = match &inst.keystroke {
                Some(k) => k.keys.is_some(),
                None => true,
            };
            let has_size = match &inst.resize {
                Some(r) => r.width.is_some() && r.height.is_some(),
                None => true,
            };
            if !has_keys || !has_size || (inst.keystroke.is_none() && inst.resize.is_none()) {
                assert(!spec_instruction_valid(list[j as int]));
                return Err(StreamError::BadUserDiff);
            }
            j = j + 1;
        }
        let mut j: usize = 0;
        assert(self@ =~= old(self)@ + spec_message_events(list, 0));
        while j < n
            invariant
                n == message.instruction@.len(),
                list == message@.instruction,
                j <= n,
                forall|k: int| 0 <= k < n ==> spec_instruction_valid(#[trigger] list[k]),
                self@ == old(self)@ + spec_message_events(list, j as nat),
            decreases n - j,
        {
            let inst = &message.instruction[j];
            assert(list[j as int] == inst@);
            assert(spec_instruction_valid(list[j as int]));
            let ghost before = self@;
            match &inst.keystroke {
                Some(k) => match &k.keys {
                    Some(keys) => {
                        self.push_keystrokes(keys.as_slice());
                    },
                    None => {},
                },
                None => {},
            }
            match &inst.resize {
                Some(r) => match (r.width, r.height) {
                    (Some(w), Some(h)) => {
                        self.push_resize(w, h);
                    },
                    _ => {},
                },
                None => {},
            }
            assert(self@ =~= before + spec_instruction_events(list[j as int]));
            j = j + 1;
            assert(self@ =~= old(self)@ + spec_message_events(list, j as nat));
        }
        Ok(())
    }
}

/// The events of the first `n` instructions depend on those alone.
pub proof fn lemma_message_events_prefix(
    a: Seq<InstructionView>,
    b: Seq<InstructionView>,
    n: nat,
)
    requires
        n <= a.len(),
        n <= b.len(),
        forall|j: int| 0 <= j < n ==> a[j] == b[j],
    ensures
        spec_message_events(a, n) == spec_message_events(b, n),
    decreases n,
{
    if n > 0 {
        lemma_message_events_prefix(a, b, (n - 1) as nat);
    }
}

/// Whether an instruction is one that batching makes: keystrokes alone, or
/// a window size alone.
pub open spec fn spec_batched_shape(i: InstructionView, bound: nat) -> bool {
    ||| (i.resize is None && i.keystroke is Some && i.keystroke->Some_0.keys is Some
        && i.keystroke->Some_0.keys->Some_0.len() <= bound)
    ||| (i.keystroke is None && i.resize is Some && i.resize->Some_0.width is Some
        && i.resize->Some_0.height is Some)
}

/// Batching loses nothing: the instructions made of a run of events hold
/// exactly those events, in order, and there is one at least where there
/// is an event.
pub proof fn lemma_batch_holds_events(events: Seq<UserEvent>)
    ensures
        (spec_batch(events).len() == 0) == (events.len() == 0),
        forall|j: int|
            0 <= j < spec_batch(events).len() ==> spec_batched_shape(
                #[trigger] spec_batch(events)[j],
                events.len(),
            ),
        spec_message_events(spec_batch(events), spec_batch(events).len()) == events,
    decreases events.len(),
{
    let out = spec_batch(events);
    if events.len() == 0 {
    } else {
        let init = events.drop_last();
        let before = spec_batch(init);
        lemma_batch_holds_events(init);
        assert(init.push(events.last()) =~= events);
        match events.last() {
            UserEvent::Keystroke(b) => {
                if before.len() > 0 && spec_takes_keys(before.last()) {
                    let n = (before.len() - 1) as nat;
                    let keys = before.last().keystroke->Some_0.keys->Some_0;
                    assert(spec_batched_shape(before[n as int], init.len()));
                    assert(out == before.drop_last().push(
                        spec_keystroke_instruction(keys.push(b)),
                    ));
                    lemma_message_events_prefix(out, before, n);
                    assert(spec_key_events(keys.push(b)) =~= spec_key_events(keys).push(
                        UserEvent::Keystroke(b),
                    ));
                    assert(spec_instruction_events(out[n as int]) =~= spec_instruction_events(
                        before[n as int],
                    ).push(UserEvent::Keystroke(b)));
                    assert(spec_message_events(out, out.len()) =~= spec_message_events(
                        before,
                        before.len(),
                    ).push(UserEvent::Keystroke(b)));
                    assert forall|j: int| 0 <= j < out.len() implies spec_batched_shape(
                        #[trigger] out[j],
                        events.len(),
                    ) by {
                        if j < n {
                            assert(out[j] == before[j]);
                            assert(spec_batched_shape(before[j], init.len()));
                        }
                    }
                } else {
                    assert(out == before.push(spec_keystroke_instruction(seq![b])));
                    lemma_message_events_prefix(out, before, before.len());
                    assert(spec_key_events(seq![b]) =~= seq![UserEvent::Keystroke(b)]);
                    assert(spec_instruction_events(out[before.len() as int]) =~= seq![
                        UserEvent::Keystroke(b),
                    ]);
                    assert(spec_message_events(out, out.len()) =~= spec_message_events(
                        before,
                        before.len(),
                    ).push(UserEvent::Keystroke(b)));
                    assert forall|j: int| 0 <= j < out.len() implies spec_batched_shape(
                        #[trigger] out[j],
                        events.len(),
                    ) by {
                        if j < before.len() {
                            assert(out[j] == before[j]);
                            assert(spec_batched_shape(before[j], init.len()));
                        }
                    }
                }
            },
            UserEvent::Resize { width, height } => {
                assert(out == before.push(spec_resize_instruction(width, height)));
                lemma_message_events_prefix(out, before, before.len());
                assert(spec_instruction_events(out[before.len() as int]) =~= seq![
                    UserEvent::Resize { width, height },
                ]);
                assert(spec_message_events(out, out.len()) =~= spec_message_events(
                    before,
                    before.len(),
                ).push(UserEvent::Resize { width, height }));
                assert forall|j: int| 0 <= j < out.len() implies spec_batched_shape(
                    #[trigger] out[j],
                    events.len(),
                ) by {
                    if j < before.len() {
                        assert(out[j] == before[j]);
                        assert(spec_batched_shape(before[j], init.len()));
                    }
                }
            },
        }
    }
}

/// Applying to a basis the diff that was taken from it gives the whole log
/// back: the diff holds exactly the events after the basis. This holds of
/// every diff whose length can be written, as every diff has that is held
/// in memory.
pub proof fn lemma_diff_then_apply(whole: Seq<UserEvent>, basis: Seq<UserEvent>)
    requires
        spec_is_prefix(basis, whole),
        spec_diff(whole, basis).len() <= u64::MAX,
    ensures
        spec_diff_events(spec_diff(whole, basis)) == Some(whole.skip(basis.len() as int)),
        basis + whole.skip(basis.len() as int) == whole,
{
    let tail = whole.skip(basis.len() as int);
    let list = spec_batch(tail);
    let m = UserMessageView { instruction: list };
    let diff = spec_diff(whole, basis);
    lemma_batch_holds_events(tail);
    assert forall|j: int| 0 <= j < list.len() implies spec_instruction_valid(
        #[trigger] list[j],
    ) by {
        assert(spec_batched_shape(list[j], tail.len()));
    }
    lemma_user_message_roundtrip(m);
    assert(basis + tail =~= whole);
    if list.len() > 0 {
        let n = list.len();
        let body = crate::transport::proto::userinput::spec_instruction_bytes(list[n - 1]);
        lemma_varint_roundtrip(
            spec_key(crate::transport::proto::userinput::FIELD_INSTRUCTION, WIRE_BYTES),
            Seq::empty(),
        );
        assert(diff == spec_instructions_bytes(list, (n - 1) as nat) + spec_bytes_field(
            crate::transport::proto::userinput::FIELD_INSTRUCTION,
            body,
        ));
        assert(diff.len() > 0);
    } else {
        assert(tail =~= Seq::empty());
    }
}

} // verus!
