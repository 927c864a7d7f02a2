//! The decisions of the client's main loop: what a key, a paste or the
//! state of the connection asks for. Carrying them out, reading the
//! keyboard and drawing the notification bar are left to the caller.

use crate::input::{
    handle_key_event, is_command_key, spec_is_command_key, spec_key_event_bytes, KeyEvent,
    KeyEventKind, MOSH_COMMAND_KEY,
};
use vstd::prelude::*;

verus! {

/// How long the peer may be silent before the user is told, in
/// milliseconds.
pub const SILENCE_NOTICE_MS: u64 = 15_000;

/// What the notification bar can say apart from the time of the last
/// contact.
#[derive(Debug, Clone, Copy, PartialEq, Eq, Structural)]
pub enum Notice {
    /// Nothing has been heard from the peer yet.
    Connecting,
    /// The command key was pressed: the commands are listed.
    CommandHelp,
    /// The user has asked to leave.
    Exiting,
    /// The user has asked to suspend, which cannot be done.
    SuspendUnsupported,
    /// A paste has come in the middle of a command.
    CommandCanceled,
}

/// What is to be done with the notification bar.
#[derive(Debug, Clone, Copy, PartialEq, Eq, Structural)]
pub enum NoticeChange {
    /// It stays as it is.
    Keep,
    /// It is emptied.
    Clear,
    /// It shows a notice.
    Show(Notice),
}

/// What a key or a paste asks for.
#[derive(Debug)]
pub struct InputDecision {
    /// Whether the command key is pending afterwards.
    pub command_pending: bool,
    /// The octets to send to the remote host, if any.
    pub send: Option<Vec<u8>>,
    pub notice: NoticeChange,
    /// Whether the shutdown of the session is to begin.
    pub shutdown: bool,
}

/// What a key or a paste asks for, as a mathematical value.
pub struct InputDecisionView {
    pub command_pending: bool,
    pub send: Option<Seq<u8>>,
    pub notice: NoticeChange,
    pub shutdown: bool,
}

impl View for InputDecision {
    type V = InputDecisionView;

    open spec fn view(&self) -> InputDecisionView {
        InputDecisionView {
            command_pending: self.command_pending,
            send: match self.send {
                Some(octets) => Some(octets@),
                None => None,
            },
            notice: self.notice,
            shutdown: self.shutdown,
        }
    }
}

/// The decision that changes nothing.
pub open spec fn spec_nothing(command_pending: bool) -> InputDecisionView {
    InputDecisionView { command_pending, send: None, notice: NoticeChange::Keep, shutdown: false }
}

/// What a key that follows the command key asks for: a full stop leaves,
/// Ctrl-Z would suspend, a caret sends the command key alone, any other key
/// is sent after the command key; a key that sends nothing empties the
/// notification bar.
pub open spec fn spec_command_decision(octets: Option<Seq<u8>>) -> InputDecisionView {
    match octets {
        None => InputDecisionView { notice: NoticeChange::Clear, ..spec_nothing(false) },
        Some(data) => if data == seq![0x2Eu8] {
            InputDecisionView {
                notice: NoticeChange::Show(Notice::Exiting),
                shutdown: true,
                ..spec_nothing(false)
            }
        } else if data == seq![0x1Au8] {
            InputDecisionView {
                notice: NoticeChange::Show(Notice::SuspendUnsupported),
                ..spec_nothing(false)
            }
        } else if data == seq![0x5Eu8] {
            InputDecisionView { send: Some(seq![MOSH_COMMAND_KEY]), ..spec_nothing(false) }
        } else {
            InputDecisionView { send: Some(seq![MOSH_COMMAND_KEY] + data), ..spec_nothing(false) }
        },
    }
}

/// What a key event asks for.
///
/// Releases, and keys during a shutdown, are ignored. The command key
/// announces a command; pressed twice, it is sent itself. The key after
/// it is the command. Any other key sends its octets.
pub open spec fn spec_key_decision(
    command_pending: bool,
    shutdown_in_progress: bool,
    event: KeyEvent,
) -> InputDecisionView {
    if event.kind == KeyEventKind::Release || shutdown_in_progress {
        spec_nothing(command_pending)
    } else if spec_is_command_key(event) {
        if command_pending {
            InputDecisionView {
                send: Some(seq![MOSH_COMMAND_KEY]),
                notice: NoticeChange::Clear,
                ..spec_nothing(false)
            }
        } else {
            InputDecisionView {
                notice: NoticeChange::Show(Notice::CommandHelp),
                ..spec_nothing(true)
            }
        }
    } else if command_pending {
        spec_command_decision(spec_key_event_bytes(event))
    } else {
        InputDecisionView { send: spec_key_event_bytes(event), ..spec_nothing(false) }
    }
}

/// Whether a list of octets is the one given octet.
fn is_octet(data: &Vec<u8>, octet: u8) -> (yes: bool)
    ensures
        yes == (data@ == seq![octet]),
{
    if data.len() == 1 && data[0] == octet {
        assert(data@ =~= seq![octet]);
        true
    } else {
        assert(seq![octet].len() == 1 && seq![octet][0] == octet);
        false
    }
}

/// Decides what a key event asks for, given whether the command key is
/// pending and whether the session is shutting down.
pub fn decide_key(command_pending: bool, shutdown_in_progress: bool, event: &KeyEvent) -> (d:
    InputDecision)
    ensures
        d@ == spec_key_decision(command_pending, shutdown_in_progress, *event),
{
    let released = match event.kind {
        KeyEventKind::Release => true,
        _ => false,
    };
    if released || shutdown_in_progress {
        return InputDecision {
            command_pending,
            send: None,
            notice: NoticeChange::Keep,
            shutdown: false,
        };
    }
    if is_command_key(event) {
        if command_pending {
            let mut out: Vec<u8> = Vec::new();
            out.push(MOSH_COMMAND_KEY);
            assert(out@ =~= seq![MOSH_COMMAND_KEY]);
            return InputDecision {
                command_pending: false,
                send: Some(out),
                notice: NoticeChange::Clear,
                shutdown: false,
            };
        }
        return InputDecision {
            command_pending: true,
            send: None,
            notice: NoticeChange::Show(Notice::CommandHelp),
            shutdown: false,
        };
    }
    let octets = handle_key_event(event);
    if !command_pending {
        return InputDecision {
            command_pending: false,
            send: octets,
            notice: NoticeChange::Keep,
            shutdown: false,
        };
    }
    match octets {
        None => InputDecision {
            command_pending: false,
            send: None,
            notice: NoticeChange::Clear,
            shutdown: false,
        },
        Some(data) => {
            if is_octet(&data, 0x2E) {
                InputDecision {
                    command_pending: false,
                    send: None,
                    notice: NoticeChange::Show(Notice::Exiting),
                    shutdown: true,
                }
            } else if is_octet(&data, 0x1A) {
                InputDecision {
                    command_pending: false,
                    send: None,
                    notice: NoticeChange::Show(Notice::SuspendUnsupported),
                    shutdown: false,
                }
            } else {
                let mut out: Vec<u8> = Vec::new();
                out.push(MOSH_COMMAND_KEY);
                if !is_octet(&data, 0x5E) {
                    let mut i: usize = 0;
                    while i < data.len()
                        invariant
                            i <= data@.len(),
                            out@ == seq![MOSH_COMMAND_KEY] + data@.take(i as int),
                        decreases data@.len() - i,
                    {
                        out.push(data[i]);
                        assert(data@.take(i + 1) =~= data@.take(i as int).push(data@[i as int]));
                        assert(out@ =~= seq![MOSH_COMMAND_KEY] + data@.take(i + 1));
                        i = i + 1;
                    }
                    assert(data@.take(i as int) =~= data@);
                } else {
                    assert(out@ =~= seq![MOSH_COMMAND_KEY]);
                }
                InputDecision {
                    command_pending: false,
                    send: Some(out),
                    notice: NoticeChange::Keep,
                    shutdown: false,
                }
            }
        },
    }
}

/// What a paste asks for: nothing during a shutdown; else it cancels a
/// pending command, and its octets are sent if there are any.
pub open spec fn spec_paste_decision(
    command_pending: bool,
    shutdown_in_progress: bool,
    data: Seq<u8>,
) -> InputDecisionView {
    if shutdown_in_progress {
        spec_nothing(command_pending)
    } else {
        InputDecisionView {
            command_pending: false,
            send: if data.len() > 0 {
                Some(data)
            } else {
                None
            },
            notice: if command_pending {
                NoticeChange::Show(Notice::CommandCanceled)
            } else {
                NoticeChange::Keep
            },
            shutdown: false,
        }
    }
}

/// Decides what a paste asks for.
pub fn decide_paste(command_pending: bool, shutdown_in_progress: bool, data: Vec<u8>) -> (d:
    InputDecision)
    ensures
        d@ == spec_paste_decision(command_pending, shutdown_in_progress, data@),
{
    if shutdown_in_progress {
        return InputDecision {
            command_pending,
            send: None,
            notice: NoticeChange::Keep,
            shutdown: false,
        };
    }
    let notice = if command_pending {
        NoticeChange::Show(Notice::CommandCanceled)
    } else {
        NoticeChange::Keep
    };
    let send = if data.len() > 0 {
        Some(data)
    } else {
        None
    };
    InputDecision { command_pending: false, send, notice, shutdown: false }
}

/// What the state of the connection has the notification bar say.
#[derive(Debug, Clone, Copy, PartialEq, Eq, Structural)]
pub enum ConnectionNotice {
    /// Nothing new.
    Keep,
    /// The time since the last contact, in milliseconds.
    LastContact(u64),
    /// Nothing has been heard from the peer yet.
    Connecting,
}

/// Decides what the state of the connection has the notification bar
/// say: the time since the last contact where that is more than fifteen
/// seconds; else that the connection is being made, until something has
/// been received.
pub fn connection_notice(since_last_recv_ms: u64, has_received_data: bool) -> (n:
    ConnectionNotice)
    ensures
        n == if since_last_recv_ms > SILENCE_NOTICE_MS {
            ConnectionNotice::LastContact(since_last_recv_ms)
        } else if !has_received_data {
            ConnectionNotice::Connecting
        } else {
            ConnectionNotice::Keep
        },
{
    if since_last_recv_ms > SILENCE_NOTICE_MS {
        ConnectionNotice::LastContact(since_last_recv_ms)
    } else if !has_received_data {
        ConnectionNotice::Connecting
    } else {
        ConnectionNotice::Keep
    }
}

/// Whether the main loop ends: a shutdown of ours was acknowledged or has
/// timed out, or the peer's goodbye has been acknowledged.
pub fn session_over(
    shutdown_in_progress: bool,
    shutdown_acknowledged: bool,
    shutdown_ack_timed_out: bool,
    counterparty_shutdown_ack_sent: bool,
) -> (over: bool)
    ensures
        over == ((shutdown_in_progress && (shutdown_acknowledged || shutdown_ack_timed_out))
            || counterparty_shutdown_ack_sent),
{
    (shutdown_in_progress && (shutdown_acknowledged || shutdown_ack_timed_out))
        || counterparty_shutdown_ack_sent
}

} // verus!
