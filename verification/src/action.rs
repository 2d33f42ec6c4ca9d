//! What the engine asks its host to do. The engine decides; the host owns
//! the transport, the timers, the workers and the callback routines.

use crate::registry::CallbackHandler;
use vstd::prelude::*;

verus! {

/// An action as the contracts speak of it, texts as character sequences.
pub enum ActionView {
    Handshake { url: Seq<char> },
    ArmWatchdog { period_ms: u64 },
    HandOver,
    StartWorkers,
    Deliver { text: Seq<char> },
    Transmit { text: Seq<char> },
    Heartbeat { text: Seq<char> },
    Close,
    Shutdown,
    StopPolling,
    Call { pointer: usize, callback: usize, text: Seq<char> },
    CallIndexed { pointer: usize, callback: usize, index0: u32, index1: u32, text: Seq<char> },
    Mutate { key: Seq<char>, slot0: usize, slot1: usize, value: Seq<char> },
    Flush,
    ConnectRegisters { address: Seq<char> },
    RetryRegisters { delay_ms: u64 },
}

/// One thing for the host to do.
#[derive(Debug, PartialEq, Eq)]
pub enum Action {
    /// Start a handshake attempt against the endpoint `url`.
    Handshake { url: String },
    /// Arm the watchdog timer to tick after `period_ms` milliseconds.
    ArmWatchdog { period_ms: u64 },
    /// Hand the transport's send handle to the connection supervisor.
    HandOver,
    /// Start the outbound relay, the message dispatcher and the command
    /// scheduler.
    StartWorkers,
    /// Pass an inbound frame on to the message dispatcher.
    Deliver { text: String },
    /// Queue `text` for the outbound relay.
    Transmit { text: String },
    /// Write the heartbeat frame `text` to the transport directly.
    Heartbeat { text: String },
    /// Close the transport gracefully.
    Close,
    /// Shut the transport down abruptly.
    Shutdown,
    /// Stop the command scheduler.
    StopPolling,
    /// Invoke the routine `callback` with `pointer` and `text`.
    Call { pointer: usize, callback: usize, text: String },
    /// Invoke the routine `callback` with `pointer`, two indices and `text`.
    CallIndexed { pointer: usize, callback: usize, index0: u32, index1: u32, text: String },
    /// Run the internal mutator registered under `key` on the shared
    /// internal state, with the event's two indices and its value.
    Mutate { key: String, slot0: usize, slot1: usize, value: String },
    /// Run the post-processing hook on the shared internal state.
    Flush,
    /// Start the register bridge against `address`.
    ConnectRegisters { address: String },
    /// Wait `delay_ms` milliseconds, then try the register handshake again.
    RetryRegisters { delay_ms: u64 },
}

impl View for Action {
    type V = ActionView;

    open spec fn view(&self) -> ActionView {
        match *self {
            Action::Handshake { url } => ActionView::Handshake { url: url@ },
            Action::ArmWatchdog { period_ms } => ActionView::ArmWatchdog { period_ms },
            Action::HandOver => ActionView::HandOver,
            Action::StartWorkers => ActionView::StartWorkers,
            Action::Deliver { text } => ActionView::Deliver { text: text@ },
            Action::Transmit { text } => ActionView::Transmit { text: text@ },
            Action::Heartbeat { text } => ActionView::Heartbeat { text: text@ },
            Action::Close => ActionView::Close,
            Action::Shutdown => ActionView::Shutdown,
            Action::StopPolling => ActionView::StopPolling,
            Action::Call { pointer, callback, text } => ActionView::Call {
                pointer,
                callback,
                text: text@,
            },
            Action::CallIndexed { pointer, callback, index0, index1, text } => {
                ActionView::CallIndexed { pointer, callback, index0, index1, text: text@ }
            },
            Action::Mutate { key, slot0, slot1, value } => ActionView::Mutate {
                key: key@,
                slot0,
                slot1,
                value: value@,
            },
            Action::Flush => ActionView::Flush,
            Action::ConnectRegisters { address } => ActionView::ConnectRegisters {
                address: address@,
            },
            Action::RetryRegisters { delay_ms } => ActionView::RetryRegisters { delay_ms },
        }
    }
}

/// The actions that a vector of actions holds.
pub open spec fn action_views(v: Seq<Action>) -> Seq<ActionView> {
    Seq::new(v.len(), |i: int| v[i]@)
}

/// One call of each of `hs`, in their order, with `text`.
pub open spec fn calls(hs: Seq<CallbackHandler>, text: Seq<char>) -> Seq<ActionView> {
    Seq::new(
        hs.len(),
        |i: int| ActionView::Call { pointer: hs[i].pointer, callback: hs[i].callback, text },
    )
}

/// One indexed call of each of `hs`, in their order, with the two indices
/// and `text`.
pub open spec fn indexed_calls(
    hs: Seq<CallbackHandler>,
    index0: u32,
    index1: u32,
    text: Seq<char>,
) -> Seq<ActionView> {
    Seq::new(
        hs.len(),
        |i: int|
            ActionView::CallIndexed {
                pointer: hs[i].pointer,
                callback: hs[i].callback,
                index0,
                index1,
                text,
            },
    )
}

/// The call of an optional handler with `text`: none where none is
/// registered.
pub open spec fn notice(h: Option<CallbackHandler>, text: Seq<char>) -> Seq<ActionView> {
    match h {
        Some(h) => seq![ActionView::Call { pointer: h.pointer, callback: h.callback, text }],
        None => Seq::empty(),
    }
}

/// Appends `more` to `out`.
pub fn append_actions(out: &mut Vec<Action>, more: Vec<Action>)
    ensures
        action_views(final(out)@) == action_views(old(out)@) + action_views(more@),
{
    let ghost a = out@;
    let ghost b = more@;
    let mut more = more;
    out.append(&mut more);
    assert(action_views(a + b) =~= action_views(a) + action_views(b));
}

/// Appends one action to `out`.
pub fn push_action(out: &mut Vec<Action>, action: Action)
    ensures
        action_views(final(out)@) == action_views(old(out)@).push(action@),
{
    let ghost a = out@;
    out.push(action);
    assert(action_views(a.push(action)) =~= action_views(a).push(action@));
}

} // verus!
