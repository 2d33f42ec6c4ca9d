//! The engine as a state machine: its state as plain values, and each of
//! its transitions as a function from a state to the next state and the
//! actions for the host.

use crate::action::{calls, indexed_calls, notice, ActionView};
use crate::bridge::RETRY_DELAY_MS;
use crate::endpoint::{register_address, ws_url};
use crate::frame::{event_name, frame_events, lines_events, slot_text, strip, EventView};
use crate::json::{evaluate_frame, json_text, poll_frame};
use crate::registry::{fired, invoked, pruned, CallbackHandler};
use crate::text::{index_value, joined, lemma_joined_concat};
use vstd::prelude::*;

verus! {

/// The state of the engine.
pub struct BotnanaView {
    pub ip: Seq<char>,
    pub port: u16,
    /// Whether the channel to the outbound relay exists.
    pub user_sender: bool,
    /// Whether the transport's send handle is stored.
    pub ws_out: bool,
    pub tag_handlers: Map<Seq<char>, Seq<CallbackHandler>>,
    pub tagname_handlers: Map<Seq<char>, Seq<CallbackHandler>>,
    pub internal_handlers: Set<Seq<char>>,
    pub scripts_buffer: Seq<Seq<char>>,
    pub scripts_pop_count: u32,
    pub poll_interval_ms: u64,
    pub is_connected: bool,
    pub is_connecting: bool,
    pub on_open_cb: Option<CallbackHandler>,
    pub on_error_cb: Option<CallbackHandler>,
    pub on_send_cb: Option<CallbackHandler>,
    pub on_message_cb: Option<CallbackHandler>,
    pub init_queries: Seq<Seq<char>>,
    pub cyclic_queries: Seq<Seq<char>>,
    pub last_query: nat,
    pub query_count: nat,
    pub is_mb_connected: bool,
    /// The bridge's ends of the register slots, while the engine holds
    /// them.
    pub mb_bridge: Option<BridgeView>,
    /// The input registers as the application sees them.
    pub mb_inputs: Seq<u16>,
    /// The holding registers as the application has set them.
    pub mb_holding: Seq<u16>,
    /// The holding registers that the application published last.
    pub mb_published: Seq<u16>,
    /// The input registers that the application fetched last.
    pub mb_fetched: Seq<u16>,
}

/// The bridge's side of the two register slots.
pub struct BridgeView {
    /// The inputs as the bridge has gathered them.
    pub inputs: Seq<u16>,
    /// The bridge's view of the holding values.
    pub holding: Seq<u16>,
    /// The inputs that the bridge published last.
    pub published: Seq<u16>,
    /// The holding values that the bridge fetched last.
    pub fetched: Seq<u16>,
}

/// The state of the transport's event handler.
pub struct ClientView {
    /// Whether a message arrived since the watchdog last ticked.
    pub is_watchdog_refreshed: bool,
    pub watchdog_period_ms: u64,
}

impl ClientView {
    /// The transport opened: the watchdog is armed and the send handle goes
    /// to the connection supervisor.
    pub open spec fn opened(self) -> Seq<ActionView> {
        seq![
            ActionView::ArmWatchdog { period_ms: self.watchdog_period_ms },
            ActionView::HandOver,
        ]
    }

    /// A message arrived: the watchdog is refreshed, and a message that is
    /// not empty goes to the dispatcher.
    pub open spec fn received(self, msg: Seq<char>) -> (ClientView, Seq<ActionView>) {
        (
            ClientView { is_watchdog_refreshed: true, ..self },
            if msg.len() > 0 {
                seq![ActionView::Deliver { text: msg }]
            } else {
                Seq::empty()
            },
        )
    }

    /// The watchdog ticked: after a message it is armed again, silently;
    /// else the timeout is reported and the transport is shut down.
    pub open spec fn timed_out(self, on_error: Option<CallbackHandler>) -> (
        ClientView,
        Seq<ActionView>,
    ) {
        if self.is_watchdog_refreshed {
            (
                ClientView { is_watchdog_refreshed: false, ..self },
                seq![ActionView::ArmWatchdog { period_ms: self.watchdog_period_ms }],
            )
        } else {
            (self, notice(on_error, "WS Client timeout!\n"@) + seq![ActionView::Shutdown])
        }
    }

    /// The state after the messages `msgs` arrived, one after the other.
    pub open spec fn after_messages(self, msgs: Seq<Seq<char>>) -> ClientView
        decreases msgs.len(),
    {
        if msgs.len() == 0 {
            self
        } else {
            self.after_messages(msgs.drop_last()).received(msgs.last()).0
        }
    }
}

/// Watchdog: a period that starts unrefreshed and sees no message ends in
/// the error notification and a forced shutdown; a period with at least one
/// message ends in a silent rearm, and the next period starts unrefreshed
/// again.
pub proof fn lemma_watchdog(c: ClientView, on_error: Option<CallbackHandler>, msgs: Seq<Seq<char>>)
    requires
        !c.is_watchdog_refreshed,
    ensures
        msgs.len() == 0 ==> c.after_messages(msgs).timed_out(on_error).1 == notice(
            on_error,
            "WS Client timeout!\n"@,
        ) + seq![ActionView::Shutdown],
        msgs.len() > 0 ==> c.after_messages(msgs).timed_out(on_error) == (
            c,
            seq![ActionView::ArmWatchdog { period_ms: c.watchdog_period_ms }],
        ),
{
    if msgs.len() > 0 {
        let before = c.after_messages(msgs.drop_last());
        lemma_after_messages_period(c, msgs.drop_last());
        assert(before.watchdog_period_ms == c.watchdog_period_ms);
    }
}

/// Messages leave the watchdog's period as it is.
pub proof fn lemma_after_messages_period(c: ClientView, msgs: Seq<Seq<char>>)
    ensures
        c.after_messages(msgs).watchdog_period_ms == c.watchdog_period_ms,
    decreases msgs.len(),
{
    if msgs.len() > 0 {
        lemma_after_messages_period(c, msgs.drop_last());
    }
}

/// The two registries of user handlers.
pub struct Tables {
    /// Handlers under a full event key.
    pub tags: Map<Seq<char>, Seq<CallbackHandler>>,
    /// Handlers under the name of an event key, called with its indices.
    pub tagnames: Map<Seq<char>, Seq<CallbackHandler>>,
}

/// The version of the engine.
pub open spec fn version_text() -> Seq<char> {
    "0.1.0"@
}

/// Where the batch that starts at `cursor` ends in a list of `len` items.
pub open spec fn batch_end(cursor: nat, count: nat, len: nat) -> nat {
    if cursor + count < len {
        cursor + count
    } else {
        len
    }
}

/// Where the batch after the one at `cursor` starts: at its end, or at 0
/// when it reached the end of the list.
pub open spec fn next_cursor(cursor: nat, count: nat, len: nat) -> nat {
    if batch_end(cursor, count, len) == len {
        0
    } else {
        batch_end(cursor, count, len)
    }
}

/// `s` with a line feed at its end, added where it has none.
pub open spec fn newline_ended(s: Seq<char>) -> Seq<char> {
    if s.len() > 0 && s.last() == '\n' {
        s
    } else {
        s.push('\n')
    }
}

/// The call of the raw-message handler for a frame: with the whole frame,
/// ended by a line feed; none for an empty frame.
pub open spec fn raw_notice(h: Option<CallbackHandler>, frame: Seq<char>) -> Seq<ActionView> {
    if frame.len() > 0 {
        notice(h, newline_ended(frame))
    } else {
        Seq::empty()
    }
}

/// Index slot `slot` of an event key, as a number of at most `max`.
pub open spec fn event_index(key: Seq<char>, slot: int, max: nat) -> nat {
    index_value(slot_text(key, slot), max)
}

/// The internal path of an event: one mutation where a mutator stands under
/// the event's name.
pub open spec fn mutation(internals: Set<Seq<char>>, e: EventView) -> Seq<ActionView> {
    if internals.contains(event_name(e.key)) {
        seq![
            ActionView::Mutate {
                key: event_name(e.key),
                slot0: event_index(e.key, 0, usize::MAX as nat) as usize,
                slot1: event_index(e.key, 1, usize::MAX as nat) as usize,
                value: e.value,
            },
        ]
    } else {
        Seq::empty()
    }
}

/// The indexed path of an event: the handlers under the event's name, the
/// most recently registered first.
pub open spec fn indexed_path(t: Tables, e: EventView) -> Seq<ActionView> {
    indexed_calls(
        invoked(t.tagnames, event_name(e.key)),
        event_index(e.key, 0, u32::MAX as nat) as u32,
        event_index(e.key, 1, u32::MAX as nat) as u32,
        e.value,
    )
}

/// The simple path of an event: the handlers under the event's full key,
/// the most recently registered first.
pub open spec fn simple_path(t: Tables, e: EventView) -> Seq<ActionView> {
    calls(invoked(t.tags, e.key), e.value)
}

/// What one event causes: the internal path, then the indexed path, then
/// the simple path.
pub open spec fn event_actions(
    internals: Set<Seq<char>>,
    t: Tables,
    e: EventView,
) -> Seq<ActionView> {
    mutation(internals, e) + indexed_path(t, e) + simple_path(t, e)
}

/// The registries after one event.
pub open spec fn after_event(t: Tables, e: EventView) -> Tables {
    Tables { tags: fired(t.tags, e.key), tagnames: fired(t.tagnames, event_name(e.key)) }
}

/// The registries after a sequence of events, and what the events cause, in
/// their order.
pub open spec fn dispatched(internals: Set<Seq<char>>, t: Tables, events: Seq<EventView>) -> (
    Tables,
    Seq<ActionView>,
)
    decreases events.len(),
{
    if events.len() == 0 {
        (t, Seq::empty())
    } else {
        let before = dispatched(internals, t, events.drop_last());
        (
            after_event(before.0, events.last()),
            before.1 + event_actions(internals, before.0, events.last()),
        )
    }
}

impl BotnanaView {
    /// What the state must keep: no registry key without handlers, and the
    /// cursor within the cyclic list.
    pub open spec fn wf(self) -> bool {
        &&& pruned(self.tag_handlers)
        &&& pruned(self.tagname_handlers)
        &&& self.last_query <= self.cyclic_queries.len()
    }

    /// The two registries.
    pub open spec fn tables(self) -> Tables {
        Tables { tags: self.tag_handlers, tagnames: self.tagname_handlers }
    }

    /// The endpoint of the text protocol.
    pub open spec fn url(self) -> Seq<char> {
        ws_url(self.ip, self.port)
    }

    /// The endpoint of the register protocol.
    pub open spec fn mb_url(self) -> Seq<char> {
        register_address(self.ip)
    }

    /// The state after the connection is gone: no handles, an empty
    /// outbound queue, neither connecting nor connected.
    pub open spec fn reset(self) -> BotnanaView {
        BotnanaView {
            user_sender: false,
            ws_out: false,
            scripts_buffer: Seq::empty(),
            is_connecting: false,
            is_connected: false,
            ..self
        }
    }

    /// A call of `connect`: nothing while connecting or connected; else the
    /// engine is connecting and asks for one handshake.
    pub open spec fn connect(self) -> (BotnanaView, Seq<ActionView>) {
        if self.is_connecting || self.is_connected {
            (self, Seq::empty())
        } else {
            (
                BotnanaView { is_connecting: true, user_sender: true, ..self },
                seq![ActionView::Handshake { url: self.url() }],
            )
        }
    }

    /// The text that reports an opened connection: the endpoint and the
    /// version of the engine.
    pub open spec fn opening(self) -> Seq<char> {
        "Connect to "@ + self.url() + " ("@ + version_text() + ")"@
    }

    /// The handshake succeeded: the send handle is stored, the workers
    /// start, the engine is connected and the opening is reported.
    pub open spec fn opened(self) -> (BotnanaView, Seq<ActionView>) {
        (
            BotnanaView { ws_out: true, is_connected: true, ..self },
            seq![ActionView::StartWorkers] + notice(self.on_open_cb, self.opening()),
        )
    }

    /// A terminal transport event: the connection state is cleared and the
    /// error is reported once.
    pub open spec fn failed(self, text: Seq<char>) -> (BotnanaView, Seq<ActionView>) {
        (self.reset(), notice(self.on_error_cb, text))
    }

    /// A call of `mb_connect`: the first one hands out the bridge and asks
    /// for the register handshake; a later one does nothing.
    pub open spec fn mb_connect(self) -> (BotnanaView, Seq<ActionView>) {
        if self.mb_bridge is Some {
            (
                BotnanaView { mb_bridge: None, ..self },
                seq![ActionView::ConnectRegisters { address: self.mb_url() }],
            )
        } else {
            (self, Seq::empty())
        }
    }

    /// A register handshake attempt ended: after a success the bridge is
    /// connected; after a failure the engine asks to retry after the pause,
    /// whatever the cause.
    pub open spec fn mb_handshake(self, connected: bool) -> (BotnanaView, Seq<ActionView>) {
        if connected {
            (BotnanaView { is_mb_connected: true, ..self }, Seq::empty())
        } else {
            (self, seq![ActionView::RetryRegisters { delay_ms: RETRY_DELAY_MS }])
        }
    }

    /// A call of `mb_publish`: what the application published last is the
    /// holding registers as it has set them.
    pub open spec fn mb_published_now(self) -> BotnanaView {
        BotnanaView { mb_published: self.mb_holding, ..self }
    }

    /// A call of `mb_update` that fetched `words`: they are what the
    /// application fetched last, and the input registers as it sees them.
    pub open spec fn mb_updated(self, words: Seq<u16>) -> BotnanaView {
        BotnanaView { mb_fetched: words, mb_inputs: words, ..self }
    }

    /// A call of `disconnect`: a graceful close where a send handle exists.
    pub open spec fn disconnect(self) -> Seq<ActionView> {
        if self.ws_out {
            seq![ActionView::Close]
        } else {
            Seq::empty()
        }
    }

    /// Sending `frame`: with a send handle, the send is reported and the
    /// frame goes to the outbound relay.
    pub open spec fn sent(self, frame: Seq<char>) -> Seq<ActionView> {
        if self.ws_out {
            notice(self.on_send_cb, frame) + (if self.user_sender {
                seq![ActionView::Transmit { text: frame }]
            } else {
                Seq::empty()
            })
        } else {
            Seq::empty()
        }
    }

    /// Evaluating `script`: sending the request that wraps it.
    pub open spec fn evaluated(self, script: Seq<char>) -> Seq<ActionView> {
        self.sent(evaluate_frame(json_text(script)))
    }

    /// Buffering `script`: with a send handle, it joins the outbound queue
    /// as a line.
    pub open spec fn buffered(self, script: Seq<char>) -> BotnanaView {
        if self.ws_out {
            BotnanaView { scripts_buffer: self.scripts_buffer.push(script.push('\n')), ..self }
        } else {
            self
        }
    }

    /// How many fragments the next batch takes from the outbound queue.
    pub open spec fn script_batch(self) -> nat {
        if self.scripts_pop_count < self.scripts_buffer.len() {
            self.scripts_pop_count as nat
        } else {
            self.scripts_buffer.len()
        }
    }

    /// Popping one batch from the outbound queue and sending it as one
    /// command.
    pub open spec fn popped(self) -> (BotnanaView, Seq<ActionView>) {
        let n = self.script_batch() as int;
        (
            BotnanaView { scripts_buffer: self.scripts_buffer.skip(n), ..self },
            self.evaluated(joined(self.scripts_buffer.take(n))),
        )
    }

    /// Flushing the outbound queue: all of it is sent as one command,
    /// unless it is empty text.
    pub open spec fn flushed(self) -> (BotnanaView, Seq<ActionView>) {
        (
            BotnanaView { scripts_buffer: Seq::empty(), ..self },
            if joined(self.scripts_buffer).len() > 0 {
                self.evaluated(joined(self.scripts_buffer))
            } else {
                Seq::empty()
            },
        )
    }

    /// How many status queries the next batch holds.
    pub open spec fn query_batch(self) -> nat {
        if self.init_queries.len() > 0 {
            if self.query_count < self.init_queries.len() {
                self.query_count
            } else {
                self.init_queries.len()
            }
        } else {
            (batch_end(self.last_query, self.query_count, self.cyclic_queries.len())
                - self.last_query) as nat
        }
    }

    /// The next batch of status queries: one-shot queries from the front
    /// while any remain, else cyclic queries from the cursor.
    pub open spec fn query_items(self) -> Seq<Seq<char>> {
        if self.init_queries.len() > 0 {
            self.init_queries.take(self.query_batch() as int)
        } else {
            self.cyclic_queries.subrange(
                self.last_query as int,
                batch_end(self.last_query, self.query_count, self.cyclic_queries.len()) as int,
            )
        }
    }

    /// The text of the next batch of status queries.
    pub open spec fn query_text(self) -> Seq<char> {
        joined(self.query_items())
    }

    /// The state after the next batch of status queries: the one-shot
    /// queries of the batch are gone for good, or the cursor has moved past
    /// the batch.
    pub open spec fn after_queries(self) -> BotnanaView {
        if self.init_queries.len() > 0 {
            BotnanaView { init_queries: self.init_queries.skip(self.query_batch() as int), ..self }
        } else {
            BotnanaView {
                last_query: next_cursor(
                    self.last_query,
                    self.query_count,
                    self.cyclic_queries.len(),
                ),
                ..self
            }
        }
    }

    /// Sending the next batch of status queries, where it holds any.
    pub open spec fn queried(self) -> (BotnanaView, Seq<ActionView>) {
        (
            self.after_queries(),
            if self.query_batch() > 0 {
                self.evaluated(self.query_text())
            } else {
                Seq::empty()
            },
        )
    }

    /// One tick of the command scheduler, in strict priority: stop on the
    /// teardown signal; else a batch of the outbound queue where it holds
    /// anything; else status queries; and a heartbeat where there was
    /// neither.
    pub open spec fn polled(self, stop: bool) -> (BotnanaView, Seq<ActionView>) {
        if stop {
            (self, seq![ActionView::StopPolling])
        } else if self.scripts_buffer.len() > 0 {
            self.popped()
        } else if self.query_batch() > 0 {
            self.queried()
        } else {
            (self.after_queries(), seq![ActionView::Heartbeat { text: poll_frame() }])
        }
    }

    /// The state after `t` batches of status queries.
    pub open spec fn after_ticks(self, t: nat) -> BotnanaView
        decreases t,
    {
        if t == 0 {
            self
        } else {
            self.after_ticks((t - 1) as nat).after_queries()
        }
    }

    /// The status queries of the next `t` batches, in the order in which
    /// they are sent.
    pub open spec fn queried_in(self, t: nat) -> Seq<Seq<char>>
        decreases t,
    {
        if t == 0 {
            Seq::empty()
        } else {
            self.queried_in((t - 1) as nat) + self.after_ticks((t - 1) as nat).query_items()
        }
    }

    /// Handling an inbound frame: the raw-message handler hears of it, its
    /// events are dispatched in order, and the post-processing hook runs.
    pub open spec fn handled(self, frame: Seq<char>) -> (BotnanaView, Seq<ActionView>) {
        let done = dispatched(
            self.internal_handlers,
            self.tables(),
            frame_events(strip(frame)),
        );
        (
            BotnanaView { tag_handlers: done.0.tags, tagname_handlers: done.0.tagnames, ..self },
            raw_notice(self.on_message_cb, frame) + done.1 + seq![ActionView::Flush],
        )
    }
}

/// Which path of the dispatch an action belongs to: 0 for the internal
/// path, 1 for the indexed path, 2 for the simple path.
pub open spec fn path_rank(a: ActionView) -> int {
    match a {
        ActionView::Mutate { .. } => 0,
        ActionView::CallIndexed { .. } => 1,
        ActionView::Call { .. } => 2,
        _ => 3,
    }
}

/// Dispatch order within an event: whatever handlers are registered, and in
/// whatever order they were, an event causes actions of the three paths
/// only, the internal path before the indexed path before the simple path.
pub proof fn lemma_paths_in_order(internals: Set<Seq<char>>, t: Tables, e: EventView)
    ensures
        forall|i: int|
            0 <= i < event_actions(internals, t, e).len() ==> 0 <= path_rank(
                #[trigger] event_actions(internals, t, e)[i],
            ) <= 2,
        forall|i: int, j: int|
            0 <= i <= j < event_actions(internals, t, e).len() ==> path_rank(
                #[trigger] event_actions(internals, t, e)[i],
            ) <= path_rank(#[trigger] event_actions(internals, t, e)[j]),
{
    let a = mutation(internals, e);
    let b = indexed_path(t, e);
    let c = simple_path(t, e);
    let all = event_actions(internals, t, e);
    assert forall|i: int| 0 <= i < all.len() implies path_rank(#[trigger] all[i]) == (if i
        < a.len() {
        0int
    } else if i < a.len() + b.len() {
        1int
    } else {
        2int
    }) by {
        if i < a.len() {
            assert(all[i] == a[i]);
        } else if i < a.len() + b.len() {
            assert(all[i] == b[i - a.len()]);
        } else {
            assert(all[i] == c[i - a.len() - b.len()]);
        }
    }
}

/// Dispatch order across events: the events of a frame are dispatched in
/// the order in which the frame holds them, each on the registries as the
/// events before it left them.
pub proof fn lemma_events_in_order(
    internals: Set<Seq<char>>,
    t: Tables,
    a: Seq<EventView>,
    b: Seq<EventView>,
)
    ensures
        dispatched(internals, t, a + b).0 == dispatched(
            internals,
            dispatched(internals, t, a).0,
            b,
        ).0,
        dispatched(internals, t, a + b).1 == dispatched(internals, t, a).1 + dispatched(
            internals,
            dispatched(internals, t, a).0,
            b,
        ).1,
    decreases b.len(),
{
    let first = dispatched(internals, t, a);
    if b.len() == 0 {
        assert(a + b =~= a);
        assert(first.1 + Seq::<ActionView>::empty() =~= first.1);
    } else {
        lemma_events_in_order(internals, t, a, b.drop_last());
        assert((a + b).drop_last() =~= a + b.drop_last());
        assert((a + b).last() == b.last());
        let mid = dispatched(internals, first.0, b.drop_last());
        let step = event_actions(internals, mid.0, b.last());
        assert((first.1 + mid.1) + step =~= first.1 + (mid.1 + step));
    }
}

/// Lines in order: the events of several lines are those of the first
/// lines, then those of the lines after them.
pub proof fn lemma_lines_in_order(a: Seq<Seq<char>>, b: Seq<Seq<char>>)
    ensures
        lines_events(a + b) == lines_events(a)
            + lines_events(b),
    decreases b.len(),
{
    if b.len() == 0 {
        assert(a + b =~= a);
        assert(lines_events(a) + lines_events(b)
            =~= lines_events(a));
    } else {
        lemma_lines_in_order(a, b.drop_last());
        assert((a + b).drop_last() =~= a + b.drop_last());
        assert((a + b).last() == b.last());
        assert(lines_events(a + b) =~= lines_events(a)
            + lines_events(b));
    }
}

/// Where the cursor of the cyclic queries stands after `t` ticks that
/// started at 0, with batches of `count` in a list of `len` queries.
pub open spec fn cursor_at(t: nat, count: nat, len: nat) -> nat
    decreases t,
{
    if t == 0 {
        0
    } else {
        next_cursor(cursor_at((t - 1) as nat, count, len), count, len)
    }
}

/// The queries that the first `t` ticks visit, in the order of the visits.
pub open spec fn visited(qs: Seq<Seq<char>>, count: nat, t: nat) -> Seq<Seq<char>>
    decreases t,
{
    if t == 0 {
        Seq::empty()
    } else {
        let cursor = cursor_at((t - 1) as nat, count, qs.len());
        visited(qs, count, (t - 1) as nat) + qs.subrange(
            cursor as int,
            batch_end(cursor, count, qs.len()) as int,
        )
    }
}

/// How many ticks one round through a list of `len` queries takes, with
/// batches of `count`: `len / count`, rounded up.
pub open spec fn round_ticks(len: nat, count: nat) -> nat {
    ((len + count - 1) / (count as int)) as nat
}

/// While the list has queries left in a round, tick `t` starts at query
/// `t * count`, and all queries before that were visited once, in order.
pub proof fn lemma_cyclic_progress(qs: Seq<Seq<char>>, count: nat, t: nat)
    requires
        count > 0,
        t * count < qs.len(),
    ensures
        cursor_at(t, count, qs.len()) == t * count,
        visited(qs, count, t) == qs.take((t * count) as int),
    decreases t,
{
    if t == 0 {
        assert(0 * count == 0) by (nonlinear_arith);
        assert(qs.take(0) =~= Seq::<Seq<char>>::empty());
    } else {
        let p = (t - 1) as nat;
        assert(p * count + count == t * count) by (nonlinear_arith)
            requires
                p + 1 == t,
        ;
        lemma_cyclic_progress(qs, count, p);
        assert(qs.take((p * count) as int) + qs.subrange(
            (p * count) as int,
            (t * count) as int,
        ) =~= qs.take((t * count) as int));
    }
}

/// One round of the cursor: with batches of `count` > 0, a round through a
/// list that is not empty takes `round_ticks` ticks, visits every query
/// once, in the order of the list, and ends with the cursor at 0.
pub proof fn lemma_cursor_round(qs: Seq<Seq<char>>, count: nat)
    requires
        count > 0,
        qs.len() > 0,
    ensures
        visited(qs, count, round_ticks(qs.len(), count)) == qs,
        cursor_at(round_ticks(qs.len(), count), count, qs.len()) == 0,
        forall|t: nat|
            t < round_ticks(qs.len(), count) ==> #[trigger] cursor_at(t, count, qs.len()) == t
                * count,
{
    let len = qs.len();
    let r = round_ticks(len, count);
    assert(r >= 1 && (r - 1) * count < len && len <= r * count) by (nonlinear_arith)
        requires
            count > 0,
            len > 0,
            r == (len + count - 1) / (count as int),
    ;
    let p = (r - 1) as nat;
    lemma_cyclic_progress(qs, count, p);
    assert(p * count + count == r * count) by (nonlinear_arith)
        requires
            p + 1 == r,
    ;
    assert(qs.take((p * count) as int) + qs.subrange((p * count) as int, len as int) =~= qs);
    assert forall|t: nat| t < r implies #[trigger] cursor_at(t, count, len) == t * count by {
        assert(t * count <= p * count) by (nonlinear_arith)
            requires
                t <= p,
                count > 0,
        ;
        lemma_cyclic_progress(qs, count, t);
    }
}

/// Without one-shot queries, batches of status queries move the cursor only,
/// from 0 as `cursor_at` says, and send the queries that `visited` lists.
pub proof fn lemma_ticks(s: BotnanaView, t: nat)
    requires
        s.init_queries.len() == 0,
        s.last_query == 0,
    ensures
        s.after_ticks(t) == (BotnanaView {
            last_query: cursor_at(t, s.query_count, s.cyclic_queries.len()),
            ..s
        }),
        s.queried_in(t) == visited(s.cyclic_queries, s.query_count, t),
    decreases t,
{
    if t > 0 {
        lemma_ticks(s, (t - 1) as nat);
    }
}

/// Cyclic query cursor: in an engine without one-shot queries whose cursor
/// is at 0, with a list of L > 0 cyclic queries and batches of B > 0, the
/// next L / B ticks, rounded up, send every query exactly once, in the order
/// of the list; the cursor stands at `t * B` before tick `t` of them, and
/// is back at 0 after the last, so that the engine is as it was.
pub proof fn lemma_cyclic_round(s: BotnanaView)
    requires
        s.init_queries.len() == 0,
        s.last_query == 0,
        s.query_count > 0,
        s.cyclic_queries.len() > 0,
    ensures
        s.queried_in(round_ticks(s.cyclic_queries.len(), s.query_count)) == s.cyclic_queries,
        s.after_ticks(round_ticks(s.cyclic_queries.len(), s.query_count)) == s,
        forall|t: nat|
            t < round_ticks(s.cyclic_queries.len(), s.query_count) ==> (#[trigger] s.after_ticks(
                t,
            )).last_query == t * s.query_count,
{
    let r = round_ticks(s.cyclic_queries.len(), s.query_count);
    lemma_cursor_round(s.cyclic_queries, s.query_count);
    lemma_ticks(s, r);
    assert forall|t: nat| t < r implies (#[trigger] s.after_ticks(t)).last_query == t
        * s.query_count by {
        lemma_ticks(s, t);
        assert(cursor_at(t, s.query_count, s.cyclic_queries.len()) == t * s.query_count);
    }
}

/// Outbound queue, first in first out: the text of a batch, followed by
/// the text of what the batch leaves in the queue, is the text of the queue
/// before; nothing is lost and nothing changes its place.
pub proof fn lemma_batch_keeps_order(s: BotnanaView)
    ensures
        joined(s.scripts_buffer.take(s.script_batch() as int)) + joined(
            s.popped().0.scripts_buffer,
        ) == joined(s.scripts_buffer),
{
    let n = s.script_batch() as int;
    lemma_joined_concat(s.scripts_buffer.take(n), s.scripts_buffer.skip(n));
    assert(s.scripts_buffer.take(n) + s.scripts_buffer.skip(n) =~= s.scripts_buffer);
}

/// Terminal transport events: the engine reports the error to the error
/// handler once, where one is registered, asks for nothing else (no
/// handshake in particular), and is left neither connecting nor connected,
/// so that the next call of `connect` asks for a handshake.
pub proof fn lemma_terminal_event(s: BotnanaView, text: Seq<char>)
    ensures
        s.failed(text).1.len() == (if s.on_error_cb is Some {
            1nat
        } else {
            0nat
        }),
        forall|i: int|
            0 <= i < s.failed(text).1.len() ==> (#[trigger] s.failed(text).1[i]) is Call,
        !s.failed(text).0.is_connecting && !s.failed(text).0.is_connected,
        s.failed(text).0.connect().1 == seq![
            ActionView::Handshake { url: s.url() },
        ],
{
}

/// Connecting twice: a call of `connect` on an engine that a call of
/// `connect` has just left changes nothing and asks for no second
/// handshake.
pub proof fn lemma_connect_once(s: BotnanaView)
    ensures
        s.connect().0.connect() == (s.connect().0, Seq::<ActionView>::empty()),
        (s.is_connecting || s.is_connected) ==> s.connect() == (
            s,
            Seq::<ActionView>::empty(),
        ),
{
}

} // verus!
