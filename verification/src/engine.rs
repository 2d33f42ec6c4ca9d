//! The engine: connection state, callback registries, the outbound queue
//! and the status queries, with every transition of the state machine as a
//! method that returns the actions for the host.

use crate::action::{
    action_views, append_actions, calls, indexed_calls, notice, push_action, Action, ActionView,
};
use crate::bridge::{
    register_slots, RegisterBridge, RegisterError, RegisterTable, MB_BLOCK_SIZE, RETRY_DELAY_MS,
};
use crate::endpoint::{endpoint_parses, register_address_of, url_accepts, ws_url, ws_url_of};
use crate::frame::{event_views, key_parts, parse_frame, strip_frame, Event, EventView};
use crate::json::{evaluate_request, poll_frame, poll_request};
use crate::model::{
    after_event, dispatched, event_actions, mutation, raw_notice, version_text, BotnanaView,
    BridgeView, Tables,
};
use crate::registry::{added, CallbackHandler, HandlerTable};
use crate::text::{chars_of, joined, parse_index, same_text, string_from, string_views};
use std::collections::VecDeque;
use vstd::prelude::*;
use vstd::string::StringExecFns;

verus! {

/// The keys that a vector of keys holds.
pub open spec fn key_set(v: Seq<Vec<char>>) -> Set<Seq<char>> {
    Set::new(|k: Seq<char>| exists|i: int| 0 <= i < v.len() && (#[trigger] v[i])@ == k)
}

/// The bridge's side of the two register slots.
pub open spec fn bridge_view(bridge: RegisterBridge) -> BridgeView {
    BridgeView {
        inputs: bridge.inputs(),
        holding: bridge.holding(),
        published: bridge.published(),
        fetched: bridge.fetched(),
    }
}

/// The engine.
pub struct Botnana {
    ip: String,
    port: u16,
    user_sender: bool,
    ws_out: bool,
    tag_handlers: HandlerTable,
    tagname_handlers: HandlerTable,
    internal_handlers: Vec<Vec<char>>,
    scripts_buffer: VecDeque<String>,
    scripts_pop_count: u32,
    poll_interval_ms: u64,
    is_connected: bool,
    is_connecting: bool,
    on_open_cb: Option<CallbackHandler>,
    on_error_cb: Option<CallbackHandler>,
    on_send_cb: Option<CallbackHandler>,
    on_message_cb: Option<CallbackHandler>,
    init_queries: Vec<String>,
    cyclic_queries: Vec<String>,
    last_query: usize,
    query_count: usize,
    is_mb_connected: bool,
    mb_bridge: Option<RegisterBridge>,
    mb_table: RegisterTable,
}

/// The call of an optional handler with `text`.
pub fn notify(h: Option<CallbackHandler>, text: &str) -> (out: Vec<Action>)
    ensures
        action_views(out@) == notice(h, text@),
{
    let mut out: Vec<Action> = Vec::new();
    match h {
        Some(h) => {
            out.push(
                Action::Call {
                    pointer: h.pointer,
                    callback: h.callback,
                    text: String::from_str(text),
                },
            );
        },
        None => {},
    }
    assert(action_views(out@) =~= notice(h, text@));
    out
}

/// Whether `key` is among `keys`.
pub fn holds(keys: &Vec<Vec<char>>, key: &Vec<char>) -> (r: bool)
    ensures
        r == key_set(keys@).contains(key@),
{
    let mut i: usize = 0;
    while i < keys.len()
        invariant
            i <= keys.len(),
            forall|j: int| 0 <= j < i ==> (#[trigger] keys@[j])@ != key@,
        decreases keys.len() - i,
    {
        if same_text(&keys[i], key) {
            return true;
        }
        i += 1;
    }
    false
}

/// Takes the first `n` texts from the queue and joins them.
pub fn drain_front(queue: &mut VecDeque<String>, n: usize) -> (msg: String)
    requires
        n <= old(queue)@.len(),
    ensures
        msg@ == joined(string_views(old(queue)@).take(n as int)),
        string_views(final(queue)@) == string_views(old(queue)@).skip(n as int),
{
    let ghost all = string_views(queue@);
    let mut msg = String::new();
    let mut i: usize = 0;
    assert(all.take(0) =~= Seq::<Seq<char>>::empty());
    assert(all.skip(0) =~= all);
    while i < n
        invariant
            i <= n <= all.len(),
            msg@ == joined(all.take(i as int)),
            string_views(queue@) == all.skip(i as int),
        decreases n - i,
    {
        let ghost before = queue@;
        assert(string_views(before).len() == before.len());
        match queue.pop_front() {
            Some(x) => {
                proof {
                    assert(x@ == string_views(before)[0]);
                    assert(x@ == all[i as int]);
                    assert(all.take(i + 1).drop_last() =~= all.take(i as int));
                    assert(all.take(i + 1).last() == all[i as int]);
                    assert forall|k: int| 0 <= k < queue@.len() implies string_views(
                        queue@,
                    )[k] == all.skip(i + 1)[k] by {
                        assert(queue@[k] == before[k + 1]);
                        assert(string_views(before)[k + 1] == all.skip(i as int)[k + 1]);
                    }
                    assert(string_views(queue@) =~= all.skip(i + 1));
                }
                msg.append(x.as_str());
            },
            None => {
                assert(false);
            },
        }
        i += 1;
    }
    msg
}

/// Takes the first `n` texts from the list and joins them.
pub fn drain_queries(list: &mut Vec<String>, n: usize) -> (msg: String)
    requires
        n <= old(list)@.len(),
    ensures
        msg@ == joined(string_views(old(list)@).take(n as int)),
        string_views(final(list)@) == string_views(old(list)@).skip(n as int),
{
    let ghost all = string_views(list@);
    let mut msg = String::new();
    let mut i: usize = 0;
    assert(all.take(0) =~= Seq::<Seq<char>>::empty());
    assert(all.skip(0) =~= all);
    while i < n
        invariant
            i <= n <= all.len(),
            msg@ == joined(all.take(i as int)),
            string_views(list@) == all.skip(i as int),
        decreases n - i,
    {
        let ghost before = list@;
        assert(string_views(before).len() == before.len());
        let x = list.remove(0);
        proof {
            assert(x@ == string_views(before)[0]);
            assert(x@ == all[i as int]);
            assert(all.take(i + 1).drop_last() =~= all.take(i as int));
            assert(all.take(i + 1).last() == all[i as int]);
            assert forall|k: int| 0 <= k < list@.len() implies string_views(list@)[k]
                == all.skip(i + 1)[k] by {
                assert(list@[k] == before[k + 1]);
                assert(string_views(before)[k + 1] == all.skip(i as int)[k + 1]);
            }
            assert(string_views(list@) =~= all.skip(i + 1));
        }
        msg.append(x.as_str());
        i += 1;
    }
    msg
}

/// Joins the texts `list[start..end]`.
pub fn join_range(list: &Vec<String>, start: usize, end: usize) -> (msg: String)
    requires
        start <= end <= list@.len(),
    ensures
        msg@ == joined(string_views(list@).subrange(start as int, end as int)),
{
    let ghost all = string_views(list@);
    let mut msg = String::new();
    let mut i: usize = start;
    assert(all.subrange(start as int, start as int) =~= Seq::<Seq<char>>::empty());
    while i < end
        invariant
            start <= i <= end <= list@.len(),
            all == string_views(list@),
            msg@ == joined(all.subrange(start as int, i as int)),
        decreases end - i,
    {
        proof {
            let next = all.subrange(start as int, i + 1);
            assert(next.drop_last() =~= all.subrange(start as int, i as int));
            assert(next.last() == list@[i as int]@);
        }
        msg.append(list[i].as_str());
        i += 1;
    }
    msg
}

/// Appends one call of each of `hs`, in their order, with `text`.
pub fn push_calls(out: &mut Vec<Action>, hs: &Vec<CallbackHandler>, text: &Vec<char>)
    ensures
        action_views(final(out)@) == action_views(old(out)@) + calls(hs@, text@),
{
    let ghost base = action_views(out@);
    let ghost all = calls(hs@, text@);
    let mut i: usize = 0;
    assert(base + all.take(0) =~= base);
    while i < hs.len()
        invariant
            i <= hs.len(),
            all == calls(hs@, text@),
            action_views(out@) == base + all.take(i as int),
        decreases hs.len() - i,
    {
        let h: CallbackHandler = hs[i];
        let action = Action::Call {
            pointer: h.pointer,
            callback: h.callback,
            text: string_from(text),
        };
        proof {
            assert(action@ == all[i as int]);
            assert((base + all.take(i as int)).push(action@) =~= base + all.take(i + 1));
        }
        push_action(out, action);
        i += 1;
    }
    assert(all.take(i as int) =~= all);
}

/// Appends one indexed call of each of `hs`, in their order.
pub fn push_indexed_calls(
    out: &mut Vec<Action>,
    hs: &Vec<CallbackHandler>,
    index0: u32,
    index1: u32,
    text: &Vec<char>,
)
    ensures
        action_views(final(out)@) == action_views(old(out)@) + indexed_calls(
            hs@,
            index0,
            index1,
            text@,
        ),
{
    let ghost base = action_views(out@);
    let ghost all = indexed_calls(hs@, index0, index1, text@);
    let mut i: usize = 0;
    assert(base + all.take(0) =~= base);
    while i < hs.len()
        invariant
            i <= hs.len(),
            all == indexed_calls(hs@, index0, index1, text@),
            action_views(out@) == base + all.take(i as int),
        decreases hs.len() - i,
    {
        let h: CallbackHandler = hs[i];
        let action = Action::CallIndexed {
            pointer: h.pointer,
            callback: h.callback,
            index0,
            index1,
            text: string_from(text),
        };
        proof {
            assert(action@ == all[i as int]);
            assert((base + all.take(i as int)).push(action@) =~= base + all.take(i + 1));
        }
        push_action(out, action);
        i += 1;
    }
    assert(all.take(i as int) =~= all);
}

/// Dispatches one event: the internal path, then the indexed registry,
/// then the simple registry.
pub fn dispatch_event(
    tags: &mut HandlerTable,
    tagnames: &mut HandlerTable,
    internals: &Vec<Vec<char>>,
    e: &Event,
    out: &mut Vec<Action>,
)
    requires
        old(tags).wf(),
        old(tagnames).wf(),
    ensures
        final(tags).wf(),
        final(tagnames).wf(),
        (Tables { tags: final(tags)@, tagnames: final(tagnames)@ }) == after_event(
            Tables { tags: old(tags)@, tagnames: old(tagnames)@ },
            e@,
        ),
        action_views(final(out)@) == action_views(old(out)@) + event_actions(
            key_set(internals@),
            Tables { tags: old(tags)@, tagnames: old(tagnames)@ },
            e@,
        ),
{
    let ghost base = action_views(out@);
    let ghost t = Tables { tags: tags@, tagnames: tagnames@ };
    let parts = key_parts(&e.key);
    if holds(internals, &parts.name) {
        let index0: usize = parse_index(&parts.slot0, usize::MAX as u64) as usize;
        let index1: usize = parse_index(&parts.slot1, usize::MAX as u64) as usize;
        push_action(
            out,
            Action::Mutate {
                key: string_from(&parts.name),
                slot0: index0,
                slot1: index1,
                value: string_from(&e.value),
            },
        );
    }
    assert(action_views(out@) =~= base + mutation(key_set(internals@), e@));
    let named = tagnames.fire(&parts.name);
    let index0: u32 = parse_index(&parts.slot0, u32::MAX as u64) as u32;
    let index1: u32 = parse_index(&parts.slot1, u32::MAX as u64) as u32;
    push_indexed_calls(out, &named, index0, index1, &e.value);
    let exact = tags.fire(&e.key);
    push_calls(out, &exact, &e.value);
    assert(action_views(out@) =~= base + event_actions(key_set(internals@), t, e@));
}

impl View for Botnana {
    type V = BotnanaView;

    closed spec fn view(&self) -> BotnanaView {
        BotnanaView {
            ip: self.ip@,
            port: self.port,
            user_sender: self.user_sender,
            ws_out: self.ws_out,
            tag_handlers: self.tag_handlers@,
            tagname_handlers: self.tagname_handlers@,
            internal_handlers: key_set(self.internal_handlers@),
            scripts_buffer: string_views(self.scripts_buffer@),
            scripts_pop_count: self.scripts_pop_count,
            poll_interval_ms: self.poll_interval_ms,
            is_connected: self.is_connected,
            is_connecting: self.is_connecting,
            on_open_cb: self.on_open_cb,
            on_error_cb: self.on_error_cb,
            on_send_cb: self.on_send_cb,
            on_message_cb: self.on_message_cb,
            init_queries: string_views(self.init_queries@),
            cyclic_queries: string_views(self.cyclic_queries@),
            last_query: self.last_query as nat,
            query_count: self.query_count as nat,
            is_mb_connected: self.is_mb_connected,
            mb_bridge: match self.mb_bridge {
                Some(bridge) => Some(bridge_view(bridge)),
                None => None,
            },
            mb_inputs: self.mb_table.inputs(),
            mb_holding: self.mb_table.holding(),
            mb_published: self.mb_table.published(),
            mb_fetched: self.mb_table.fetched(),
        }
    }
}

impl Botnana {
    /// The registries are well formed and the cursor lies within the
    /// cyclic list.
    pub closed spec fn wf(&self) -> bool {
        &&& self.tag_handlers.wf()
        &&& self.tagname_handlers.wf()
        &&& self.last_query <= self.cyclic_queries.len()
    }

    /// Invariant of the registries: in every well-formed engine no key is
    /// left without a handler, and the cursor of the cyclic queries lies
    /// within their list.
    pub proof fn lemma_wf(&self)
        requires
            self.wf(),
        ensures
            self@.wf(),
    {
        self.tag_handlers.lemma_pruned();
        self.tagname_handlers.lemma_pruned();
    }

    /// An engine for the server at 192.168.7.2, port 3012: not connected,
    /// without handlers, queries or queued scripts; batches of 8 scripts and
    /// of 3 queries, a poll every 10 ms; register slots of `MB_BLOCK_SIZE`
    /// words, all 0.
    pub fn new() -> (b: Botnana)
        ensures
            b.wf(),
            b@ == (BotnanaView {
                ip: "192.168.7.2"@,
                port: 3012,
                user_sender: false,
                ws_out: false,
                tag_handlers: Map::empty(),
                tagname_handlers: Map::empty(),
                internal_handlers: Set::empty(),
                scripts_buffer: Seq::empty(),
                scripts_pop_count: 8,
                poll_interval_ms: 10,
                is_connected: false,
                is_connecting: false,
                on_open_cb: None,
                on_error_cb: None,
                on_send_cb: None,
                on_message_cb: None,
                init_queries: Seq::empty(),
                cyclic_queries: Seq::empty(),
                last_query: 0,
                query_count: 3,
                is_mb_connected: false,
                mb_bridge: Some(
                    BridgeView {
                        inputs: Seq::new(MB_BLOCK_SIZE as nat, |i: int| 0u16),
                        holding: Seq::new(MB_BLOCK_SIZE as nat, |i: int| 0u16),
                        published: Seq::new(MB_BLOCK_SIZE as nat, |i: int| 0u16),
                        fetched: Seq::new(MB_BLOCK_SIZE as nat, |i: int| 0u16),
                    },
                ),
                mb_inputs: Seq::new(MB_BLOCK_SIZE as nat, |i: int| 0u16),
                mb_holding: Seq::new(MB_BLOCK_SIZE as nat, |i: int| 0u16),
                mb_published: Seq::new(MB_BLOCK_SIZE as nat, |i: int| 0u16),
                mb_fetched: Seq::new(MB_BLOCK_SIZE as nat, |i: int| 0u16),
            }),
    {
        let slots = register_slots(MB_BLOCK_SIZE);
        let b = Botnana {
            ip: String::from_str("192.168.7.2"),
            port: 3012,
            user_sender: false,
            ws_out: false,
            tag_handlers: HandlerTable::new(),
            tagname_handlers: HandlerTable::new(),
            internal_handlers: Vec::new(),
            scripts_buffer: VecDeque::new(),
            scripts_pop_count: 8,
            poll_interval_ms: 10,
            is_connected: false,
            is_connecting: false,
            on_open_cb: None,
            on_error_cb: None,
            on_send_cb: None,
            on_message_cb: None,
            init_queries: Vec::new(),
            cyclic_queries: Vec::new(),
            last_query: 0,
            query_count: 3,
            is_mb_connected: false,
            mb_bridge: Some(slots.0),
            mb_table: slots.1,
        };
        assert(key_set(b.internal_handlers@) =~= Set::<Seq<char>>::empty());
        assert(string_views(b.scripts_buffer@) =~= Seq::<Seq<char>>::empty());
        assert(string_views(b.init_queries@) =~= Seq::<Seq<char>>::empty());
        assert(string_views(b.cyclic_queries@) =~= Seq::<Seq<char>>::empty());
        b
    }

    /// Sets the server's address, where it makes an endpoint that parses as
    /// a URL; else the address stays.
    pub fn set_ip(&mut self, ip: &str)
        requires
            old(self).wf(),
        ensures
            final(self).wf(),
            final(self)@ == if url_accepts(ws_url(ip@, old(self)@.port)) {
                BotnanaView { ip: ip@, ..old(self)@ }
            } else {
                old(self)@
            },
    {
        if endpoint_parses(ip, self.port) {
            self.ip = String::from_str(ip);
        }
    }

    /// Sets the server's port for the text protocol.
    pub fn set_port(&mut self, port: u16)
        requires
            old(self).wf(),
        ensures
            final(self).wf(),
            final(self)@ == (BotnanaView { port, ..old(self)@ }),
    {
        self.port = port;
    }

    /// The server's address.
    pub fn ip(&self) -> (out: String)
        ensures
            out@ == self@.ip,
    {
        self.ip.clone()
    }

    /// The server's port for the text protocol.
    pub fn port(&self) -> (out: u16)
        ensures
            out == self@.port,
    {
        self.port
    }

    /// The endpoint of the text protocol.
    pub fn url(&self) -> (out: String)
        ensures
            out@ == self@.url(),
    {
        ws_url_of(self.ip.as_str(), self.port)
    }

    /// The endpoint of the register protocol.
    pub fn mb_url(&self) -> (out: String)
        ensures
            out@ == self@.mb_url(),
    {
        register_address_of(self.ip.as_str())
    }

    /// Whether the engine is connected.
    pub fn is_connected(&self) -> (out: bool)
        ensures
            out == self@.is_connected,
    {
        self.is_connected
    }

    /// Whether a send handle is stored.
    pub fn has_ws_sender(&self) -> (out: bool)
        ensures
            out == self@.ws_out,
    {
        self.ws_out
    }

    /// The version of the engine.
    pub fn version() -> (out: &'static str)
        ensures
            out@ == version_text(),
    {
        "0.1.0"
    }

    /// Registers the handler that hears of an opened connection.
    pub fn set_on_open_cb(&mut self, pointer: usize, cb: usize)
        requires
            old(self).wf(),
        ensures
            final(self).wf(),
            final(self)@ == (BotnanaView {
                on_open_cb: Some(CallbackHandler { count: 0, pointer, callback: cb }),
                ..old(self)@
            }),
    {
        self.on_open_cb = Some(CallbackHandler { count: 0, pointer, callback: cb });
    }

    /// Registers the handler that hears of connection errors.
    pub fn set_on_error_cb(&mut self, pointer: usize, cb: usize)
        requires
            old(self).wf(),
        ensures
            final(self).wf(),
            final(self)@ == (BotnanaView {
                on_error_cb: Some(CallbackHandler { count: 0, pointer, callback: cb }),
                ..old(self)@
            }),
    {
        self.on_error_cb = Some(CallbackHandler { count: 0, pointer, callback: cb });
    }

    /// Registers the handler that hears of each sent message.
    pub fn set_on_send_cb(&mut self, pointer: usize, cb: usize)
        requires
            old(self).wf(),
        ensures
            final(self).wf(),
            final(self)@ == (BotnanaView {
                on_send_cb: Some(CallbackHandler { count: 0, pointer, callback: cb }),
                ..old(self)@
            }),
    {
        self.on_send_cb = Some(CallbackHandler { count: 0, pointer, callback: cb });
    }

    /// Registers the handler that hears of each received frame.
    pub fn set_on_message_cb(&mut self, pointer: usize, cb: usize)
        requires
            old(self).wf(),
        ensures
            final(self).wf(),
            final(self)@ == (BotnanaView {
                on_message_cb: Some(CallbackHandler { count: 0, pointer, callback: cb }),
                ..old(self)@
            }),
    {
        self.on_message_cb = Some(CallbackHandler { count: 0, pointer, callback: cb });
    }

    /// Sets the period of the command scheduler.
    pub fn set_poll_interval_ms(&mut self, interval: u64)
        requires
            old(self).wf(),
        ensures
            final(self).wf(),
            final(self)@ == (BotnanaView { poll_interval_ms: interval, ..old(self)@ }),
    {
        self.poll_interval_ms = interval;
    }

    /// The period of the command scheduler.
    pub fn poll_interval_ms(&self) -> (out: u64)
        ensures
            out == self@.poll_interval_ms,
    {
        self.poll_interval_ms
    }

    /// Sets how many fragments one batch takes from the outbound queue.
    pub fn set_scripts_pop_count(&mut self, count: u32)
        requires
            old(self).wf(),
        ensures
            final(self).wf(),
            final(self)@ == (BotnanaView { scripts_pop_count: count, ..old(self)@ }),
    {
        self.scripts_pop_count = count;
    }

    /// Sets how many status queries one batch holds.
    pub fn set_query_count(&mut self, count: usize)
        requires
            old(self).wf(),
        ensures
            final(self).wf(),
            final(self)@ == (BotnanaView { query_count: count as nat, ..old(self)@ }),
    {
        self.query_count = count;
    }

    /// How many fragments wait in the outbound queue.
    pub fn scripts_buffer_len(&self) -> (out: usize)
        ensures
            out == self@.scripts_buffer.len(),
    {
        self.scripts_buffer.len()
    }

    /// Whether the register bridge is connected.
    pub fn is_mb_connected(&self) -> (out: bool)
        ensures
            out == self@.is_mb_connected,
    {
        self.is_mb_connected
    }

    /// Connects to the server, unless the engine is connecting or connected
    /// already: then nothing happens.
    pub fn connect(&mut self) -> (out: Vec<Action>)
        requires
            old(self).wf(),
        ensures
            final(self).wf(),
            (final(self)@, action_views(out@)) == old(self)@.connect(),
    {
        let mut out: Vec<Action> = Vec::new();
        if self.is_connecting || self.is_connected {
            assert(action_views(out@) =~= Seq::<ActionView>::empty());
            return out;
        }
        let url = self.url();
        self.is_connecting = true;
        self.user_sender = true;
        out.push(Action::Handshake { url });
        assert(action_views(out@) =~= seq![ActionView::Handshake { url: old(self)@.url() }]);
        out
    }

    /// The handshake succeeded and the transport's send handle arrived.
    pub fn opened(&mut self) -> (out: Vec<Action>)
        requires
            old(self).wf(),
        ensures
            final(self).wf(),
            (final(self)@, action_views(out@)) == old(self)@.opened(),
    {
        self.ws_out = true;
        self.is_connected = true;
        let mut out: Vec<Action> = Vec::new();
        push_action(&mut out, Action::StartWorkers);
        assert(action_views(out@) =~= seq![ActionView::StartWorkers]);
        append_actions(&mut out, self.execute_on_open_cb());
        out
    }

    /// A write to the outbound relay failed for `reason`: a terminal
    /// transport event.
    pub fn send_failed(&mut self, reason: &str) -> (out: Vec<Action>)
        requires
            old(self).wf(),
        ensures
            final(self).wf(),
            (final(self)@, action_views(out@)) == old(self)@.failed(
                "Send Message Error: "@ + reason@ + "\n"@,
            ),
    {
        let mut text = String::from_str("Send Message Error: ");
        text.append(reason);
        text.append("\n");
        self.execute_on_error_cb(text.as_str())
    }

    /// The worker `name` could not be started for `reason`: a terminal
    /// transport event.
    pub fn worker_failed(&mut self, name: &str, reason: &str) -> (out: Vec<Action>)
        requires
            old(self).wf(),
        ensures
            final(self).wf(),
            (final(self)@, action_views(out@)) == old(self)@.failed(
                "Can't create "@ + name@ + " thread ("@ + reason@ + ")\n"@,
            ),
    {
        let mut text = String::from_str("Can't create ");
        text.append(name);
        text.append(" thread (");
        text.append(reason);
        text.append(")\n");
        self.execute_on_error_cb(text.as_str())
    }

    /// Reports the opened connection to the open handler, with the endpoint
    /// and the version of the engine.
    pub fn execute_on_open_cb(&self) -> (out: Vec<Action>)
        ensures
            action_views(out@) == notice(self@.on_open_cb, self@.opening()),
    {
        let mut text = String::from_str("Connect to ");
        let url = self.url();
        text.append(url.as_str());
        text.append(" (");
        text.append(Self::version());
        text.append(")");
        notify(self.on_open_cb, text.as_str())
    }

    /// Reports the sent message `msg` to the send handler.
    pub fn execute_on_send_cb(&self, msg: &str) -> (out: Vec<Action>)
        ensures
            action_views(out@) == notice(self@.on_send_cb, msg@),
    {
        notify(self.on_send_cb, msg)
    }

    /// The transport is gone: the connection state is cleared.
    pub fn closed(&mut self)
        requires
            old(self).wf(),
        ensures
            final(self).wf(),
            final(self)@ == old(self)@.reset(),
    {
        self.user_sender = false;
        self.ws_out = false;
        self.scripts_buffer.clear();
        self.is_connecting = false;
        self.is_connected = false;
        assert(string_views(self.scripts_buffer@) =~= Seq::<Seq<char>>::empty());
    }

    /// A terminal transport event: clears the connection state and reports
    /// `msg` to the error handler.
    pub fn execute_on_error_cb(&mut self, msg: &str) -> (out: Vec<Action>)
        requires
            old(self).wf(),
        ensures
            final(self).wf(),
            (final(self)@, action_views(out@)) == old(self)@.failed(msg@),
    {
        self.closed();
        notify(self.on_error_cb, msg)
    }

    /// Closes the connection gracefully, where there is one.
    pub fn disconnect(&mut self) -> (out: Vec<Action>)
        ensures
            *final(self) == *old(self),
            action_views(out@) == old(self)@.disconnect(),
    {
        let mut out: Vec<Action> = Vec::new();
        if self.ws_out {
            out.push(Action::Close);
            assert(action_views(out@) =~= seq![ActionView::Close]);
        } else {
            assert(action_views(out@) =~= Seq::<ActionView>::empty());
        }
        out
    }

    /// Sends `msg` as it is.
    pub fn send_message(&mut self, msg: &str) -> (out: Vec<Action>)
        ensures
            *final(self) == *old(self),
            action_views(out@) == old(self)@.sent(msg@),
    {
        let mut out: Vec<Action> = Vec::new();
        if self.ws_out {
            append_actions(&mut out, self.execute_on_send_cb(msg));
            if self.user_sender {
                push_action(&mut out, Action::Transmit { text: String::from_str(msg) });
            }
        }
        assert(action_views(out@) =~= old(self)@.sent(msg@));
        out
    }

    /// Sends the request that evaluates `script`.
    pub fn evaluate(&mut self, script: &str) -> (out: Vec<Action>)
        ensures
            *final(self) == *old(self),
            action_views(out@) == old(self)@.evaluated(script@),
    {
        if self.ws_out {
            match evaluate_request(script) {
                Some(frame) => self.send_message(frame.as_str()),
                None => Vec::new(),
            }
        } else {
            let out: Vec<Action> = Vec::new();
            assert(action_views(out@) =~= Seq::<ActionView>::empty());
            out
        }
    }

    /// Aborts the running program.
    pub fn abort_program(&mut self) -> (out: Vec<Action>)
        ensures
            *final(self) == *old(self),
            action_views(out@) == old(self)@.evaluated("abort-program"@),
    {
        self.evaluate("abort-program")
    }

    /// Deploys a program, given the lines of its text.
    pub fn program_deploy(&mut self, lines: &str) -> (out: Vec<Action>)
        ensures
            *final(self) == *old(self),
            action_views(out@) == old(self)@.evaluated(
                "deploy "@ + lines@ + "\n 10 emit .( deployed|ok) 10 emit cr ;deploy"@,
            ),
    {
        let mut msg = String::from_str("deploy ");
        msg.append(lines);
        msg.append("\n 10 emit .( deployed|ok) 10 emit cr ;deploy");
        self.evaluate(msg.as_str())
    }

    /// Runs the deployed program of the given name.
    pub fn program_run(&mut self, name: &str) -> (out: Vec<Action>)
        ensures
            *final(self) == *old(self),
            action_views(out@) == old(self)@.evaluated("deploy user$"@ + name@ + " ;deploy"@),
    {
        let mut msg = String::from_str("deploy user$");
        msg.append(name);
        msg.append(" ;deploy");
        self.evaluate(msg.as_str())
    }
    /// Registers a handler under the full event key `tag`, for `count`
    /// invocations or, with 0, for good.
    pub fn set_tag_callback(&mut self, tag: &str, count: u32, pointer: usize, cb: usize)
        requires
            old(self).wf(),
        ensures
            final(self).wf(),
            final(self)@ == (BotnanaView {
                tag_handlers: added(
                    old(self)@.tag_handlers,
                    tag@,
                    CallbackHandler { count, pointer, callback: cb },
                ),
                ..old(self)@
            }),
    {
        self.tag_handlers.add(chars_of(tag), CallbackHandler { count, pointer, callback: cb });
    }

    /// Registers a handler under the event name `name`, for `count`
    /// invocations or, with 0, for good.
    pub fn set_tagname_callback(&mut self, name: &str, count: u32, pointer: usize, cb: usize)
        requires
            old(self).wf(),
        ensures
            final(self).wf(),
            final(self)@ == (BotnanaView {
                tagname_handlers: added(
                    old(self)@.tagname_handlers,
                    name@,
                    CallbackHandler { count, pointer, callback: cb },
                ),
                ..old(self)@
            }),
    {
        self.tagname_handlers.add(
            chars_of(name),
            CallbackHandler { count, pointer, callback: cb },
        );
    }

    /// Declares that the host keeps an internal mutator under the event
    /// name `name`.
    pub fn set_internal_handler(&mut self, name: &str)
        requires
            old(self).wf(),
        ensures
            final(self).wf(),
            final(self)@ == (BotnanaView {
                internal_handlers: old(self)@.internal_handlers.insert(name@),
                ..old(self)@
            }),
    {
        let ghost before = self.internal_handlers@;
        let key = chars_of(name);
        self.internal_handlers.push(key);
        proof {
            let after = self.internal_handlers@;
            assert forall|k: Seq<char>|
                key_set(after).contains(k) == key_set(before).insert(name@).contains(k) by {
                if key_set(before).contains(k) {
                    let i = choose|i: int| 0 <= i < before.len() && (#[trigger] before[i])@ == k;
                    assert(after[i]@ == k);
                }
                if k == name@ {
                    assert(after[before.len() as int]@ == k);
                }
                if key_set(after).contains(k) {
                    let i = choose|i: int| 0 <= i < after.len() && (#[trigger] after[i])@ == k;
                    if i < before.len() {
                        assert(before[i]@ == k);
                    }
                }
            }
            assert(key_set(after) =~= key_set(before).insert(name@));
        }
    }

    /// Adds a status query that is sent once, at the next occasion.
    pub fn add_init_query(&mut self, query: &str)
        requires
            old(self).wf(),
        ensures
            final(self).wf(),
            final(self)@ == (BotnanaView {
                init_queries: old(self)@.init_queries.push(query@),
                ..old(self)@
            }),
    {
        let ghost before = self.init_queries@;
        let text = String::from_str(query);
        self.init_queries.push(text);
        assert(string_views(before.push(text)) =~= string_views(before).push(query@));
    }

    /// Adds a status query that is sent again and again.
    pub fn add_cyclic_query(&mut self, query: &str)
        requires
            old(self).wf(),
        ensures
            final(self).wf(),
            final(self)@ == (BotnanaView {
                cyclic_queries: old(self)@.cyclic_queries.push(query@),
                ..old(self)@
            }),
    {
        let ghost before = self.cyclic_queries@;
        let text = String::from_str(query);
        self.cyclic_queries.push(text);
        assert(string_views(before.push(text)) =~= string_views(before).push(query@));
    }

    /// Puts `script` into the outbound queue as a line, where a send handle
    /// exists.
    pub fn send_script_to_buffer(&mut self, script: &str)
        requires
            old(self).wf(),
        ensures
            final(self).wf(),
            final(self)@ == old(self)@.buffered(script@),
    {
        if self.ws_out {
            let ghost before = self.scripts_buffer@;
            let mut line = String::from_str(script);
            line.append("\n");
            proof {
                reveal_strlit("\n");
                assert(line@ =~= script@.push('\n'));
            }
            self.scripts_buffer.push_back(line);
            assert(string_views(before.push(line)) =~= string_views(before).push(line@));
        }
    }

    /// Pops one batch from the outbound queue and sends it as one command.
    pub fn pop_scripts_buffer(&mut self) -> (out: Vec<Action>)
        requires
            old(self).wf(),
        ensures
            final(self).wf(),
            (final(self)@, action_views(out@)) == old(self)@.popped(),
    {
        let len: usize = self.scripts_buffer.len();
        let n: usize = if (self.scripts_pop_count as usize) < len {
            self.scripts_pop_count as usize
        } else {
            len
        };
        let msg = drain_front(&mut self.scripts_buffer, n);
        self.evaluate(msg.as_str())
    }

    /// Sends all of the outbound queue as one command.
    pub fn flush_scripts_buffer(&mut self) -> (out: Vec<Action>)
        requires
            old(self).wf(),
        ensures
            final(self).wf(),
            (final(self)@, action_views(out@)) == old(self)@.flushed(),
    {
        let len: usize = self.scripts_buffer.len();
        let ghost all = string_views(self.scripts_buffer@);
        let msg = drain_front(&mut self.scripts_buffer, len);
        proof {
            assert(all.take(len as int) =~= all);
            assert(all.skip(len as int) =~= Seq::<Seq<char>>::empty());
        }
        if !msg.as_str().is_empty() {
            self.evaluate(msg.as_str())
        } else {
            let out: Vec<Action> = Vec::new();
            assert(action_views(out@) =~= Seq::<ActionView>::empty());
            out
        }
    }

    /// Sends the next batch of status queries; returns how many it holds.
    pub fn send_internal_query_command(&mut self) -> (out: (usize, Vec<Action>))
        requires
            old(self).wf(),
        ensures
            final(self).wf(),
            out.0 == old(self)@.query_batch(),
            (final(self)@, action_views(out.1@)) == old(self)@.queried(),
    {
        let count: usize = self.query_count;
        let len: usize;
        let msg: String;
        if self.init_queries.len() > 0 {
            len = if count < self.init_queries.len() {
                count
            } else {
                self.init_queries.len()
            };
            msg = drain_queries(&mut self.init_queries, len);
        } else {
            let total: usize = self.cyclic_queries.len();
            let start: usize = self.last_query;
            let end: usize = if count < total - start {
                start + count
            } else {
                total
            };
            msg = join_range(&self.cyclic_queries, start, end);
            self.last_query = if end == total {
                0
            } else {
                end
            };
            len = end - start;
        }
        if len > 0 {
            let out = self.evaluate(msg.as_str());
            (len, out)
        } else {
            let out: Vec<Action> = Vec::new();
            assert(action_views(out@) =~= Seq::<ActionView>::empty());
            (len, out)
        }
    }

    /// One tick of the command scheduler. `stop` tells whether the teardown
    /// signal was posted.
    pub fn poll(&mut self, stop: bool) -> (out: Vec<Action>)
        requires
            old(self).wf(),
        ensures
            final(self).wf(),
            (final(self)@, action_views(out@)) == old(self)@.polled(stop),
    {
        if stop {
            let mut out: Vec<Action> = Vec::new();
            out.push(Action::StopPolling);
            assert(action_views(out@) =~= seq![ActionView::StopPolling]);
            out
        } else if self.scripts_buffer.len() > 0 {
            self.pop_scripts_buffer()
        } else {
            let sent = self.send_internal_query_command();
            if sent.0 > 0 {
                sent.1
            } else {
                let mut out: Vec<Action> = Vec::new();
                out.push(Action::Heartbeat { text: poll_request() });
                assert(action_views(out@) =~= seq![
                    ActionView::Heartbeat { text: poll_frame() },
                ]);
                out
            }
        }
    }

    /// Handles one inbound frame.
    pub fn handle_message(&mut self, frame: &str) -> (out: Vec<Action>)
        requires
            old(self).wf(),
        ensures
            final(self).wf(),
            (final(self)@, action_views(out@)) == old(self)@.handled(frame@),
    {
        let chars = chars_of(frame);
        let mut out: Vec<Action> = Vec::new();
        assert(action_views(out@) =~= Seq::<ActionView>::empty());
        if chars.len() > 0 {
            let mut text = String::from_str(frame);
            if chars[chars.len() - 1] != '\n' {
                text.push('\n');
            }
            append_actions(&mut out, notify(self.on_message_cb, text.as_str()));
        }
        assert(action_views(out@) =~= raw_notice(self.on_message_cb, frame@));
        let stripped = strip_frame(&chars);
        let events = parse_frame(&stripped);
        let ghost all = event_views(events@);
        let ghost internals = key_set(self.internal_handlers@);
        let ghost start = self@.tables();
        let ghost head = action_views(out@);
        let mut i: usize = 0;
        assert(all.take(0) =~= Seq::<EventView>::empty());
        assert(head + dispatched(internals, start, all.take(0)).1 =~= head);
        while i < events.len()
            invariant
                i <= events.len(),
                all == event_views(events@),
                all.len() == events@.len(),
                self.wf(),
                internals == key_set(self.internal_handlers@),
                self@ == (BotnanaView {
                    tag_handlers: self@.tag_handlers,
                    tagname_handlers: self@.tagname_handlers,
                    ..old(self)@
                }),
                self@.tables() == dispatched(internals, start, all.take(i as int)).0,
                action_views(out@) == head + dispatched(internals, start, all.take(i as int)).1,
            decreases events.len() - i,
        {
            proof {
                assert(all.take(i + 1).drop_last() =~= all.take(i as int));
                assert(all.take(i + 1).last() == events@[i as int]@);
            }
            dispatch_event(
                &mut self.tag_handlers,
                &mut self.tagname_handlers,
                &self.internal_handlers,
                &events[i],
                &mut out,
            );
            i += 1;
        }
        assert(all.take(i as int) =~= all);
        push_action(&mut out, Action::Flush);
        out
    }
    /// The handler that hears of connection errors.
    pub fn on_error_cb(&self) -> (out: Option<CallbackHandler>)
        ensures
            out == self@.on_error_cb,
    {
        self.on_error_cb
    }

    /// Starts the register bridge: the first call hands out the bridge's
    /// ends of the register slots, as the engine held them, and asks for the
    /// handshake.
    pub fn mb_connect(&mut self) -> (out: (Option<RegisterBridge>, Vec<Action>))
        requires
            old(self).wf(),
        ensures
            final(self).wf(),
            (final(self)@, action_views(out.1@)) == old(self)@.mb_connect(),
            out.0 is Some == old(self)@.mb_bridge is Some,
            out.0 is Some ==> old(self)@.mb_bridge == Some(bridge_view(out.0->0)),
    {
        let mut actions: Vec<Action> = Vec::new();
        let bridge = self.mb_bridge.take();
        if bridge.is_some() {
            actions.push(Action::ConnectRegisters { address: self.mb_url() });
            assert(action_views(actions@) =~= seq![
                ActionView::ConnectRegisters { address: old(self)@.mb_url() },
            ]);
        } else {
            assert(action_views(actions@) =~= Seq::<ActionView>::empty());
        }
        (bridge, actions)
    }

    /// A register handshake attempt ended, with success or not.
    pub fn mb_handshake(&mut self, connected: bool) -> (out: Vec<Action>)
        requires
            old(self).wf(),
        ensures
            final(self).wf(),
            (final(self)@, action_views(out@)) == old(self)@.mb_handshake(connected),
    {
        let mut out: Vec<Action> = Vec::new();
        if connected {
            self.is_mb_connected = true;
            assert(action_views(out@) =~= Seq::<ActionView>::empty());
        } else {
            out.push(Action::RetryRegisters { delay_ms: RETRY_DELAY_MS });
            assert(action_views(out@) =~= seq![
                ActionView::RetryRegisters { delay_ms: RETRY_DELAY_MS },
            ]);
        }
        out
    }

    /// The application's ends of the register slots.
    pub fn mb_table(&self) -> (out: &RegisterTable)
        ensures
            out.inputs() == self@.mb_inputs,
            out.holding() == self@.mb_holding,
            out.published() == self@.mb_published,
            out.fetched() == self@.mb_fetched,
    {
        &self.mb_table
    }

    /// Fetches the latest publication of the inputs: the input registers
    /// as the application sees them become what it then has fetched.
    pub fn mb_update(&mut self)
        requires
            old(self).wf(),
        ensures
            final(self).wf(),
            final(self)@ == old(self)@.mb_updated(final(self)@.mb_fetched),
    {
        self.mb_table.update();
    }

    /// Input word `addr`.
    pub fn mb_u16(&self, addr: usize) -> (out: Result<u16, RegisterError>)
        ensures
            out == if addr < self@.mb_inputs.len() {
                Ok::<u16, RegisterError>(self@.mb_inputs[addr as int])
            } else {
                Err::<u16, RegisterError>(RegisterError::OutOfRange)
            },
    {
        self.mb_table.u16(addr)
    }

    /// Publishes the holding registers to the bridge, so that what the
    /// application published last is the holding registers as it has set
    /// them.
    pub fn mb_publish(&mut self)
        requires
            old(self).wf(),
        ensures
            final(self).wf(),
            final(self)@ == old(self)@.mb_published_now(),
    {
        self.mb_table.publish();
    }

    /// Sets holding word `addr`.
    pub fn mb_set_u16(&mut self, addr: usize, value: u16) -> (out: Result<(), RegisterError>)
        requires
            old(self).wf(),
        ensures
            final(self).wf(),
            out == if addr < old(self)@.mb_holding.len() {
                Ok::<(), RegisterError>(())
            } else {
                Err::<(), RegisterError>(RegisterError::OutOfRange)
            },
            final(self)@ == if addr < old(self)@.mb_holding.len() {
                BotnanaView {
                    mb_holding: old(self)@.mb_holding.update(addr as int, value),
                    ..old(self)@
                }
            } else {
                old(self)@
            },
    {
        self.mb_table.set_u16(addr, value)
    }
}

} // verus!
