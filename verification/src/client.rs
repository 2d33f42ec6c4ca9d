//! The transport's event handler: it feeds the dispatcher and keeps the
//! watchdog.

use crate::action::{action_views, notice, push_action, Action, ActionView};
use crate::engine::{notify, Botnana};
use crate::model::ClientView;
use vstd::prelude::*;
use vstd::string::StringExecFns;

verus! {

/// The default period of the watchdog, in milliseconds.
pub const WS_WATCHDOG_PERIOD_MS: u64 = 10_000;

/// The transport's event handler.
pub struct Client {
    is_watchdog_refreshed: bool,
    watchdog_period_ms: u64,
}

impl View for Client {
    type V = ClientView;

    closed spec fn view(&self) -> ClientView {
        ClientView {
            is_watchdog_refreshed: self.is_watchdog_refreshed,
            watchdog_period_ms: self.watchdog_period_ms,
        }
    }
}

impl Client {
    /// A handler whose watchdog has the given period and is not refreshed.
    pub fn new(watchdog_period_ms: u64) -> (c: Client)
        ensures
            c@ == (ClientView { is_watchdog_refreshed: false, watchdog_period_ms }),
    {
        Client { is_watchdog_refreshed: false, watchdog_period_ms }
    }

    /// Reports `msg` to the engine's error handler.
    pub fn execute_on_error_cb(&self, engine: &Botnana, msg: &str) -> (out: Vec<Action>)
        ensures
            action_views(out@) == notice(engine@.on_error_cb, msg@),
    {
        notify(engine.on_error_cb(), msg)
    }

    /// The transport opened.
    pub fn on_open(&mut self) -> (out: Vec<Action>)
        ensures
            *final(self) == *old(self),
            action_views(out@) == old(self)@.opened(),
    {
        let mut out: Vec<Action> = Vec::new();
        out.push(Action::ArmWatchdog { period_ms: self.watchdog_period_ms });
        out.push(Action::HandOver);
        assert(action_views(out@) =~= old(self)@.opened());
        out
    }

    /// A text message arrived.
    pub fn on_message(&mut self, msg: &str) -> (out: Vec<Action>)
        ensures
            (final(self)@, action_views(out@)) == old(self)@.received(msg@),
    {
        self.is_watchdog_refreshed = true;
        let mut out: Vec<Action> = Vec::new();
        if !msg.is_empty() {
            out.push(Action::Deliver { text: String::from_str(msg) });
            assert(action_views(out@) =~= seq![ActionView::Deliver { text: msg@ }]);
        } else {
            assert(action_views(out@) =~= Seq::<ActionView>::empty());
        }
        out
    }

    /// The transport failed; `err` describes the error.
    pub fn on_error(&mut self, engine: &Botnana, err: &str) -> (out: Vec<Action>)
        ensures
            *final(self) == *old(self),
            action_views(out@) == notice(engine@.on_error_cb, err@ + "\n"@),
    {
        let mut text = String::from_str(err);
        text.append("\n");
        self.execute_on_error_cb(engine, text.as_str())
    }

    /// The transport closed, with the close code `code` and the reason
    /// `reason`.
    pub fn on_close(&mut self, engine: &Botnana, code: &str, reason: &str) -> (out: Vec<Action>)
        ensures
            *final(self) == *old(self),
            action_views(out@) == notice(
                engine@.on_error_cb,
                "WS Client close code = "@ + code@ + ", reason = "@ + reason@ + "\n"@,
            ),
    {
        let mut text = String::from_str("WS Client close code = ");
        text.append(code);
        text.append(", reason = ");
        text.append(reason);
        text.append("\n");
        self.execute_on_error_cb(engine, text.as_str())
    }

    /// The watchdog ticked.
    pub fn on_timeout(&mut self, engine: &Botnana) -> (out: Vec<Action>)
        ensures
            (final(self)@, action_views(out@)) == old(self)@.timed_out(engine@.on_error_cb),
    {
        if !self.is_watchdog_refreshed {
            let mut out = self.execute_on_error_cb(engine, "WS Client timeout!\n");
            push_action(&mut out, Action::Shutdown);
            out
        } else {
            self.is_watchdog_refreshed = false;
            let mut out: Vec<Action> = Vec::new();
            out.push(Action::ArmWatchdog { period_ms: self.watchdog_period_ms });
            assert(action_views(out@) =~= seq![
                ActionView::ArmWatchdog { period_ms: self.watchdog_period_ms },
            ]);
            out
        }
    }
}

} // verus!
