//! Expiring callback handlers, kept in lists under a text key.

use crate::text::same_text;
use vstd::prelude::*;

verus! {

/// A registered handler: how many invocations it has left (0 means no
/// limit), the context handed back to it, and which routine it is.
#[derive(Clone, Copy, Debug, PartialEq, Eq, Structural)]
pub struct CallbackHandler {
    pub count: u32,
    pub pointer: usize,
    pub callback: usize,
}

/// The handler as it stands after one invocation: a limited one has one
/// invocation fewer left.
pub open spec fn spend(h: CallbackHandler) -> CallbackHandler {
    if h.count > 0 {
        CallbackHandler { count: (h.count - 1) as u32, pointer: h.pointer, callback: h.callback }
    } else {
        h
    }
}

/// Whether the next invocation is the handler's last.
pub open spec fn expiring(h: CallbackHandler) -> bool {
    h.count == 1
}

/// The handlers that remain after each of `hs` was invoked once, in their
/// order of registration: those on their last invocation are gone, the other
/// limited ones have one invocation fewer left.
pub open spec fn survivors(hs: Seq<CallbackHandler>) -> Seq<CallbackHandler>
    decreases hs.len(),
{
    if hs.len() == 0 {
        Seq::empty()
    } else if expiring(hs.last()) {
        survivors(hs.drop_last())
    } else {
        survivors(hs.drop_last()).push(spend(hs.last()))
    }
}

/// The handlers under `key` in the order in which an event invokes them:
/// the most recently registered first.
pub open spec fn invoked(
    table: Map<Seq<char>, Seq<CallbackHandler>>,
    key: Seq<char>,
) -> Seq<CallbackHandler> {
    if table.contains_key(key) {
        table[key].reverse()
    } else {
        Seq::empty()
    }
}

/// The table after an event for `key` invoked its handlers: the list under
/// `key` holds the survivors, and the key is gone when none is left.
pub open spec fn fired(table: Map<Seq<char>, Seq<CallbackHandler>>, key: Seq<char>) -> Map<
    Seq<char>,
    Seq<CallbackHandler>,
> {
    if table.contains_key(key) {
        let rest = survivors(table[key]);
        if rest.len() == 0 {
            table.remove(key)
        } else {
            table.insert(key, rest)
        }
    } else {
        table
    }
}

/// The table after `h` was registered under `key`: appended to the list
/// that the key has, or to a new one.
pub open spec fn added(
    table: Map<Seq<char>, Seq<CallbackHandler>>,
    key: Seq<char>,
    h: CallbackHandler,
) -> Map<Seq<char>, Seq<CallbackHandler>> {
    if table.contains_key(key) {
        table.insert(key, table[key].push(h))
    } else {
        table.insert(key, seq![h])
    }
}

/// No key of the table has an empty list.
pub open spec fn pruned(table: Map<Seq<char>, Seq<CallbackHandler>>) -> bool {
    forall|k: Seq<char>| table.contains_key(k) ==> (#[trigger] table[k]).len() > 0
}

/// The handlers that remain of `hs` after `n` events invoked them.
pub open spec fn survivors_after(hs: Seq<CallbackHandler>, n: nat) -> Seq<CallbackHandler>
    decreases n,
{
    if n == 0 {
        hs
    } else {
        survivors(survivors_after(hs, (n - 1) as nat))
    }
}

/// Each handler of a list survives or expires by itself: what remains of a
/// list is what remains of its front part, then what remains of its back
/// part.
pub proof fn lemma_survivors_concat(a: Seq<CallbackHandler>, b: Seq<CallbackHandler>)
    ensures
        survivors(a + b) == survivors(a) + survivors(b),
    decreases b.len(),
{
    if b.len() == 0 {
        assert(a + b =~= a);
        assert(survivors(a) + survivors(b) =~= survivors(a));
    } else {
        lemma_survivors_concat(a, b.drop_last());
        assert((a + b).drop_last() =~= a + b.drop_last());
        assert((a + b).last() == b.last());
        if expiring(b.last()) {
        } else {
            assert(survivors(a + b) =~= survivors(a) + survivors(b));
        }
    }
}

/// Expiry among other handlers: what remains of a list after `n` events is
/// what remains of its front part, then what remains of its back part; so
/// a handler expires after as many events as it was registered for,
/// whatever stands before or behind it.
pub proof fn lemma_survivors_after_concat(
    a: Seq<CallbackHandler>,
    b: Seq<CallbackHandler>,
    n: nat,
)
    ensures
        survivors_after(a + b, n) == survivors_after(a, n) + survivors_after(b, n),
    decreases n,
{
    if n > 0 {
        lemma_survivors_after_concat(a, b, (n - 1) as nat);
        lemma_survivors_concat(
            survivors_after(a, (n - 1) as nat),
            survivors_after(b, (n - 1) as nat),
        );
    }
}

/// Expiry: a handler registered for `h.count` invocations is invoked by
/// exactly that many events, one invocation fewer left after each, and is
/// gone after the last; a handler registered with count 0 stays as it is,
/// however many events invoke it.
pub proof fn lemma_expiry(h: CallbackHandler, n: nat)
    ensures
        h.count == 0 ==> survivors_after(seq![h], n) == seq![h],
        h.count > 0 && n < h.count ==> survivors_after(seq![h], n) == seq![
            CallbackHandler {
                count: (h.count - n) as u32,
                pointer: h.pointer,
                callback: h.callback,
            },
        ],
        h.count > 0 && n >= h.count ==> survivors_after(seq![h], n)
            == Seq::<CallbackHandler>::empty(),
    decreases n,
{
    if n > 0 {
        lemma_expiry(h, (n - 1) as nat);
        let before = survivors_after(seq![h], (n - 1) as nat);
        if before.len() == 1 {
            assert(before.drop_last() =~= Seq::<CallbackHandler>::empty());
            assert(survivors(before.drop_last()) =~= Seq::<CallbackHandler>::empty());
            if expiring(before.last()) {
            } else {
                assert(survivors(before) =~= seq![spend(before.last())]);
            }
        }
    }
}

/// What remains of a list of one handler after one event.
pub proof fn lemma_survivors_one(h: CallbackHandler)
    ensures
        survivors(seq![h]) == if expiring(h) {
            Seq::<CallbackHandler>::empty()
        } else {
            seq![spend(h)]
        },
{
    let one = seq![h];
    assert(one.drop_last() =~= Seq::<CallbackHandler>::empty());
    assert(survivors(one.drop_last()) =~= Seq::<CallbackHandler>::empty());
    if !expiring(h) {
        assert(survivors(one) =~= seq![spend(h)]);
    }
}

/// The table after `n` events for `key`.
pub open spec fn fired_times(
    table: Map<Seq<char>, Seq<CallbackHandler>>,
    key: Seq<char>,
    n: nat,
) -> Map<Seq<char>, Seq<CallbackHandler>>
    decreases n,
{
    if n == 0 {
        table
    } else {
        fired(fired_times(table, key, (n - 1) as nat), key)
    }
}

/// Expiry in a table: where `h` is the only handler under `key`, the first
/// `h.count` events for the key invoke it and every later one invokes
/// nothing, the key being gone; with count 0 every event invokes it and the
/// table stays as it is.
pub proof fn lemma_expiry_in_table(
    table: Map<Seq<char>, Seq<CallbackHandler>>,
    key: Seq<char>,
    h: CallbackHandler,
    n: nat,
)
    requires
        table.contains_key(key),
        table[key] == seq![h],
    ensures
        h.count == 0 ==> fired_times(table, key, n) == table,
        h.count > 0 && n < h.count ==> fired_times(table, key, n) == table.insert(
            key,
            seq![
                CallbackHandler {
                    count: (h.count - n) as u32,
                    pointer: h.pointer,
                    callback: h.callback,
                },
            ],
        ),
        h.count > 0 && n >= h.count ==> fired_times(table, key, n) == table.remove(key),
        invoked(fired_times(table, key, n), key).len() == (if h.count == 0 || n < h.count {
            1nat
        } else {
            0nat
        }),
    decreases n,
{
    if n == 0 {
        assert(table.insert(key, seq![h]) =~= table);
    } else {
        let m = (n - 1) as nat;
        lemma_expiry_in_table(table, key, h, m);
        let before = fired_times(table, key, m);
        if h.count == 0 {
            lemma_survivors_one(h);
            assert(table.insert(key, seq![h]) =~= table);
        } else if m < h.count {
            let left = CallbackHandler {
                count: (h.count - m) as u32,
                pointer: h.pointer,
                callback: h.callback,
            };
            lemma_survivors_one(left);
            if n < h.count {
                assert(fired(before, key) =~= table.insert(key, seq![spend(left)]));
            } else {
                assert(fired(before, key) =~= table.remove(key));
            }
        } else {
            assert(fired(before, key) =~= table.remove(key));
        }
    }
}

/// Registrations under two different keys can be made in either order: the
/// table is the same.
pub proof fn lemma_registration_order(
    table: Map<Seq<char>, Seq<CallbackHandler>>,
    k1: Seq<char>,
    h1: CallbackHandler,
    k2: Seq<char>,
    h2: CallbackHandler,
)
    requires
        k1 != k2,
    ensures
        added(added(table, k1, h1), k2, h2) == added(added(table, k2, h2), k1, h1),
{
    assert(added(added(table, k1, h1), k2, h2) =~= added(added(table, k2, h2), k1, h1));
}

/// One key with its handlers, in the order of registration.
struct Entry {
    key: Vec<char>,
    handlers: Vec<CallbackHandler>,
}

/// Lists of handlers under text keys.
pub struct HandlerTable {
    entries: Vec<Entry>,
}

impl HandlerTable {
    /// No key occurs twice and no list is empty.
    pub closed spec fn wf(&self) -> bool {
        &&& forall|i: int, j: int|
            0 <= i < j < self.entries.len() ==> (#[trigger] self.entries[i]).key@
                != (#[trigger] self.entries[j]).key@
        &&& forall|i: int|
            0 <= i < self.entries.len() ==> (#[trigger] self.entries[i]).handlers.len() > 0
    }

    spec fn has(&self, k: Seq<char>, i: int) -> bool {
        0 <= i < self.entries.len() && self.entries[i].key@ == k
    }

    /// The table as a map from key to the handlers under it.
    pub closed spec fn view(&self) -> Map<Seq<char>, Seq<CallbackHandler>> {
        Map::new(
            |k: Seq<char>| exists|i: int| self.has(k, i),
            |k: Seq<char>| self.entries[choose|i: int| self.has(k, i)].handlers@,
        )
    }

    proof fn lemma_entry(&self, i: int)
        requires
            self.wf(),
            0 <= i < self.entries.len(),
        ensures
            self@.contains_key(self.entries[i].key@),
            self@[self.entries[i].key@] == self.entries[i].handlers@,
    {
        let k = self.entries[i].key@;
        assert(self.has(k, i));
        let j = choose|j: int| self.has(k, j);
        assert(self.has(k, j));
        if j != i {
            if j < i {
                assert(self.entries[j].key@ != self.entries[i].key@);
            } else {
                assert(self.entries[i].key@ != self.entries[j].key@);
            }
        }
    }

    proof fn lemma_absent(&self, k: Seq<char>)
        requires
            forall|i: int| 0 <= i < self.entries.len() ==> (#[trigger] self.entries[i]).key@ != k,
        ensures
            !self@.contains_key(k),
    {
        if self@.contains_key(k) {
            let i = choose|i: int| self.has(k, i);
            assert(self.has(k, i));
            assert(self.entries[i].key@ != k);
        }
    }

    proof fn lemma_view_is(&self, target: Map<Seq<char>, Seq<CallbackHandler>>)
        requires
            self.wf(),
            forall|i: int|
                0 <= i < self.entries.len() ==> target.contains_key(
                    (#[trigger] self.entries[i]).key@,
                ) && target[self.entries[i].key@] == self.entries[i].handlers@,
            forall|k: Seq<char>| #[trigger]
                target.contains_key(k) ==> exists|i: int| self.has(k, i),
        ensures
            self@ == target,
    {
        assert forall|k: Seq<char>| self@.dom().contains(k) == target.dom().contains(k) by {
            if self@.contains_key(k) {
                let i = choose|i: int| self.has(k, i);
                assert(self.has(k, i));
                assert(target.contains_key(self.entries[i].key@));
            }
            if target.contains_key(k) {
                let i = choose|i: int| self.has(k, i);
                assert(self.has(k, i));
            }
        }
        assert forall|k: Seq<char>| self@.dom().contains(k) implies self@[k] == target[k] by {
            let i = choose|i: int| self.has(k, i);
            assert(self.has(k, i));
            self.lemma_entry(i);
        }
        assert(self@ =~= target);
    }

    /// No key of a well-formed table has an empty list.
    pub proof fn lemma_pruned(&self)
        requires
            self.wf(),
        ensures
            pruned(self@),
    {
        assert forall|k: Seq<char>| self@.contains_key(k) implies (#[trigger] self@[k]).len()
            > 0 by {
            let i = choose|i: int| self.has(k, i);
            assert(self.has(k, i));
            self.lemma_entry(i);
        }
    }

    /// A table without keys.
    pub fn new() -> (t: HandlerTable)
        ensures
            t.wf(),
            t@ == Map::<Seq<char>, Seq<CallbackHandler>>::empty(),
    {
        let t = HandlerTable { entries: Vec::new() };
        assert(t@ =~= Map::<Seq<char>, Seq<CallbackHandler>>::empty());
        t
    }

    fn position(&self, key: &Vec<char>) -> (r: usize)
        ensures
            r <= self.entries.len(),
            r < self.entries.len() ==> self.entries[r as int].key@ == key@,
            r == self.entries.len() ==> forall|i: int|
                0 <= i < self.entries.len() ==> (#[trigger] self.entries[i]).key@ != key@,
    {
        let mut i: usize = 0;
        while i < self.entries.len()
            invariant
                i <= self.entries.len(),
                forall|j: int| 0 <= j < i ==> (#[trigger] self.entries[j]).key@ != key@,
            decreases self.entries.len() - i,
        {
            if same_text(&self.entries[i].key, key) {
                return i;
            }
            i += 1;
        }
        i
    }

    /// Registers `h` under `key`, behind the handlers that the key has.
    pub fn add(&mut self, key: Vec<char>, h: CallbackHandler)
        requires
            old(self).wf(),
        ensures
            final(self).wf(),
            final(self)@ == added(old(self)@, key@, h),
    {
        let pos: usize = self.position(&key);
        let ghost before = *self;
        if pos < self.entries.len() {
            let mut entry: Entry = self.entries.remove(pos);
            entry.handlers.push(h);
            self.entries.insert(pos, entry);
            proof {
                let target = added(before@, key@, h);
                before.lemma_entry(pos as int);
                assert forall|i: int| 0 <= i < self.entries.len() implies (
                #[trigger] self.entries[i]).key@ == before.entries[i].key@ by {}
                assert(self.wf());
                assert forall|i: int| 0 <= i < self.entries.len() implies target.contains_key(
                    (#[trigger] self.entries[i]).key@,
                ) && target[self.entries[i].key@] == self.entries[i].handlers@ by {
                    before.lemma_entry(i);
                    if i < pos {
                        assert(before.entries[i].key@ != before.entries[pos as int].key@);
                    } else if i > pos {
                        assert(before.entries[pos as int].key@ != before.entries[i].key@);
                    }
                }
                assert forall|k: Seq<char>| #[trigger] target.contains_key(k) implies exists|
                    i: int,
                | self.has(k, i) by {
                    if k == key@ {
                        assert(self.has(k, pos as int));
                    } else {
                        let i = choose|i: int| before.has(k, i);
                        assert(before.has(k, i));
                        assert(self.has(k, i));
                    }
                }
                self.lemma_view_is(target);
            }
        } else {
            let mut handlers: Vec<CallbackHandler> = Vec::new();
            handlers.push(h);
            let ghost text = key@;
            self.entries.push(Entry { key, handlers });
            proof {
                let target = added(before@, text, h);
                before.lemma_absent(text);
                assert forall|i: int| 0 <= i < before.entries.len() implies (
                #[trigger] self.entries[i]) == before.entries[i] by {}
                assert(self.wf());
                assert forall|i: int| 0 <= i < self.entries.len() implies target.contains_key(
                    (#[trigger] self.entries[i]).key@,
                ) && target[self.entries[i].key@] == self.entries[i].handlers@ by {
                    if i < before.entries.len() {
                        before.lemma_entry(i);
                    }
                }
                assert forall|k: Seq<char>| #[trigger] target.contains_key(k) implies exists|
                    i: int,
                | self.has(k, i) by {
                    if k == text {
                        assert(self.has(k, pos as int));
                    } else {
                        let i = choose|i: int| before.has(k, i);
                        assert(before.has(k, i));
                        assert(self.has(k, i));
                    }
                }
                self.lemma_view_is(target);
            }
        }
    }

    /// Invokes the handlers under `key` once each: returns them in the order
    /// of invocation and keeps the survivors.
    pub fn fire(&mut self, key: &Vec<char>) -> (out: Vec<CallbackHandler>)
        requires
            old(self).wf(),
        ensures
            final(self).wf(),
            out@ == invoked(old(self)@, key@),
            final(self)@ == fired(old(self)@, key@),
    {
        let pos: usize = self.position(key);
        let ghost before = *self;
        if pos >= self.entries.len() {
            proof {
                before.lemma_absent(key@);
            }
            return Vec::new();
        }
        proof {
            before.lemma_entry(pos as int);
        }
        let entry: Entry = self.entries.remove(pos);
        let ghost hs = entry.handlers@;
        let n: usize = entry.handlers.len();
        let mut out: Vec<CallbackHandler> = Vec::new();
        let mut i: usize = n;
        while i > 0
            invariant
                n == hs.len(),
                hs == entry.handlers@,
                i <= n,
                out@.len() == n - i,
                forall|k: int| 0 <= k < out@.len() ==> out@[k] == hs[n - 1 - k],
            decreases i,
        {
            i -= 1;
            out.push(entry.handlers[i]);
        }
        assert(out@ =~= hs.reverse());
        let mut kept: Vec<CallbackHandler> = Vec::new();
        let mut j: usize = 0;
        while j < n
            invariant
                n == hs.len(),
                hs == entry.handlers@,
                j <= n,
                kept@ == survivors(hs.take(j as int)),
            decreases n - j,
        {
            let h: CallbackHandler = entry.handlers[j];
            proof {
                assert(hs.take(j + 1).drop_last() =~= hs.take(j as int));
                assert(hs.take(j + 1).last() == h);
            }
            if h.count == 1 {
            } else if h.count > 1 {
                kept.push(CallbackHandler { count: h.count - 1, pointer: h.pointer, callback: h.callback });
            } else {
                kept.push(h);
            }
            j += 1;
        }
        assert(hs.take(n as int) =~= hs);
        if kept.len() > 0 {
            self.entries.insert(pos, Entry { key: entry.key, handlers: kept });
            proof {
                let target = fired(before@, key@);
                assert forall|i: int| 0 <= i < self.entries.len() implies (
                #[trigger] self.entries[i]).key@ == before.entries[i].key@ by {}
                assert(self.wf());
                assert forall|i: int| 0 <= i < self.entries.len() implies target.contains_key(
                    (#[trigger] self.entries[i]).key@,
                ) && target[self.entries[i].key@] == self.entries[i].handlers@ by {
                    before.lemma_entry(i);
                    if i < pos {
                        assert(before.entries[i].key@ != before.entries[pos as int].key@);
                    } else if i > pos {
                        assert(before.entries[pos as int].key@ != before.entries[i].key@);
                    }
                }
                assert forall|k: Seq<char>| #[trigger] target.contains_key(k) implies exists|
                    i: int,
                | self.has(k, i) by {
                    let i = choose|i: int| before.has(k, i);
                    assert(before.has(k, i));
                    assert(self.has(k, i));
                }
                self.lemma_view_is(target);
            }
        } else {
            proof {
                let target = fired(before@, key@);
                assert forall|i: int| 0 <= i < self.entries.len() implies (
                #[trigger] self.entries[i]) == before.entries[if i < pos {
                    i
                } else {
                    i + 1
                }] by {}
                assert(self.wf());
                assert forall|i: int| 0 <= i < self.entries.len() implies target.contains_key(
                    (#[trigger] self.entries[i]).key@,
                ) && target[self.entries[i].key@] == self.entries[i].handlers@ by {
                    if i < pos {
                        before.lemma_entry(i);
                        assert(before.entries[i].key@ != before.entries[pos as int].key@);
                    } else {
                        before.lemma_entry(i + 1);
                        assert(before.entries[pos as int].key@ != before.entries[i + 1].key@);
                    }
                }
                assert forall|k: Seq<char>| #[trigger] target.contains_key(k) implies exists|
                    i: int,
                | self.has(k, i) by {
                    let i = choose|i: int| before.has(k, i);
                    assert(before.has(k, i));
                    assert(i != pos);
                    if i < pos {
                        assert(self.has(k, i));
                    } else {
                        assert(self.has(k, i - 1));
                    }
                }
                self.lemma_view_is(target);
            }
        }
        out
    }
}

} // verus!
