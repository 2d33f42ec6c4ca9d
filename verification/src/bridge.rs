//! The cyclic register exchange: the block of registers is exchanged with
//! the field device in chunks, and the results are published as a whole.

use crate::slots::{held, input_write, output_read, published, triple_buffer_of};
use vstd::prelude::*;

verus! {

/// The number of words in the register block of the engine.
pub const MB_BLOCK_SIZE: usize = 384;

/// The most words that one combined read and write can carry.
pub const MAX_CHUNK: usize = 121;

/// The address of the first input register.
pub const INPUT_BASE: u16 = 30001;

/// The address of the first holding register.
pub const HOLDING_BASE: u16 = 40001;

/// The largest block whose registers all have an address.
pub const MAX_BLOCK: usize = 25535;

/// The pause before another handshake attempt, in milliseconds.
pub const RETRY_DELAY_MS: u64 = 1500;

/// The period of the cyclic exchange, in milliseconds.
pub const CYCLE_PERIOD_MS: u64 = 15;

/// A run of consecutive words of the block.
#[derive(Clone, Copy, Debug, PartialEq, Eq, Structural)]
pub struct Chunk {
    pub start: usize,
    pub count: usize,
}

/// How many chunks a block of `block` words falls into.
pub open spec fn chunk_count(block: nat) -> nat {
    (block + MAX_CHUNK - 1) as nat / (MAX_CHUNK as nat)
}

/// Chunk number `k` of a block: full but for the last, which holds what is
/// left.
pub open spec fn chunk_at(block: nat, k: int) -> Chunk {
    Chunk {
        start: (k * MAX_CHUNK) as usize,
        count: if block - k * MAX_CHUNK > MAX_CHUNK {
            MAX_CHUNK
        } else {
            (block - k * MAX_CHUNK) as usize
        },
    }
}

/// The chunks of a block, in order.
pub open spec fn chunks(block: nat) -> Seq<Chunk> {
    Seq::new(chunk_count(block), |k: int| chunk_at(block, k))
}

/// The chunks of a block lie end to end from word 0 to the end of the
/// block, and each holds at least one word and at most `MAX_CHUNK`.
pub proof fn lemma_chunks_cover(block: nat)
    requires
        block <= usize::MAX,
    ensures
        forall|k: int|
            0 <= k < chunks(block).len() ==> 1 <= (#[trigger] chunks(block)[k]).count
                <= MAX_CHUNK,
        forall|k: int|
            0 <= k < chunks(block).len() ==> (#[trigger] chunks(block)[k]).start == k
                * MAX_CHUNK,
        forall|k: int|
            0 <= k < chunks(block).len() - 1 ==> (#[trigger] chunks(block)[k]).count
                == MAX_CHUNK,
        block > 0 ==> chunks(block).len() > 0 && chunks(block).last().start + chunks(
            block,
        ).last().count == block,
        block == 0 ==> chunks(block).len() == 0,
{
    let n = chunk_count(block) as int;
    assert(n == (block + 120) / 121);
    assert(121 * n <= block + 120 < 121 * n + 121);
}

/// One combined read and write, as the contracts speak of it.
pub struct ExchangeView {
    pub read_address: u16,
    pub count: u16,
    pub write_address: u16,
    pub words: Seq<u16>,
}

/// One combined read and write: read `count` input registers from
/// `read_address` on, and write `words` to the holding registers from
/// `write_address` on.
#[derive(Debug, PartialEq, Eq)]
pub struct Exchange {
    pub read_address: u16,
    pub count: u16,
    pub write_address: u16,
    pub words: Vec<u16>,
}

impl View for Exchange {
    type V = ExchangeView;

    open spec fn view(&self) -> ExchangeView {
        ExchangeView {
            read_address: self.read_address,
            count: self.count,
            write_address: self.write_address,
            words: self.words@,
        }
    }
}

/// The exchange for chunk `c`, with the holding values `holding`.
pub open spec fn exchange_of(holding: Seq<u16>, c: Chunk) -> ExchangeView {
    ExchangeView {
        read_address: (INPUT_BASE + c.start) as u16,
        count: c.count as u16,
        write_address: (HOLDING_BASE + c.start) as u16,
        words: holding.subrange(c.start as int, c.start + c.count),
    }
}

/// Whether `words` is a result for chunk `c` of inputs `inputs`: as many
/// words as the chunk has, and the chunk within the inputs.
pub open spec fn fits(inputs: Seq<u16>, c: Chunk, words: Seq<u16>) -> bool {
    words.len() == c.count && c.start + c.count <= inputs.len()
}

/// The inputs after the exchange for chunk `c` ended with `result`: a
/// result that fits replaces the chunk's words; after a failure all words
/// stay as they were.
pub open spec fn stored(inputs: Seq<u16>, c: Chunk, result: Option<Seq<u16>>) -> Seq<u16> {
    match result {
        Some(words) => if fits(inputs, c, words) {
            inputs.subrange(0, c.start as int) + words + inputs.subrange(
                c.start + c.count,
                inputs.len() as int,
            )
        } else {
            inputs
        },
        None => inputs,
    }
}

/// The inputs after the exchanges for the chunks `plan` ended with
/// `results`, chunk after chunk.
pub open spec fn cycle(
    inputs: Seq<u16>,
    plan: Seq<Chunk>,
    results: Seq<Option<Seq<u16>>>,
) -> Seq<u16>
    decreases plan.len(),
{
    if plan.len() == 0 {
        inputs
    } else {
        stored(cycle(inputs, plan.drop_last(), results.drop_last()), plan.last(), results.last())
    }
}

/// Whether the exchange for chunk `k` of a block succeeded: it has a result
/// with as many words as the chunk.
pub open spec fn succeeded(block: nat, results: Seq<Option<Seq<u16>>>, k: int) -> bool {
    results[k] is Some && results[k]->0.len() == chunk_at(block, k).count
}

/// Word `i` of the inputs after a cycle: the word of the result of the
/// chunk that `i` lies in, where that exchange succeeded, and the word as
/// before where it failed.
pub open spec fn cycled_word(inputs: Seq<u16>, results: Seq<Option<Seq<u16>>>, i: int) -> u16 {
    let k = i / (MAX_CHUNK as int);
    if succeeded(inputs.len(), results, k) {
        results[k]->0[i - k * MAX_CHUNK]
    } else {
        inputs[i]
    }
}

/// The inputs after the first `done` exchanges of a cycle: the words of the
/// chunks done are as the cycle leaves them, the others as before.
pub proof fn lemma_cycle_progress(inputs: Seq<u16>, results: Seq<Option<Seq<u16>>>, done: int)
    requires
        inputs.len() <= usize::MAX,
        results.len() == chunks(inputs.len()).len(),
        0 <= done <= results.len(),
    ensures
        cycle(inputs, chunks(inputs.len()).take(done), results.take(done)).len()
            == inputs.len(),
        forall|i: int|
            0 <= i < inputs.len() ==> #[trigger] cycle(
                inputs,
                chunks(inputs.len()).take(done),
                results.take(done),
            )[i] == if i < done * MAX_CHUNK {
                cycled_word(inputs, results, i)
            } else {
                inputs[i]
            },
    decreases done,
{
    let block = inputs.len();
    let plan = chunks(block);
    lemma_chunks_cover(block);
    if done > 0 {
        let j = done - 1;
        lemma_cycle_progress(inputs, results, j);
        assert(plan.take(done).drop_last() =~= plan.take(j));
        assert(results.take(done).drop_last() =~= results.take(j));
        assert(plan.take(done).last() == chunk_at(block, j));
        assert(results.take(done).last() == results[j]);
        let before = cycle(inputs, plan.take(j), results.take(j));
        let c = chunk_at(block, j);
        let after = stored(before, c, results[j]);
        assert(plan[j] == c);
        assert(c.start == j * MAX_CHUNK && 1 <= c.count <= MAX_CHUNK);
        assert(c.start + c.count <= block);
        assert forall|i: int| 0 <= i < block implies #[trigger] after[i] == if i < done
            * MAX_CHUNK {
            cycled_word(inputs, results, i)
        } else {
            inputs[i]
        } by {
            let k = i / (MAX_CHUNK as int);
            if c.start <= i < c.start + c.count {
                assert(k == j);
            } else if i < c.start {
                assert(k < j);
            } else {
                assert(i >= done * MAX_CHUNK);
            }
        }
    }
}

/// The cycle: after the exchanges for all chunks of the block, every word
/// of a chunk whose exchange succeeded comes from that chunk's result, and
/// every word of a chunk whose exchange failed is as it was before the
/// cycle: a failure leaves its own slice stale, and no other.
pub proof fn lemma_cycle(inputs: Seq<u16>, results: Seq<Option<Seq<u16>>>)
    requires
        inputs.len() <= usize::MAX,
        results.len() == chunks(inputs.len()).len(),
    ensures
        cycle(inputs, chunks(inputs.len()), results).len() == inputs.len(),
        forall|i: int|
            0 <= i < inputs.len() ==> #[trigger] cycle(inputs, chunks(inputs.len()), results)[i]
                == cycled_word(inputs, results, i),
{
    let block = inputs.len();
    let plan = chunks(block);
    let n = plan.len() as int;
    lemma_chunks_cover(block);
    lemma_cycle_progress(inputs, results, n);
    assert(plan.take(n) =~= plan);
    assert(results.take(n) =~= results);
    if block > 0 {
        assert(plan.last().start + plan.last().count == block);
    }
}

/// Splits a block of `block` words into chunks.
pub fn chunk_plan(block: usize) -> (out: Vec<Chunk>)
    ensures
        out@ == chunks(block as nat),
{
    let mut out: Vec<Chunk> = Vec::new();
    let mut left: usize = block;
    let mut start: usize = 0;
    proof {
        lemma_chunks_cover(block as nat);
    }
    while left > 0
        invariant
            start + left == block,
            left > 0 ==> start == out@.len() * MAX_CHUNK,
            out@.len() <= chunks(block as nat).len(),
            forall|k: int| 0 <= k < out@.len() ==> out@[k] == chunk_at(block as nat, k),
            left > 0 ==> out@.len() < chunks(block as nat).len(),
            left == 0 ==> out@.len() == chunks(block as nat).len(),
        decreases left,
    {
        let count: usize = if left > MAX_CHUNK {
            MAX_CHUNK
        } else {
            left
        };
        out.push(Chunk { start, count });
        left -= count;
        start += count;
        proof {
            let n = chunk_count(block as nat) as int;
            assert(n == (block + 120) / 121);
            assert(121 * n <= block + 120 < 121 * n + 121);
        }
    }
    assert(out@ =~= chunks(block as nat));
    out
}

/// A copy of `words[from..to]`.
pub fn copy_words(words: &Vec<u16>, from: usize, to: usize) -> (out: Vec<u16>)
    requires
        from <= to <= words.len(),
    ensures
        out@ == words@.subrange(from as int, to as int),
{
    let mut out: Vec<u16> = Vec::new();
    let mut i: usize = from;
    while i < to
        invariant
            from <= i <= to <= words.len(),
            out@ == words@.subrange(from as int, i as int),
        decreases to - i,
    {
        out.push(words[i]);
        i += 1;
    }
    out
}

/// Whether a request can be made for chunk `c` with `holding` words of
/// holding values: the chunk holds a word and no more than one operation
/// can carry, lies within the holding values, and all its registers have an
/// address.
pub open spec fn askable(holding: nat, c: Chunk) -> bool {
    0 < c.count <= MAX_CHUNK && c.start + c.count <= holding && c.start + c.count <= MAX_BLOCK
}

/// The request for chunk `c` with the holding values `holding`; none where
/// the chunk is not [`askable`].
pub fn request_for(holding: &Vec<u16>, c: Chunk) -> (out: Option<Exchange>)
    ensures
        out is Some <==> askable(holding@.len(), c),
        out is Some ==> out->0@ == exchange_of(holding@, c),
{
    if c.count == 0 || c.count > MAX_CHUNK || c.start > holding.len() || c.count > holding.len() - c.start {
        return None;
    }
    if c.start > MAX_BLOCK || c.count > MAX_BLOCK - c.start {
        return None;
    }
    Some(
        Exchange {
            read_address: INPUT_BASE + c.start as u16,
            count: c.count as u16,
            write_address: HOLDING_BASE + c.start as u16,
            words: copy_words(holding, c.start, c.start + c.count),
        },
    )
}

/// Stores the result of the exchange for chunk `c` into `inputs`. Returns
/// whether the chunk's words were replaced.
pub fn store_result(inputs: &mut Vec<u16>, c: Chunk, result: Option<Vec<u16>>) -> (ok: bool)
    ensures
        final(inputs)@ == stored(
            old(inputs)@,
            c,
            match result {
                Some(w) => Some(w@),
                None => None,
            },
        ),
        ok == (result is Some && fits(old(inputs)@, c, result->0@)),
{
    match result {
        Some(words) => {
            if c.start > inputs.len() || c.count > inputs.len() - c.start || words.len()
                != c.count {
                return false;
            }
            let ghost before = inputs@;
            let mut i: usize = 0;
            while i < c.count
                invariant
                    i <= c.count,
                    words.len() == c.count,
                    c.start + c.count <= inputs.len(),
                    inputs@.len() == before.len(),
                    forall|k: int| 0 <= k < c.start ==> inputs@[k] == before[k],
                    forall|k: int| c.start <= k < c.start + i ==> inputs@[k] == words@[k - c.start],
                    forall|k: int| c.start + i <= k < before.len() ==> inputs@[k] == before[k],
                decreases c.count - i,
            {
                inputs.set(c.start + i, words[i]);
                i += 1;
            }
            assert(inputs@ =~= stored(before, c, Some(words@)));
            true
        },
        None => false,
    }
}

/// Why a register access failed.
#[derive(Clone, Copy, Debug, PartialEq, Eq, Structural)]
pub enum RegisterError {
    /// The block has no word at the address.
    OutOfRange,
}

/// The bridge's ends of the two slots, with its own copy of each.
pub struct RegisterBridge {
    inputs_end: triple_buffer::Input<Vec<u16>>,
    holding_end: triple_buffer::Output<Vec<u16>>,
    inputs: Vec<u16>,
    holding: Vec<u16>,
}

/// The application's ends of the two slots, with its own copy of each.
pub struct RegisterTable {
    inputs_end: triple_buffer::Output<Vec<u16>>,
    holding_end: triple_buffer::Input<Vec<u16>>,
    inputs: Vec<u16>,
    holding: Vec<u16>,
}

/// `n` words, all 0.
pub fn zeros(n: usize) -> (out: Vec<u16>)
    ensures
        out@ == Seq::new(n as nat, |i: int| 0u16),
{
    let mut out: Vec<u16> = Vec::new();
    while out.len() < n
        invariant
            out@.len() <= n,
            forall|k: int| 0 <= k < out@.len() ==> out@[k] == 0,
        decreases n - out.len(),
    {
        out.push(0);
    }
    assert(out@ =~= Seq::new(n as nat, |i: int| 0u16));
    out
}

/// The two slots for a block of `block` words, all 0: the bridge's ends and
/// the application's ends.
pub fn register_slots(block: usize) -> (ends: (RegisterBridge, RegisterTable))
    ensures
        ends.0.inputs() == Seq::new(block as nat, |i: int| 0u16),
        ends.0.holding() == Seq::new(block as nat, |i: int| 0u16),
        ends.0.published() == Seq::new(block as nat, |i: int| 0u16),
        ends.0.fetched() == Seq::new(block as nat, |i: int| 0u16),
        ends.1.inputs() == Seq::new(block as nat, |i: int| 0u16),
        ends.1.holding() == Seq::new(block as nat, |i: int| 0u16),
        ends.1.published() == Seq::new(block as nat, |i: int| 0u16),
        ends.1.fetched() == Seq::new(block as nat, |i: int| 0u16),
{
    let template = zeros(block);
    let input_slot = triple_buffer_of(&template);
    let holding_slot = triple_buffer_of(&template);
    (
        RegisterBridge {
            inputs_end: input_slot.0,
            holding_end: holding_slot.1,
            inputs: zeros(block),
            holding: zeros(block),
        },
        RegisterTable {
            inputs_end: input_slot.1,
            holding_end: holding_slot.0,
            inputs: zeros(block),
            holding: zeros(block),
        },
    )
}

impl RegisterBridge {
    /// The inputs as the bridge has gathered them.
    pub closed spec fn inputs(&self) -> Seq<u16> {
        self.inputs@
    }

    /// The bridge's view of the holding values.
    pub closed spec fn holding(&self) -> Seq<u16> {
        self.holding@
    }

    /// The inputs that the bridge published last.
    pub closed spec fn published(&self) -> Seq<u16> {
        published(self.inputs_end)
    }

    /// The holding values in the buffer that the bridge's reading end
    /// holds: those that it fetched last.
    pub closed spec fn fetched(&self) -> Seq<u16> {
        held(self.holding_end)
    }

    /// The chunks of one cycle.
    pub fn plan(&self) -> (out: Vec<Chunk>)
        ensures
            out@ == chunks(self.inputs().len()),
    {
        chunk_plan(self.inputs.len())
    }

    /// Starts a cycle: the bridge fetches the latest publication of the
    /// holding values, and its view of them becomes what its reading end
    /// then holds.
    pub fn begin_cycle(&mut self)
        ensures
            final(self).holding() == final(self).fetched(),
            final(self).inputs() == old(self).inputs(),
            final(self).published() == old(self).published(),
    {
        self.holding = output_read(&mut self.holding_end);
    }

    /// The request for chunk `c`: see [`request_for`].
    pub fn request(&self, c: Chunk) -> (out: Option<Exchange>)
        ensures
            out is Some <==> askable(self.holding().len(), c),
            out is Some ==> out->0@ == exchange_of(self.holding(), c),
    {
        request_for(&self.holding, c)
    }

    /// Ends the exchange for chunk `c`: see [`store_result`].
    pub fn complete(&mut self, c: Chunk, result: Option<Vec<u16>>) -> (ok: bool)
        ensures
            final(self).inputs() == stored(
                old(self).inputs(),
                c,
                match result {
                    Some(w) => Some(w@),
                    None => None,
                },
            ),
            final(self).holding() == old(self).holding(),
            final(self).published() == old(self).published(),
            final(self).fetched() == old(self).fetched(),
            ok == (result is Some && fits(old(self).inputs(), c, result->0@)),
    {
        store_result(&mut self.inputs, c, result)
    }

    /// Ends a cycle: publishes the inputs as a whole, so that what the
    /// bridge published last is the inputs as it has gathered them.
    pub fn publish(&mut self)
        ensures
            final(self).published() == old(self).inputs(),
            final(self).inputs() == old(self).inputs(),
            final(self).holding() == old(self).holding(),
            final(self).fetched() == old(self).fetched(),
    {
        let words = copy_words(&self.inputs, 0, self.inputs.len());
        input_write(&mut self.inputs_end, words);
    }
}

impl RegisterTable {
    /// The inputs as the application sees them.
    pub closed spec fn inputs(&self) -> Seq<u16> {
        self.inputs@
    }

    /// The holding values as the application has set them.
    pub closed spec fn holding(&self) -> Seq<u16> {
        self.holding@
    }

    /// The holding values that the application published last.
    pub closed spec fn published(&self) -> Seq<u16> {
        published(self.holding_end)
    }

    /// The inputs in the buffer that the application's reading end holds:
    /// those that it fetched last.
    pub closed spec fn fetched(&self) -> Seq<u16> {
        held(self.inputs_end)
    }

    /// Fetches the latest publication of the inputs: the inputs as the
    /// application sees them become what its reading end then holds.
    pub fn update(&mut self)
        ensures
            final(self).inputs() == final(self).fetched(),
            final(self).holding() == old(self).holding(),
            final(self).published() == old(self).published(),
    {
        self.inputs = output_read(&mut self.inputs_end);
    }

    /// Publishes the holding values to the bridge, so that what the
    /// application published last is the holding values as it has set
    /// them.
    pub fn publish(&mut self)
        ensures
            final(self).published() == old(self).holding(),
            final(self).inputs() == old(self).inputs(),
            final(self).holding() == old(self).holding(),
            final(self).fetched() == old(self).fetched(),
    {
        let words = copy_words(&self.holding, 0, self.holding.len());
        input_write(&mut self.holding_end, words);
    }

    /// Input word `addr`.
    pub fn u16(&self, addr: usize) -> (out: Result<u16, RegisterError>)
        ensures
            out == if addr < self.inputs().len() {
                Ok::<u16, RegisterError>(self.inputs()[addr as int])
            } else {
                Err::<u16, RegisterError>(RegisterError::OutOfRange)
            },
    {
        if addr < self.inputs.len() {
            Ok(self.inputs[addr])
        } else {
            Err(RegisterError::OutOfRange)
        }
    }

    /// Sets holding word `addr`.
    pub fn set_u16(&mut self, addr: usize, value: u16) -> (out: Result<(), RegisterError>)
        ensures
            out == if addr < old(self).holding().len() {
                Ok::<(), RegisterError>(())
            } else {
                Err::<(), RegisterError>(RegisterError::OutOfRange)
            },
            final(self).holding() == if addr < old(self).holding().len() {
                old(self).holding().update(addr as int, value)
            } else {
                old(self).holding()
            },
            final(self).inputs() == old(self).inputs(),
            final(self).published() == old(self).published(),
            final(self).fetched() == old(self).fetched(),
    {
        if addr < self.holding.len() {
            self.holding.set(addr, value);
            Ok(())
        } else {
            Err(RegisterError::OutOfRange)
        }
    }
}

} // verus!
