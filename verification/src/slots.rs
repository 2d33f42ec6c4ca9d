//! The ends of the two register slots. Each slot is a lock-free triple
//! buffer: one end writes, the other reads the latest published value, and
//! neither waits for the other.

use vstd::prelude::*;

verus! {

/// The writing end of a triple buffer.
#[verifier::external_type_specification]
#[verifier::external_body]
#[verifier::reject_recursive_types(T)]
pub struct ExInput<T: Send>(triple_buffer::Input<T>);

/// The reading end of a triple buffer.
#[verifier::external_type_specification]
#[verifier::external_body]
#[verifier::reject_recursive_types(T)]
pub struct ExOutput<T: Send>(triple_buffer::Output<T>);

/// The words that the writing end made available to the reader last: those
/// of its last publication, or those that the triple buffer was made with
/// while it has published nothing.
pub uninterp spec fn published(end: triple_buffer::Input<Vec<u16>>) -> Seq<u16>;

/// The words in the buffer that the reading end holds.
pub uninterp spec fn held(end: triple_buffer::Output<Vec<u16>>) -> Seq<u16>;

/// `triple_buffer::triple_buffer` makes a triple buffer whose three buffers
/// are clones of `initial` and hands out its two ends: the reading end
/// holds one of the clones, and another one is what the reader would be
/// given next.
#[verifier::external_body]
pub(crate) fn triple_buffer_of(initial: &Vec<u16>) -> (ends: (
    triple_buffer::Input<Vec<u16>>,
    triple_buffer::Output<Vec<u16>>,
))
    ensures
        published(ends.0) == initial@,
        held(ends.1) == initial@,
{
    triple_buffer::triple_buffer(initial)
}

/// `Input::write` moves `words` into the writing end's buffer and publishes
/// that buffer to the reader.
#[verifier::external_body]
pub(crate) fn input_write(end: &mut triple_buffer::Input<Vec<u16>>, words: Vec<u16>)
    ensures
        published(*final(end)) == words@,
{
    end.write(words)
}

/// `Output::read` fetches the latest published buffer, if a new one was
/// published, and gives access to the buffer that the reading end then
/// holds; this copies it out. Which buffer that is depends on what the
/// writer has published by then.
#[verifier::external_body]
pub(crate) fn output_read(end: &mut triple_buffer::Output<Vec<u16>>) -> (words: Vec<u16>)
    ensures
        words@ == held(*final(end)),
{
    end.read().clone()
}

} // verus!
