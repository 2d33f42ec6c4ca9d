//! The grammar of an inbound frame: lines of `|`-separated fields that
//! alternate event key and value, and event keys of `.`-separated segments.

use crate::text::{
    split, split_at, tail, texts, trim_run, trim_start, without_leading_run,
    without_leading_spaces, lemma_split_first,
};
use vstd::prelude::*;

verus! {

/// An event as the grammar defines it: a key and the value reported for it.
pub struct EventView {
    pub key: Seq<char>,
    pub value: Seq<char>,
}

/// An event read from a frame.
pub struct Event {
    pub key: Vec<char>,
    pub value: Vec<char>,
}

impl View for Event {
    type V = EventView;

    open spec fn view(&self) -> EventView {
        EventView { key: self.key@, value: self.value@ }
    }
}

/// The events that a vector of events holds.
pub open spec fn event_views(v: Seq<Event>) -> Seq<EventView> {
    Seq::new(v.len(), |i: int| v[i]@)
}

/// A frame without its leading white space and, after that, without its
/// leading run of the continuation marker `|`.
pub open spec fn strip(frame: Seq<char>) -> Seq<char> {
    trim_run(trim_start(frame), '|')
}

/// The events of one line: its fields, taken in pairs of key and value. The
/// key loses its leading white space; a last field without a partner is
/// dropped.
pub open spec fn line_events(line: Seq<char>) -> Seq<EventView> {
    let fields = split(line, '|');
    Seq::new(
        (fields.len() / 2) as nat,
        |j: int| EventView { key: trim_start(fields[2 * j]), value: fields[2 * j + 1] },
    )
}

/// The events of several lines, line after line.
pub open spec fn lines_events(lines: Seq<Seq<char>>) -> Seq<EventView>
    decreases lines.len(),
{
    if lines.len() == 0 {
        Seq::empty()
    } else {
        lines_events(lines.drop_last()) + line_events(lines.last())
    }
}

/// The events of a frame, in the order in which the frame holds them.
pub open spec fn frame_events(text: Seq<char>) -> Seq<EventView> {
    lines_events(split(text, '\n'))
}

/// The lookup name of an event key: its first segment.
pub open spec fn event_name(key: Seq<char>) -> Seq<char> {
    split(key, '.')[0]
}

/// How many segments of an event key are read as indices: those after the
/// name, two at most.
pub open spec fn index_count(key: Seq<char>) -> int {
    let n = split(key, '.').len() - 1;
    if n > 2 {
        2
    } else {
        n
    }
}

/// The text of index slot 0 or 1 of an event key. The index segments are
/// aligned to the right: the last of them stands in slot 1, and a slot
/// without a segment is empty.
pub open spec fn slot_text(key: Seq<char>, slot: int) -> Seq<char> {
    let at = slot - 1 + index_count(key);
    if 0 <= slot <= 1 && at >= 1 {
        split(key, '.')[at]
    } else {
        Seq::empty()
    }
}

/// The parts of an event key.
pub struct KeyParts {
    pub name: Vec<char>,
    pub slot0: Vec<char>,
    pub slot1: Vec<char>,
}

/// Removes leading white space and then the leading continuation markers.
pub fn strip_frame(frame: &Vec<char>) -> (out: Vec<char>)
    ensures
        out@ == strip(frame@),
{
    let trimmed = without_leading_spaces(frame);
    without_leading_run(&trimmed, '|')
}

/// Splits an event key into its name and its two index slots.
pub fn key_parts(key: &Vec<char>) -> (parts: KeyParts)
    ensures
        parts.name@ == event_name(key@),
        parts.slot0@ == slot_text(key@, 0),
        parts.slot1@ == slot_text(key@, 1),
{
    let segments = split_at(key, '.');
    proof {
        lemma_split_first(key@, '.');
        assert(texts(segments@).len() == segments@.len());
    }
    let n: usize = segments.len();
    assert(forall|i: int| 0 <= i < n ==> segments@[i]@ == #[trigger] texts(segments@)[i]);
    let name = tail(&segments[0], 0);
    assert(segments@[0]@.skip(0) =~= segments@[0]@);
    if n >= 3 {
        let slot0 = tail(&segments[1], 0);
        let slot1 = tail(&segments[2], 0);
        assert(segments@[1]@.skip(0) =~= segments@[1]@);
        assert(segments@[2]@.skip(0) =~= segments@[2]@);
        KeyParts { name, slot0, slot1 }
    } else if n == 2 {
        let slot1 = tail(&segments[1], 0);
        assert(segments@[1]@.skip(0) =~= segments@[1]@);
        KeyParts { name, slot0: Vec::new(), slot1 }
    } else {
        KeyParts { name, slot0: Vec::new(), slot1: Vec::new() }
    }
}

/// Appends the events of one line to `out`.
pub fn parse_line(line: &Vec<char>, out: &mut Vec<Event>)
    ensures
        event_views(final(out)@) == event_views(old(out)@) + line_events(line@),
{
    let fields = split_at(line, '|');
    let ghost before = event_views(out@);
    let ghost all = line_events(line@);
    assert(texts(fields@).len() == fields@.len());
    assert(forall|i: int|
        0 <= i < fields@.len() ==> fields@[i]@ == #[trigger] texts(fields@)[i]);
    let mut j: usize = 0;
    assert(before + all.take(0) =~= before);
    while j + 1 < fields.len()
        invariant
            j % 2 == 0,
            j <= fields.len(),
            texts(fields@) == split(line@, '|'),
            forall|i: int| 0 <= i < fields@.len() ==> fields@[i]@ == #[trigger] texts(fields@)[i],
            all == line_events(line@),
            event_views(out@) == before + all.take(j as int / 2),
        decreases fields.len() - j,
    {
        let key = without_leading_spaces(&fields[j]);
        let value = tail(&fields[j + 1], 0);
        let ghost seen = out@;
        let event = Event { key, value };
        proof {
            let m = j as int / 2;
            assert(fields@[j + 1]@.skip(0) =~= fields@[j + 1]@);
            assert(2 * m == j);
            assert(m < all.len());
            assert(event@ == all[m]);
            assert(all.take(m + 1) =~= all.take(m).push(all[m]));
            assert(event_views(seen.push(event)) =~= event_views(seen).push(event@));
        }
        out.push(event);
        j += 2;
    }
    proof {
        assert(j as int / 2 == all.len());
        assert(all.take(all.len() as int) =~= all);
    }
}

/// The events of a frame, in order.
pub fn parse_frame(text: &Vec<char>) -> (out: Vec<Event>)
    ensures
        event_views(out@) == frame_events(text@),
{
    let lines = split_at(text, '\n');
    let mut out: Vec<Event> = Vec::new();
    let ghost all = texts(lines@);
    assert(all.len() == lines@.len());
    assert(all.take(0) =~= Seq::<Seq<char>>::empty());
    assert(event_views(out@) =~= Seq::<EventView>::empty());
    let mut i: usize = 0;
    while i < lines.len()
        invariant
            i <= lines.len(),
            all == texts(lines@),
            all.len() == lines@.len(),
            event_views(out@) == lines_events(all.take(i as int)),
        decreases lines.len() - i,
    {
        proof {
            assert(all.take(i + 1).drop_last() =~= all.take(i as int));
            assert(all.take(i + 1).last() == lines@[i as int]@);
        }
        parse_line(&lines[i], &mut out);
        i += 1;
    }
    assert(all.take(i as int) =~= all);
    out
}

} // verus!
