//! Where a transform puts the events that it gives out.
//!
//! An [`OutputBuffer`] collects the events of one output and groups neighbours
//! of the same type into one batch. A [`TransformOutputsBuf`] holds one such
//! buffer for each output of a transform. [`TransformOutputs`] turns a full
//! set of buffers into the batches that are to be sent downstream.
use vstd::prelude::*;

use crate::config::io::TransformOutput;
use crate::event::array::{
    holds_at, kind_of, size_before, size_of, stands_at, Batch, EventArray, EventRef,
};
use crate::event::{data_equal, models, Event, EventModel};
use crate::text::same_text;

verus! {

/// The events of a list of batches, one after the other.
pub open spec fn flat(arrays: Seq<EventArray>) -> Seq<Event>
    decreases arrays.len(),
{
    if arrays.len() == 0 {
        Seq::empty()
    } else {
        flat(arrays.drop_last()) + arrays.last().events()
    }
}

/// Whether the batches are as large as can be: none is empty, and the event
/// that starts a batch does not fit the batch before it.
pub open spec fn coalesced(arrays: Seq<EventArray>) -> bool {
    &&& forall|i: int| 0 <= i < arrays.len() ==> (#[trigger] arrays[i]).events().len() > 0
    &&& forall|i: int, j: int|
        0 <= i && j == i + 1 && j < arrays.len() ==> !(#[trigger] arrays[i]).accepts(
            (#[trigger] arrays[j]).events()[0],
        )
}

/// Adding a batch adds its events behind the others.
pub proof fn flat_push(arrays: Seq<EventArray>, array: EventArray)
    ensures
        flat(arrays.push(array)) == flat(arrays) + array.events(),
{
    assert(arrays.push(array).drop_last() =~= arrays);
}

/// The events of two lists of batches follow one another.
pub proof fn flat_add(a: Seq<EventArray>, b: Seq<EventArray>)
    ensures
        flat(a + b) == flat(a) + flat(b),
    decreases b.len(),
{
    if b.len() == 0 {
        assert(a + b =~= a);
        assert(flat(a) + flat(b) =~= flat(a));
    } else {
        assert((a + b).drop_last() =~= a + b.drop_last());
        flat_add(a, b.drop_last());
        assert(flat(a + b) =~= flat(a) + flat(b));
    }
}

/// What the batches of a list stand for.
pub open spec fn batches(arrays: Seq<EventArray>) -> Seq<Batch> {
    Seq::new(arrays.len(), |i: int| arrays[i]@)
}

/// Batches with one more event: it joins the last batch, where that has the
/// event's type, and otherwise starts a batch of its own behind the others.
pub open spec fn with_event(batches: Seq<Batch>, event: Event) -> Seq<Batch> {
    if batches.len() > 0 && batches.last().kind == kind_of(event) {
        batches.drop_last().push(
            Batch { kind: batches.last().kind, events: batches.last().events.push(event) },
        )
    } else {
        batches.push(Batch { kind: kind_of(event), events: seq![event] })
    }
}

/// Batches with more events, which are added one after the other.
pub open spec fn with_events(batches: Seq<Batch>, events: Seq<Event>) -> Seq<Batch>
    decreases events.len(),
{
    if events.len() == 0 {
        batches
    } else {
        with_event(with_events(batches, events.drop_last()), events.last())
    }
}

/// How events arrive does not change how they are grouped: all at once, in
/// portions or one by one, the batches are the same.
pub proof fn arrival_does_not_change_batches(batches: Seq<Batch>, a: Seq<Event>, b: Seq<Event>)
    ensures
        with_events(with_events(batches, a), b) == with_events(batches, a + b),
        forall|event: Event|
            with_events(batches, #[trigger] a.push(event)) == with_event(
                with_events(batches, a),
                event,
            ),
    decreases b.len(),
{
    assert forall|event: Event|
        with_events(batches, #[trigger] a.push(event)) == with_event(
            with_events(batches, a),
            event,
        ) by {
        assert(a.push(event).drop_last() =~= a);
    }
    if b.len() == 0 {
        assert(a + b =~= a);
    } else {
        arrival_does_not_change_batches(batches, a, b.drop_last());
        assert((a + b).drop_last() =~= a + b.drop_last());
        assert((a + b).last() == b.last());
    }
}

/// The events of one output, grouped into batches of one type.
#[derive(Debug)]
pub struct OutputBuffer(pub Vec<EventArray>);

impl View for OutputBuffer {
    type V = Seq<EventModel>;

    open spec fn view(&self) -> Seq<EventModel> {
        models(self.events())
    }
}

impl Default for OutputBuffer {
    /// A buffer without events.
    fn default() -> (buffer: Self)
        ensures
            buffer.0@.len() == 0,
            buffer.events() == Seq::<Event>::empty(),
    {
        OutputBuffer(Vec::new())
    }
}

impl Clone for OutputBuffer {
    fn clone(&self) -> (copy: Self)
        ensures
            copy@ == self@,
            copy.0@.len() == self.0@.len(),
            forall|i: int|
                0 <= i < self.0@.len() ==> (#[trigger] copy.0@[i])@.kind == self.0@[i]@.kind
                    && models(copy.0@[i].events()) == models(self.0@[i].events()),
    {
        let mut arrays: Vec<EventArray> = Vec::new();
        let mut i: usize = 0;
        assert(models(flat(arrays@)) =~= models(flat(self.0@.take(0))));
        while i < self.0.len()
            invariant
                i <= self.0@.len(),
                arrays@.len() == i,
                models(flat(arrays@)) == models(flat(self.0@.take(i as int))),
                forall|j: int|
                    0 <= j < i ==> (#[trigger] arrays@[j])@.kind == self.0@[j]@.kind && models(
                        arrays@[j].events(),
                    ) == models(self.0@[j].events()),
            decreases self.0@.len() - i,
        {
            let ghost held = arrays@;
            let array = self.0[i].clone();
            arrays.push(array);
            proof {
                let seen = self.0@.take(i as int);
                assert(self.0@.take(i + 1) =~= seen.push(self.0@[i as int]));
                flat_push(seen, self.0@[i as int]);
                flat_push(held, array);
                assert(models(flat(arrays@)) =~= models(flat(held)) + models(array.events()));
                assert(models(flat(self.0@.take(i + 1))) =~= models(flat(seen)) + models(
                    self.0@[i as int].events(),
                ));
            }
            i = i + 1;
        }
        assert(self.0@.take(i as int) =~= self.0@);
        OutputBuffer(arrays)
    }
}

impl OutputBuffer {
    /// The events in the buffer, in the order in which they were pushed.
    pub open spec fn events(self) -> Seq<Event> {
        flat(self.0@)
    }

    /// A buffer without events, with room for the given number of batches.
    pub fn with_capacity(capacity: usize) -> (buffer: Self)
        ensures
            buffer.0@.len() == 0,
            buffer.events() == Seq::<Event>::empty(),
    {
        OutputBuffer(Vec::with_capacity(capacity))
    }

    /// Adds an event: to the last batch, where that has the event's type, and
    /// otherwise in a batch of its own behind the others.
    pub fn push(&mut self, event: Event)
        ensures
            final(self).events() == old(self).events().push(event),
            batches(final(self).0@) == with_event(batches(old(self).0@), event),
            coalesced(old(self).0@) ==> coalesced(final(self).0@),
    {
        let ghost before = self.0@;
        let len: usize = self.0.len();
        if len > 0 && self.0[len - 1].takes(&event) {
            self.0[len - 1].push(event);
            proof {
                assert(self.0@.drop_last() =~= before.drop_last());
                assert(flat(self.0@) =~= flat(before).push(event));
                assert(batches(self.0@) =~= with_event(batches(before), event));
                if coalesced(before) {
                    assert forall|i: int, j: int|
                        0 <= i && j == i + 1 && j < self.0@.len() implies !(#[trigger] self.0@[i]).accepts(
                        (#[trigger] self.0@[j]).events()[0],
                    ) by {
                        assert(self.0@[i] == before[i]);
                        assert(self.0@[j].events()[0] == before[j].events()[0]);
                        assert(!before[i].accepts(before[j].events()[0]));
                    }
                    assert forall|i: int| 0 <= i < self.0@.len() implies (
                    #[trigger] self.0@[i]).events().len() > 0 by {
                        if i < len - 1 {
                            assert(self.0@[i] == before[i]);
                        }
                    }
                }
            }
        } else {
            let array = EventArray::from_event(event);
            self.0.push(array);
            proof {
                flat_push(before, array);
                assert(flat(self.0@) =~= flat(before).push(event));
                assert(batches(self.0@) =~= with_event(batches(before), event));
                if coalesced(before) {
                    assert forall|i: int, j: int|
                        0 <= i && j == i + 1 && j < self.0@.len() implies !(#[trigger] self.0@[i]).accepts(
                        (#[trigger] self.0@[j]).events()[0],
                    ) by {
                        if j < before.len() {
                            assert(!before[i].accepts(before[j].events()[0]));
                        }
                    }
                }
            }
        }
    }

    /// Moves all events of a list into the buffer, in order.
    pub fn append(&mut self, events: &mut Vec<Event>)
        ensures
            final(self).events() == old(self).events() + old(events)@,
            batches(final(self).0@) == with_events(batches(old(self).0@), old(events)@),
            final(events)@ == Seq::<Event>::empty(),
            coalesced(old(self).0@) ==> coalesced(final(self).0@),
    {
        let mut taken: Vec<Event> = Vec::new();
        std::mem::swap(&mut taken, events);
        self.extend(taken);
    }

    /// Adds all events of a list to the buffer, in order.
    pub fn extend(&mut self, events: Vec<Event>)
        ensures
            final(self).events() == old(self).events() + events@,
            batches(final(self).0@) == with_events(batches(old(self).0@), events@),
            coalesced(old(self).0@) ==> coalesced(final(self).0@),
    {
        let ghost before = *self;
        for event in iter: events
            invariant
                iter.seq() == events@,
                self.events() == before.events() + events@.take(iter.index()),
                batches(self.0@) == with_events(batches(before.0@), events@.take(iter.index())),
                coalesced(before.0@) ==> coalesced(self.0@),
        {
            self.push(event);
            assert(events@.take(iter.index() + 1) =~= events@.take(iter.index()).push(event));
            assert(events@.take(iter.index() + 1).drop_last() =~= events@.take(iter.index()));
            assert(self.events() =~= before.events() + events@.take(iter.index() + 1));
        }
        assert(events@.take(events@.len() as int) =~= events@);
    }

    /// Whether the buffer holds no event.
    pub fn is_empty(&self) -> (empty: bool)
        ensures
            empty == (self.events().len() == 0),
    {
        let mut i: usize = 0;
        while i < self.0.len()
            invariant
                i <= self.0.len(),
                flat(self.0@.take(i as int)).len() == 0,
            decreases self.0.len() - i,
        {
            proof {
                assert(self.0@.take(i + 1).drop_last() =~= self.0@.take(i as int));
                assert(self.0@.take(i + 1) + self.0@.skip(i + 1) =~= self.0@);
                flat_add(self.0@.take(i + 1), self.0@.skip(i + 1));
            }
            if self.0[i].len() > 0 {
                return false;
            }
            i = i + 1;
        }
        assert(self.0@.take(i as int) =~= self.0@);
        true
    }

    /// How many events the buffer holds.
    pub fn len(&self) -> (len: usize)
        requires
            self.events().len() <= usize::MAX,
        ensures
            len == self.events().len(),
    {
        let mut len: usize = 0;
        let mut i: usize = 0;
        while i < self.0.len()
            invariant
                i <= self.0.len(),
                len == flat(self.0@.take(i as int)).len(),
                self.events().len() <= usize::MAX,
            decreases self.0.len() - i,
        {
            proof {
                assert(self.0@.take(i + 1).drop_last() =~= self.0@.take(i as int));
                assert(self.0@.take(i + 1) + self.0@.skip(i + 1) =~= self.0@);
                flat_add(self.0@.take(i + 1), self.0@.skip(i + 1));
            }
            len = len + self.0[i].len();
            i = i + 1;
        }
        assert(self.0@.take(i as int) =~= self.0@);
        len
    }

    /// How many events the buffer holds, however many they are.
    pub fn total(&self) -> (total: u128)
        ensures
            total == self.events().len(),
    {
        let mut total: u128 = 0;
        let mut i: usize = 0;
        while i < self.0.len()
            invariant
                i <= self.0.len(),
                total == flat(self.0@.take(i as int)).len(),
                total <= i * usize::MAX,
            decreases self.0.len() - i,
        {
            let len: usize = self.0[i].len();
            proof {
                assert(self.0@.take(i + 1).drop_last() =~= self.0@.take(i as int));
                assert((i + 1) * usize::MAX == i * usize::MAX + usize::MAX) by (nonlinear_arith);
                assert((i + 1) * usize::MAX <= u128::MAX) by (nonlinear_arith)
                    requires
                        i + 1 <= usize::MAX,
                        usize::MAX <= 0xFFFF_FFFF_FFFF_FFFF,
                ;
            }
            total = total + len as u128;
            i = i + 1;
        }
        assert(self.0@.take(i as int) =~= self.0@);
        total
    }

    /// For how many batches the buffer has room. It is never less than the
    /// number of batches that it holds.
    pub fn capacity(&self) -> (capacity: usize)
        ensures
            capacity >= self.0@.len(),
    {
        vec_capacity(&self.0)
    }

    /// The first event in the buffer.
    pub fn first(&self) -> (first: Option<EventRef<'_>>)
        ensures
            match first {
                Some(event) => self.events().len() > 0 && event.event() == self.events()[0],
                None => self.events().len() == 0,
            },
    {
        let mut i: usize = 0;
        while i < self.0.len()
            invariant
                i <= self.0.len(),
                flat(self.0@.take(i as int)).len() == 0,
            decreases self.0.len() - i,
        {
            proof {
                assert(self.0@.take(i + 1).drop_last() =~= self.0@.take(i as int));
                assert(self.0@.take(i + 1) + self.0@.skip(i + 1) =~= self.0@);
                flat_add(self.0@.take(i + 1), self.0@.skip(i + 1));
            }
            let first = self.0[i].first();
            if first.is_some() {
                return first;
            }
            i = i + 1;
        }
        assert(self.0@.take(i as int) =~= self.0@);
        None
    }

    /// Takes all events out of the buffer, in the order in which they were
    /// pushed. The buffer keeps its room.
    pub fn drain(&mut self) -> (events: Vec<Event>)
        ensures
            events@ == old(self).events(),
            final(self).0@.len() == 0,
            final(self).events() == Seq::<Event>::empty(),
    {
        let mut arrays: Vec<EventArray> = Vec::new();
        arrays.append(&mut self.0);
        assert(arrays@ =~= old(self).0@);
        OutputBuffer(arrays).into_events()
    }

    /// Puts each batch through `f`, in place.
    pub fn for_each_array_mut(&mut self, f: impl Fn(EventArray) -> EventArray)
        requires
            forall|array: EventArray| #[trigger] call_requires(f, (array,)),
        ensures
            final(self).0@.len() == old(self).0@.len(),
            forall|i: int|
                0 <= i < old(self).0@.len() ==> call_ensures(
                    f,
                    (old(self).0@[i],),
                    #[trigger] final(self).0@[i],
                ),
    {
        let ghost before = self.0@;
        let mut i: usize = 0;
        while i < self.0.len()
            invariant
                i <= self.0.len(),
                self.0@.len() == before.len(),
                forall|array: EventArray| #[trigger] call_requires(f, (array,)),
                forall|j: int| i <= j < before.len() ==> self.0@[j] == before[j],
                forall|j: int|
                    0 <= j < i ==> call_ensures(f, (before[j],), #[trigger] self.0@[j]),
            decreases self.0.len() - i,
        {
            let mut array = EventArray::Logs(Vec::new());
            std::mem::swap(&mut array, &mut self.0[i]);
            let array = f(array);
            self.0.set(i, array);
            i = i + 1;
        }
    }

    /// The events in the buffer, to be read.
    pub fn iter_events(&self) -> (events: Vec<EventRef<'_>>)
        ensures
            events@.len() == self.events().len(),
            forall|i: int| 0 <= i < events@.len() ==> (#[trigger] events@[i]).event() == self.events()[i],
    {
        let mut events: Vec<EventRef<'_>> = Vec::new();
        let mut i: usize = 0;
        while i < self.0.len()
            invariant
                i <= self.0.len(),
                events@.len() == flat(self.0@.take(i as int)).len(),
                forall|k: int|
                    0 <= k < events@.len() ==> (#[trigger] events@[k]).event() == flat(
                        self.0@.take(i as int),
                    )[k],
            decreases self.0.len() - i,
        {
            let ghost start = flat(self.0@.take(i as int));
            let array = &self.0[i];
            let len: usize = array.len();
            let mut j: usize = 0;
            while j < len
                invariant
                    j <= len,
                    len == array.events().len(),
                    events@.len() == start.len() + j,
                    forall|k: int|
                        0 <= k < events@.len() ==> (#[trigger] events@[k]).event() == (start
                            + array.events())[k],
                decreases len - j,
            {
                events.push(array.event_at(j));
                j = j + 1;
            }
            assert(self.0@.take(i + 1).drop_last() =~= self.0@.take(i as int));
            i = i + 1;
        }
        assert(self.0@.take(i as int) =~= self.0@);
        events
    }

    /// Gives up the buffer but for its events, in the order in which they were
    /// pushed.
    pub fn into_events(self) -> (events: Vec<Event>)
        ensures
            events@ == self.events(),
    {
        let mut events: Vec<Event> = Vec::new();
        let ghost all = self.0@;
        for array in iter: self.0
            invariant
                iter.seq() == all,
                events@ == flat(all.take(iter.index())),
        {
            array.append_to(&mut events);
            assert(all.take(iter.index() + 1).drop_last() =~= all.take(iter.index()));
            assert(all.take(iter.index() + 1).last() == array);
        }
        assert(all.take(all.len() as int) =~= all);
        events
    }

    /// Whether the buffer holds the same data as a list of events.
    pub fn event_data_eq(&self, other: &Vec<Event>) -> (same: bool)
        ensures
            same == (self.events().len() == other@.len() && forall|i: int|
                0 <= i < other@.len() ==> data_equal(
                    self.events()[i].data(),
                    (#[trigger] other@[i]).data(),
                )),
    {
        let events = self.iter_events();
        if events.len() != other.len() {
            return false;
        }
        let mut i: usize = 0;
        while i < events.len()
            invariant
                i <= events.len(),
                events@.len() == other@.len(),
                events@.len() == self.events().len(),
                forall|k: int|
                    0 <= k < events@.len() ==> (#[trigger] events@[k]).event() == self.events()[k],
                forall|k: int|
                    0 <= k < i ==> data_equal(
                        self.events()[k].data(),
                        (#[trigger] other@[k]).data(),
                    ),
            decreases events.len() - i,
        {
            if !events[i].event_data_eq(&other[i]) {
                assert(!data_equal(self.events()[i as int].data(), other@[i as int].data()));
                return false;
            }
            i = i + 1;
        }
        true
    }

    /// The buffer that holds the events of a list.
    pub fn from_events(events: Vec<Event>) -> (buffer: Self)
        ensures
            buffer.events() == events@,
            batches(buffer.0@) == with_events(Seq::empty(), events@),
            coalesced(buffer.0@),
    {
        let mut buffer = OutputBuffer::default();
        assert(batches(buffer.0@) =~= Seq::<Batch>::empty());
        buffer.extend(events);
        assert(buffer.events() =~= events@);
        buffer
    }
}

/// What a [`TransformOutputsBuf`] stands for: the events of the default output,
/// where there is one, and those of each named output.
pub ghost struct OutputsModel {
    pub primary: Option<Seq<EventModel>>,
    pub named: Map<Seq<char>, Seq<EventModel>>,
}

/// Whether no two buffers have the same name.
pub open spec fn distinct_names(buffers: Seq<(String, OutputBuffer)>) -> bool {
    forall|i: int, j: int|
        0 <= i < j < buffers.len() ==> (#[trigger] buffers[i]).0@ != (#[trigger] buffers[j]).0@
}

/// Whether a buffer has the given name.
pub open spec fn has_name(buffers: Seq<(String, OutputBuffer)>, name: Seq<char>) -> bool {
    exists|i: int| 0 <= i < buffers.len() && (#[trigger] buffers[i]).0@ == name
}

/// The place of the buffer with the given name.
pub open spec fn place_of(buffers: Seq<(String, OutputBuffer)>, name: Seq<char>) -> int {
    choose|i: int| 0 <= i < buffers.len() && (#[trigger] buffers[i]).0@ == name
}

/// The events of each buffer, by the buffer's name.
pub open spec fn by_name(buffers: Seq<(String, OutputBuffer)>) -> Map<Seq<char>, Seq<EventModel>> {
    Map::new(
        |name: Seq<char>| has_name(buffers, name),
        |name: Seq<char>| buffers[place_of(buffers, name)].1@,
    )
}

/// The batches of each buffer, by the buffer's name.
pub open spec fn arrays_by_name(buffers: Seq<(String, OutputBuffer)>) -> Map<
    Seq<char>,
    Seq<EventArray>,
> {
    Map::new(
        |name: Seq<char>| has_name(buffers, name),
        |name: Seq<char>| buffers[place_of(buffers, name)].1.0@,
    )
}

/// There is but one place of a name.
proof fn place_is(buffers: Seq<(String, OutputBuffer)>, i: int)
    requires
        distinct_names(buffers),
        0 <= i < buffers.len(),
    ensures
        has_name(buffers, buffers[i].0@),
        place_of(buffers, buffers[i].0@) == i,
{
    let name = buffers[i].0@;
    assert(has_name(buffers, name));
    let j = place_of(buffers, name);
    assert(0 <= j < buffers.len() && buffers[j].0@ == name);
    if i < j {
        assert(buffers[i].0@ != buffers[j].0@);
    } else if j < i {
        assert(buffers[j].0@ != buffers[i].0@);
    }
}

/// Changing the batches of one buffer changes the entry of its name only.
proof fn arrays_by_name_update(
    before: Seq<(String, OutputBuffer)>,
    after: Seq<(String, OutputBuffer)>,
    i: int,
)
    requires
        distinct_names(before),
        0 <= i < before.len(),
        after.len() == before.len(),
        forall|j: int| 0 <= j < before.len() ==> (#[trigger] after[j]).0@ == before[j].0@,
        forall|j: int|
            0 <= j < before.len() && j != i ==> (#[trigger] after[j]).1.0@ == before[j].1.0@,
    ensures
        arrays_by_name(after) == arrays_by_name(before).insert(before[i].0@, after[i].1.0@),
        arrays_by_name(before).contains_key(before[i].0@),
        arrays_by_name(before)[before[i].0@] == before[i].1.0@,
{
    by_name_update_names(before, after);
    place_is(before, i);
    let expected = arrays_by_name(before).insert(before[i].0@, after[i].1.0@);
    assert forall|name: Seq<char>| #[trigger]
        arrays_by_name(after).contains_key(name) == expected.contains_key(name) by {
        if has_name(after, name) {
            assert(before[place_of(after, name)].0@ == name);
        }
        if has_name(before, name) {
            assert(after[place_of(before, name)].0@ == name);
        }
    }
    assert forall|name: Seq<char>| arrays_by_name(after).contains_key(name) implies #[trigger]
        arrays_by_name(after)[name] == expected[name] by {
        let j = place_of(after, name);
        assert(after[j].0@ == name);
        assert(before[j].0@ == name);
        place_is(before, j);
        place_is(before, i);
    }
    assert(arrays_by_name(after) =~= expected);
}

/// Buffers with the names of others have different names if those do.
proof fn by_name_update_names(
    before: Seq<(String, OutputBuffer)>,
    after: Seq<(String, OutputBuffer)>,
)
    requires
        distinct_names(before),
        after.len() == before.len(),
        forall|j: int| 0 <= j < before.len() ==> (#[trigger] after[j]).0@ == before[j].0@,
    ensures
        distinct_names(after),
{
    assert forall|j: int, k: int| 0 <= j < k < after.len() implies (#[trigger] after[j]).0@ != (
    #[trigger] after[k]).0@ by {
        assert(before[j].0@ != before[k].0@);
    }
}

/// The entry of a buffer's name is what the buffer holds.
proof fn by_name_at(buffers: Seq<(String, OutputBuffer)>, i: int)
    requires
        distinct_names(buffers),
        0 <= i < buffers.len(),
    ensures
        by_name(buffers).contains_key(buffers[i].0@),
        by_name(buffers)[buffers[i].0@] == buffers[i].1@,
{
    place_is(buffers, i);
}

/// Changing what one buffer holds changes the entry of its name only.
proof fn by_name_update(
    before: Seq<(String, OutputBuffer)>,
    after: Seq<(String, OutputBuffer)>,
    i: int,
)
    requires
        distinct_names(before),
        0 <= i < before.len(),
        after.len() == before.len(),
        forall|j: int| 0 <= j < before.len() ==> (#[trigger] after[j]).0@ == before[j].0@,
        forall|j: int| 0 <= j < before.len() && j != i ==> (#[trigger] after[j]).1@ == before[j].1@,
    ensures
        distinct_names(after),
        by_name(after) == by_name(before).insert(before[i].0@, after[i].1@),
{
    by_name_update_names(before, after);
    let expected = by_name(before).insert(before[i].0@, after[i].1@);
    assert forall|name: Seq<char>| #[trigger]
        by_name(after).contains_key(name) == expected.contains_key(name) by {
        if has_name(after, name) {
            let j = place_of(after, name);
            assert(before[j].0@ == name);
        }
        if has_name(before, name) {
            let j = place_of(before, name);
            assert(after[j].0@ == name);
        }
        by_name_at(before, i);
    }
    assert forall|name: Seq<char>| by_name(after).contains_key(name) implies #[trigger] by_name(
        after,
    )[name] == expected[name] by {
        let j = place_of(after, name);
        assert(after[j].0@ == name);
        by_name_at(after, j);
        by_name_at(before, j);
        by_name_at(before, i);
    }
    assert(by_name(after) =~= expected);
}

/// A further buffer adds an entry for its name.
proof fn by_name_push(buffers: Seq<(String, OutputBuffer)>, buffer: (String, OutputBuffer))
    requires
        distinct_names(buffers),
        !has_name(buffers, buffer.0@),
    ensures
        distinct_names(buffers.push(buffer)),
        by_name(buffers.push(buffer)) == by_name(buffers).insert(buffer.0@, buffer.1@),
{
    let after = buffers.push(buffer);
    assert forall|j: int, k: int| 0 <= j < k < after.len() implies (#[trigger] after[j]).0@ != (
    #[trigger] after[k]).0@ by {
        assert(buffers[j].0@ == after[j].0@);
        if k < buffers.len() {
            assert(buffers[j].0@ != buffers[k].0@);
        }
    }
    let expected = by_name(buffers).insert(buffer.0@, buffer.1@);
    assert forall|name: Seq<char>| #[trigger]
        by_name(after).contains_key(name) == expected.contains_key(name) by {
        if has_name(after, name) {
            let j = place_of(after, name);
            if j < buffers.len() {
                assert(buffers[j].0@ == name);
            }
        }
        if has_name(buffers, name) {
            let j = place_of(buffers, name);
            assert(after[j].0@ == name);
        }
        assert(after[buffers.len() as int].0@ == buffer.0@);
    }
    assert forall|name: Seq<char>| by_name(after).contains_key(name) implies #[trigger] by_name(
        after,
    )[name] == expected[name] by {
        let j = place_of(after, name);
        assert(after[j].0@ == name);
        by_name_at(after, j);
        if j < buffers.len() {
            by_name_at(buffers, j);
            assert(buffers[j].0@ == name);
        }
    }
    assert(by_name(after) =~= expected);
}

/// The names of the outputs of a transform that have one.
pub open spec fn port_names(outputs: Seq<TransformOutput>) -> Set<Seq<char>> {
    Set::new(
        |name: Seq<char>|
            exists|i: int|
                0 <= i < outputs.len() && (#[trigger] outputs[i]).port is Some
                    && outputs[i].port->0@ == name,
    )
}

/// Whether a transform has a default output.
pub open spec fn has_default(outputs: Seq<TransformOutput>) -> bool {
    exists|i: int| 0 <= i < outputs.len() && (#[trigger] outputs[i]).port is None
}

/// The events of all outputs of a transform, to be sent once a batch of input
/// has been gone through.
#[derive(Debug)]
pub struct TransformOutputsBuf {
    primary_buffer: Option<OutputBuffer>,
    named_buffers: Vec<(String, OutputBuffer)>,
}

impl View for TransformOutputsBuf {
    type V = OutputsModel;

    closed spec fn view(&self) -> OutputsModel {
        OutputsModel {
            primary: match self.primary_buffer {
                Some(buffer) => Some(buffer@),
                None => None,
            },
            named: by_name(self.named_buffers@),
        }
    }
}

impl TransformOutputsBuf {
    #[verifier::type_invariant]
    spec fn names_differ(self) -> bool {
        distinct_names(self.named_buffers@)
    }

    /// Buffers for the given outputs, all without events.
    pub fn new_with_capacity(outputs_in: Vec<TransformOutput>, capacity: usize) -> (buf: Self)
        ensures
            buf@.primary is Some <==> has_default(outputs_in@),
            buf@.primary is Some ==> buf@.primary->0.len() == 0,
            buf@.named.dom() == port_names(outputs_in@),
            forall|name: Seq<char>| #[trigger]
                buf@.named.contains_key(name) ==> buf@.named[name].len() == 0,
            buf.primary_arrays() is Some ==> buf.primary_arrays()->0.len() == 0,
            forall|name: Seq<char>| #[trigger]
                buf.named_arrays().contains_key(name) ==> buf.named_arrays()[name].len() == 0,
    {
        let mut primary_buffer: Option<OutputBuffer> = None;
        let mut named_buffers: Vec<(String, OutputBuffer)> = Vec::new();
        let mut i: usize = 0;
        while i < outputs_in.len()
            invariant
                i <= outputs_in.len(),
                primary_buffer is Some <==> has_default(outputs_in@.take(i as int)),
                primary_buffer is Some ==> primary_buffer->0@.len() == 0,
                primary_buffer is Some ==> (primary_buffer->0).0@.len() == 0,
                distinct_names(named_buffers@),
                forall|name: Seq<char>|
                    has_name(named_buffers@, name) <==> #[trigger] port_names(
                        outputs_in@.take(i as int),
                    ).contains(name),
                forall|j: int|
                    0 <= j < named_buffers@.len() ==> (#[trigger] named_buffers@[j]).1@.len() == 0
                        && named_buffers@[j].1.0@.len() == 0,
            decreases outputs_in.len() - i,
        {
            let ghost seen = outputs_in@.take(i as int);
            let ghost all = outputs_in@.take(i + 1);
            let ghost before = named_buffers@;
            assert(all =~= seen.push(outputs_in@[i as int]));
            proof {
                assert forall|j: int| 0 <= j < seen.len() implies #[trigger] all[j] == seen[j] by {}
                assert(has_default(all) <==> has_default(seen) || outputs_in@[i as int].port is None)
                    by {
                    if has_default(seen) {
                        let j = choose|j: int|
                            0 <= j < seen.len() && (#[trigger] seen[j]).port is None;
                        assert(all[j].port is None);
                    }
                    if outputs_in@[i as int].port is None {
                        assert(all[i as int].port is None);
                    }
                    if has_default(all) {
                        let j = choose|j: int| 0 <= j < all.len() && (#[trigger] all[j]).port is None;
                        if j < seen.len() {
                            assert(seen[j].port is None);
                        }
                    }
                }
                assert forall|name: Seq<char>| #[trigger]
                    port_names(all).contains(name) <==> port_names(seen).contains(name) || (
                    outputs_in@[i as int].port is Some && outputs_in@[i as int].port->0@ == name) by {
                    if port_names(seen).contains(name) {
                        let j = choose|j: int|
                            0 <= j < seen.len() && (#[trigger] seen[j]).port is Some
                                && seen[j].port->0@ == name;
                        assert(all[j].port is Some && all[j].port->0@ == name);
                    }
                    if outputs_in@[i as int].port is Some && outputs_in@[i as int].port->0@ == name {
                        assert(all[i as int].port is Some && all[i as int].port->0@ == name);
                    }
                    if port_names(all).contains(name) {
                        let j = choose|j: int|
                            0 <= j < all.len() && (#[trigger] all[j]).port is Some
                                && all[j].port->0@ == name;
                        if j < seen.len() {
                            assert(seen[j].port is Some && seen[j].port->0@ == name);
                        }
                    }
                }
            }
            match &outputs_in[i].port {
                None => {
                    primary_buffer = Some(OutputBuffer::with_capacity(capacity));
                },
                Some(name) => {
                    if find_name(&named_buffers, name.as_str()).is_none() {
                        let buffer = (name.clone(), OutputBuffer::default());
                        named_buffers.push(buffer);
                        proof {
                            by_name_push(before, buffer);
                            assert forall|other: Seq<char>|
                                has_name(named_buffers@, other) <==> has_name(before, other) || other
                                    == name@ by {
                                if has_name(before, other) {
                                    let j = place_of(before, other);
                                    assert(named_buffers@[j].0@ == other);
                                }
                                if has_name(named_buffers@, other) {
                                    let j = place_of(named_buffers@, other);
                                    if j < before.len() {
                                        assert(before[j].0@ == other);
                                    }
                                }
                                assert(named_buffers@[before.len() as int].0@ == name@);
                            }
                        }
                    }
                },
            }
            i = i + 1;
        }
        assert(outputs_in@.take(i as int) =~= outputs_in@);
        let buf = TransformOutputsBuf { primary_buffer, named_buffers };
        proof {
            assert forall|name: Seq<char>| buf@.named.dom().contains(name) == port_names(
                outputs_in@,
            ).contains(name) by {}
            assert(buf@.named.dom() =~= port_names(outputs_in@));
        }
        buf
    }

    /// Adds an event to the default output, or to the output with the given
    /// name.
    pub fn push(&mut self, name: Option<&str>, event: Event)
        requires
            match name {
                Some(name) => old(self)@.named.contains_key(name@),
                None => old(self)@.primary is Some,
            },
        ensures
            final(self)@ == (match name {
                Some(name) => OutputsModel {
                    named: old(self)@.named.insert(name@, old(self)@.named[name@].push(event@)),
                    ..old(self)@
                },
                None => OutputsModel {
                    primary: Some(old(self)@.primary->0.push(event@)),
                    ..old(self)@
                },
            }),
            final(self).names() == old(self).names(),
            match name {
                Some(name) => {
                    &&& final(self).primary_arrays() == old(self).primary_arrays()
                    &&& final(self).named_arrays() == old(self).named_arrays().insert(
                        name@,
                        final(self).named_arrays()[name@],
                    )
                    &&& old(self).named_arrays().contains_key(name@)
                    &&& batches(final(self).named_arrays()[name@]) == with_event(
                        batches(old(self).named_arrays()[name@]),
                        event,
                    )
                },
                None => {
                    &&& final(self).named_arrays() == old(self).named_arrays()
                    &&& final(self).primary_arrays() is Some
                    &&& batches(final(self).primary_arrays()->0) == with_event(
                        batches(old(self).primary_arrays()->0),
                        event,
                    )
                },
            },
    {
        proof {
            use_type_invariant(&*self);
        }
        match name {
            Some(name) => {
                let ghost before = self.named_buffers@;
                let mut buffers: Vec<(String, OutputBuffer)> = Vec::new();
                std::mem::swap(&mut buffers, &mut self.named_buffers);
                if let Some(index) = find_name(&buffers, name) {
                    buffers[index].1.push(event);
                    proof {
                        assert(models(before[index as int].1.events().push(event)) =~= models(
                            before[index as int].1.events(),
                        ).push(event@));
                        by_name_at(before, index as int);
                        by_name_update(before, buffers@, index as int);
                        arrays_by_name_update(before, buffers@, index as int);
                    }
                }
                self.named_buffers = buffers;
                assert(self.names() =~= old(self).names());
            },
            None => {
                let mut buffer: Option<OutputBuffer> = None;
                std::mem::swap(&mut buffer, &mut self.primary_buffer);
                if let Some(mut primary) = buffer {
                    let ghost before = primary.events();
                    primary.push(event);
                    assert(models(before.push(event)) =~= models(before).push(event@));
                    self.primary_buffer = Some(primary);
                }
            },
        }
    }

    /// Takes all events out of the default output.
    pub fn drain(&mut self) -> (events: Vec<Event>)
        requires
            old(self)@.primary is Some,
        ensures
            models(events@) == old(self)@.primary->0,
            events@ == flat(old(self).primary_arrays()->0),
            final(self)@ == (OutputsModel { primary: Some(Seq::empty()), ..old(self)@ }),
            final(self).primary_arrays() == Some(Seq::<EventArray>::empty()),
            final(self).named_arrays() == old(self).named_arrays(),
            final(self).names() == old(self).names(),
    {
        proof {
            use_type_invariant(&*self);
        }
        let mut buffer: Option<OutputBuffer> = None;
        std::mem::swap(&mut buffer, &mut self.primary_buffer);
        match buffer {
            Some(mut primary) => {
                let events = primary.drain();
                assert(primary@ =~= Seq::<EventModel>::empty());
                assert(primary.0@ =~= Seq::<EventArray>::empty());
                self.primary_buffer = Some(primary);
                events
            },
            None => vstd::pervasive::unreached(),
        }
    }

    /// Takes all events out of the output with the given name.
    pub fn drain_named(&mut self, name: &str) -> (events: Vec<Event>)
        requires
            old(self)@.named.contains_key(name@),
        ensures
            models(events@) == old(self)@.named[name@],
            events@ == flat(old(self).named_arrays()[name@]),
            final(self)@ == (OutputsModel {
                named: old(self)@.named.insert(name@, Seq::empty()),
                ..old(self)@
            }),
            final(self).primary_arrays() == old(self).primary_arrays(),
            final(self).named_arrays() == old(self).named_arrays().insert(name@, Seq::empty()),
            final(self).names() == old(self).names(),
    {
        proof {
            use_type_invariant(&*self);
        }
        let ghost before = self.named_buffers@;
        let mut buffers: Vec<(String, OutputBuffer)> = Vec::new();
        std::mem::swap(&mut buffers, &mut self.named_buffers);
        let events = match find_name(&buffers, name) {
            Some(index) => {
                let events = buffers[index].1.drain();
                proof {
                    by_name_at(before, index as int);
                    by_name_update(before, buffers@, index as int);
                    arrays_by_name_update(before, buffers@, index as int);
                    assert(buffers@[index as int].1@ =~= Seq::<EventModel>::empty());
                    assert(buffers@[index as int].1.0@ =~= Seq::<EventArray>::empty());
                }
                events
            },
            None => Vec::new(),
        };
        self.named_buffers = buffers;
        assert(self.names() =~= old(self).names());
        events
    }

    /// Takes over the buffer of the default output and leaves an empty one.
    pub fn take_primary(&mut self) -> (buffer: OutputBuffer)
        requires
            old(self)@.primary is Some,
        ensures
            buffer@ == old(self)@.primary->0,
            Some(buffer.0@) == old(self).primary_arrays(),
            final(self)@ == (OutputsModel { primary: Some(Seq::empty()), ..old(self)@ }),
            final(self).primary_arrays() == Some(Seq::<EventArray>::empty()),
            final(self).named_arrays() == old(self).named_arrays(),
            final(self).names() == old(self).names(),
    {
        proof {
            use_type_invariant(&*self);
        }
        let mut buffer: Option<OutputBuffer> = Some(OutputBuffer::default());
        assert(buffer->0@ =~= Seq::<EventModel>::empty());
        assert((buffer->0).0@ =~= Seq::<EventArray>::empty());
        std::mem::swap(&mut buffer, &mut self.primary_buffer);
        match buffer {
            Some(buffer) => buffer,
            None => vstd::pervasive::unreached(),
        }
    }

    /// Puts a buffer in place of that of the default output.
    pub fn replace_primary(&mut self, buffer: OutputBuffer)
        requires
            old(self)@.primary is Some,
        ensures
            final(self)@ == (OutputsModel { primary: Some(buffer@), ..old(self)@ }),
            final(self).primary_arrays() == Some(buffer.0@),
            final(self).named_arrays() == old(self).named_arrays(),
            final(self).names() == old(self).names(),
    {
        proof {
            use_type_invariant(&*self);
        }
        self.primary_buffer = Some(buffer);
    }

    /// The batches in the buffer of the default output.
    pub closed spec fn primary_arrays(&self) -> Option<Seq<EventArray>> {
        match self.primary_buffer {
            Some(buffer) => Some(buffer.0@),
            None => None,
        }
    }

    /// The batches in the buffer of each named output.
    pub closed spec fn named_arrays(&self) -> Map<Seq<char>, Seq<EventArray>> {
        arrays_by_name(self.named_buffers@)
    }

    /// The events of an output are those of its batches, one after the other.
    pub proof fn events_of_arrays(&self)
        ensures
            self@.primary is Some <==> self.primary_arrays() is Some,
            self@.primary is Some ==> self@.primary->0 == models(flat(self.primary_arrays()->0)),
            self@.named.dom() == self.named_arrays().dom(),
            forall|name: Seq<char>| #[trigger]
                self@.named.contains_key(name) ==> self@.named[name] == models(
                    flat(self.named_arrays()[name]),
                ),
    {
        assert(self@.named.dom() =~= self.named_arrays().dom());
    }

    /// Puts each batch of each output through `f`, in place.
    pub fn for_each_array_mut(&mut self, f: impl Fn(EventArray) -> EventArray)
        requires
            forall|array: EventArray| #[trigger] call_requires(f, (array,)),
        ensures
            old(self).primary_arrays() is Some <==> final(self).primary_arrays() is Some,
            old(self).primary_arrays() is Some ==> {
                &&& final(self).primary_arrays()->0.len() == old(self).primary_arrays()->0.len()
                &&& forall|i: int|
                    0 <= i < old(self).primary_arrays()->0.len() ==> call_ensures(
                        f,
                        (old(self).primary_arrays()->0[i],),
                        #[trigger] final(self).primary_arrays()->0[i],
                    )
            },
            final(self).named_arrays().dom() == old(self).named_arrays().dom(),
            forall|name: Seq<char>| #[trigger]
                old(self).named_arrays().contains_key(name) ==> {
                    &&& final(self).named_arrays()[name].len() == old(self).named_arrays()[name].len()
                    &&& forall|i: int|
                        0 <= i < old(self).named_arrays()[name].len() ==> call_ensures(
                            f,
                            (old(self).named_arrays()[name][i],),
                            #[trigger] final(self).named_arrays()[name][i],
                        )
                },
    {
        proof {
            use_type_invariant(&*self);
        }
        let mut primary: Option<OutputBuffer> = None;
        std::mem::swap(&mut primary, &mut self.primary_buffer);
        if let Some(mut buffer) = primary {
            buffer.for_each_array_mut(&f);
            self.primary_buffer = Some(buffer);
        }
        let mut buffers: Vec<(String, OutputBuffer)> = Vec::new();
        std::mem::swap(&mut buffers, &mut self.named_buffers);
        let ghost before = buffers@;
        let mut i: usize = 0;
        while i < buffers.len()
            invariant
                i <= buffers.len(),
                buffers@.len() == before.len(),
                forall|array: EventArray| #[trigger] call_requires(f, (array,)),
                forall|j: int| 0 <= j < before.len() ==> (#[trigger] buffers@[j]).0 == before[j].0,
                forall|j: int| i <= j < before.len() ==> buffers@[j] == before[j],
                forall|j: int|
                    0 <= j < i ==> (#[trigger] buffers@[j]).1.0@.len() == before[j].1.0@.len(),
                forall|j: int, k: int|
                    0 <= j < i && 0 <= k < before[j].1.0@.len() ==> call_ensures(
                        f,
                        (before[j].1.0@[k],),
                        #[trigger] buffers@[j].1.0@[k],
                    ),
            decreases buffers.len() - i,
        {
            buffers[i].1.for_each_array_mut(&f);
            i = i + 1;
        }
        proof {
            assert(distinct_names(buffers@)) by {
                assert forall|j: int, k: int| 0 <= j < k < buffers@.len() implies (
                #[trigger] buffers@[j]).0@ != (#[trigger] buffers@[k]).0@ by {
                    assert(before[j].0@ != before[k].0@);
                }
            }
        }
        self.named_buffers = buffers;
        proof {
            assert forall|name: Seq<char>| has_name(buffers@, name) <==> has_name(before, name) by {
                if has_name(buffers@, name) {
                    assert(before[place_of(buffers@, name)].0@ == name);
                }
                if has_name(before, name) {
                    assert(buffers@[place_of(before, name)].0@ == name);
                }
            }
            assert(self.named_arrays().dom() =~= old(self).named_arrays().dom());
            assert forall|name: Seq<char>| has_name(before, name) implies place_of(buffers@, name)
                == #[trigger] place_of(before, name) by {
                let j = place_of(buffers@, name);
                let k = place_of(before, name);
                assert(before[j].0@ == name);
                assert(before[k].0@ == name);
                if j < k {
                    assert(before[j].0@ != before[k].0@);
                } else if k < j {
                    assert(before[k].0@ != before[j].0@);
                }
            }
            assert forall|name: Seq<char>| #[trigger]
                old(self).named_arrays().contains_key(name) implies {
                &&& self.named_arrays()[name].len() == old(self).named_arrays()[name].len()
                &&& forall|i: int|
                    0 <= i < old(self).named_arrays()[name].len() ==> call_ensures(
                        f,
                        (old(self).named_arrays()[name][i],),
                        #[trigger] self.named_arrays()[name][i],
                    )
            } by {
                let k = place_of(before, name);
                assert(place_of(buffers@, name) == k);
                assert(before[k].0@ == name);
            }
        }
    }

    /// The names of the named outputs, in a fixed order.
    pub closed spec fn names(&self) -> Seq<Seq<char>> {
        Seq::new(self.named_buffers@.len(), |i: int| self.named_buffers@[i].0@)
    }

    /// Whether there is a buffer for the default output.
    pub fn has_primary(&self) -> (found: bool)
        ensures
            found == (self@.primary is Some),
    {
        self.primary_buffer.is_some()
    }

    /// How many named outputs there are.
    pub fn named_count(&self) -> (count: usize)
        ensures
            count == self.names().len(),
            self.names().no_duplicates(),
            forall|name: Seq<char>| #[trigger]
                self.names().contains(name) <==> self@.named.contains_key(name),
    {
        proof {
            use_type_invariant(self);
            let names = self.names();
            assert forall|i: int, j: int|
                0 <= i < names.len() && 0 <= j < names.len() && i != j implies names[i] != names[j] by {
                if i < j {
                    assert(self.named_buffers@[i].0@ != self.named_buffers@[j].0@);
                } else {
                    assert(self.named_buffers@[j].0@ != self.named_buffers@[i].0@);
                }
            }
            assert forall|name: Seq<char>| #[trigger]
                names.contains(name) <==> self@.named.contains_key(name) by {
                if names.contains(name) {
                    let i = choose|i: int| 0 <= i < names.len() && names[i] == name;
                    assert(self.named_buffers@[i].0@ == name);
                }
                if has_name(self.named_buffers@, name) {
                    assert(names[place_of(self.named_buffers@, name)] == name);
                }
            }
        }
        self.named_buffers.len()
    }

    /// The name at a place in the order of names.
    pub fn name_at(&self, index: usize) -> (name: &str)
        requires
            index < self.names().len(),
        ensures
            name@ == self.names()[index as int],
    {
        self.named_buffers[index].0.as_str()
    }

    /// Takes over the buffer at a place in the order of names and leaves an
    /// empty one.
    pub fn take_named_at(&mut self, index: usize) -> (buffer: OutputBuffer)
        requires
            index < old(self).names().len(),
        ensures
            buffer@ == old(self)@.named[old(self).names()[index as int]],
            buffer.0@ == old(self).named_arrays()[old(self).names()[index as int]],
            final(self)@ == (OutputsModel {
                named: old(self)@.named.insert(old(self).names()[index as int], Seq::empty()),
                ..old(self)@
            }),
            final(self).primary_arrays() == old(self).primary_arrays(),
            final(self).named_arrays() == old(self).named_arrays().insert(
                old(self).names()[index as int],
                Seq::empty(),
            ),
            final(self).names() == old(self).names(),
    {
        proof {
            use_type_invariant(&*self);
        }
        let ghost before = self.named_buffers@;
        let mut buffers: Vec<(String, OutputBuffer)> = Vec::new();
        std::mem::swap(&mut buffers, &mut self.named_buffers);
        let mut buffer = OutputBuffer::default();
        std::mem::swap(&mut buffer, &mut buffers[index].1);
        proof {
            by_name_at(before, index as int);
            by_name_update(before, buffers@, index as int);
            arrays_by_name_update(before, buffers@, index as int);
            assert(buffers@[index as int].1@ =~= Seq::<EventModel>::empty());
            assert(buffers@[index as int].1.0@ =~= Seq::<EventArray>::empty());
        }
        self.named_buffers = buffers;
        assert(self.names() =~= old(self).names());
        buffer
    }

    /// Takes over the buffers of all named outputs and leaves empty ones.
    pub fn take_all_named(&mut self) -> (buffers: Vec<(String, OutputBuffer)>)
        ensures
            distinct_names(buffers@),
            by_name(buffers@) == old(self)@.named,
            arrays_by_name(buffers@) == old(self).named_arrays(),
            final(self)@.primary == old(self)@.primary,
            final(self).primary_arrays() == old(self).primary_arrays(),
            final(self).names() == old(self).names(),
            final(self).named_arrays().dom() == old(self).named_arrays().dom(),
            forall|name: Seq<char>| #[trigger]
                final(self).named_arrays().contains_key(name) ==> final(self).named_arrays()[name].len()
                    == 0,
            final(self)@.named.dom() == old(self)@.named.dom(),
            forall|name: Seq<char>| #[trigger]
                final(self)@.named.contains_key(name) ==> final(self)@.named[name].len() == 0,
    {
        proof {
            use_type_invariant(&*self);
        }
        let mut buffers: Vec<(String, OutputBuffer)> = Vec::new();
        std::mem::swap(&mut buffers, &mut self.named_buffers);
        let mut empty: Vec<(String, OutputBuffer)> = Vec::new();
        let mut i: usize = 0;
        while i < buffers.len()
            invariant
                i <= buffers.len(),
                empty@.len() == i,
                forall|j: int|
                    0 <= j < i ==> (#[trigger] empty@[j]).0@ == buffers@[j].0@ && empty@[j].1@.len()
                        == 0 && empty@[j].1.0@.len() == 0,
            decreases buffers.len() - i,
        {
            empty.push((buffers[i].0.clone(), OutputBuffer::default()));
            i = i + 1;
        }
        proof {
            assert forall|j: int, k: int| 0 <= j < k < empty@.len() implies (#[trigger] empty@[j]).0@
                != (#[trigger] empty@[k]).0@ by {
                assert(buffers@[j].0@ != buffers@[k].0@);
            }
            assert forall|name: Seq<char>| by_name(empty@).dom().contains(name) == by_name(
                buffers@,
            ).dom().contains(name) by {
                if has_name(empty@, name) {
                    let j = place_of(empty@, name);
                    assert(buffers@[j].0@ == name);
                }
                if has_name(buffers@, name) {
                    let j = place_of(buffers@, name);
                    assert(empty@[j].0@ == name);
                }
            }
            assert(by_name(empty@).dom() =~= by_name(buffers@).dom());
            assert(arrays_by_name(empty@).dom() =~= by_name(empty@).dom());
            assert(arrays_by_name(buffers@).dom() =~= by_name(buffers@).dom());
        }
        self.named_buffers = empty;
        assert(self.names() =~= old(self).names());
        buffers
    }
}

/// The place of the buffer with the given name, where there is one.
fn find_name(buffers: &Vec<(String, OutputBuffer)>, name: &str) -> (index: Option<usize>)
    ensures
        match index {
            Some(i) => i < buffers@.len() && buffers@[i as int].0@ == name@,
            None => !has_name(buffers@, name@),
        },
{
    let mut i: usize = 0;
    while i < buffers.len()
        invariant
            i <= buffers.len(),
            forall|j: int| 0 <= j < i ==> (#[trigger] buffers@[j]).0@ != name@,
        decreases buffers.len() - i,
    {
        if same_text(buffers[i].0.as_str(), name) {
            return Some(i);
        }
        i = i + 1;
    }
    None
}

/// `Vec::capacity`: for how many items a vector has room before it has to
/// allocate anew, which is at least as many as it holds.
#[verifier::external_body]
fn vec_capacity(arrays: &Vec<EventArray>) -> (capacity: usize)
    ensures
        capacity >= arrays@.len(),
{
    arrays.capacity()
}

/// Whether two batches hold the same events.
pub open spec fn same_batch(a: EventArray, b: EventArray) -> bool {
    match (a, b) {
        (EventArray::Logs(logs), EventArray::Logs(others)) => logs@ == others@,
        (EventArray::Metrics(metrics), EventArray::Metrics(others)) => metrics@ == others@,
        (EventArray::Traces(traces), EventArray::Traces(others)) => traces@ == others@,
        _ => false,
    }
}

/// Whether a batch is another with one more event of its type.
pub open spec fn longer_by(after: EventArray, before: EventArray, event: Event) -> bool {
    match (after, before, event) {
        (EventArray::Logs(logs), EventArray::Logs(others), Event::Log(log)) => logs@ == others@.push(
            log,
        ),
        (
            EventArray::Metrics(metrics),
            EventArray::Metrics(others),
            Event::Metric(metric),
        ) => metrics@ == others@.push(metric),
        (EventArray::Traces(traces), EventArray::Traces(others), Event::Trace(trace)) => traces@
            == others@.push(trace),
        _ => false,
    }
}

/// Whether a batch holds one event and no other.
pub open spec fn just(array: EventArray, event: Event) -> bool {
    match (array, event) {
        (EventArray::Logs(logs), Event::Log(log)) => logs@ == seq![log],
        (EventArray::Metrics(metrics), Event::Metric(metric)) => metrics@ == seq![metric],
        (EventArray::Traces(traces), Event::Trace(trace)) => traces@ == seq![trace],
        _ => false,
    }
}

/// Batches that stand for the same hold the same events.
proof fn same_views(a: EventArray, b: EventArray)
    ensures
        a@ == b@ ==> same_batch(a, b),
{
    if a@ == b@ {
        assert(a.events() == b.events());
        assert(a.events().len() == b.events().len());
        assert forall|i: int| 0 <= i < a.events().len() implies a.events()[i] == b.events()[i] by {}
        match (a, b) {
            (EventArray::Logs(logs), EventArray::Logs(others)) => {
                assert forall|i: int| 0 <= i < logs@.len() implies logs@[i] == others@[i] by {
                    assert(a.events()[i] == b.events()[i]);
                }
                assert(logs@ =~= others@);
            },
            (EventArray::Metrics(metrics), EventArray::Metrics(others)) => {
                assert forall|i: int| 0 <= i < metrics@.len() implies metrics@[i] == others@[i] by {
                    assert(a.events()[i] == b.events()[i]);
                }
                assert(metrics@ =~= others@);
            },
            (EventArray::Traces(traces), EventArray::Traces(others)) => {
                assert forall|i: int| 0 <= i < traces@.len() implies traces@[i] == others@[i] by {
                    assert(a.events()[i] == b.events()[i]);
                }
                assert(traces@ =~= others@);
            },
            _ => {},
        }
    }
}

/// A batch that stands for another with one more event is that.
proof fn longer_views(after: EventArray, before: EventArray, event: Event)
    requires
        after@.kind == before@.kind,
        before@.kind == kind_of(event),
        after.events() == before.events().push(event),
    ensures
        longer_by(after, before, event),
{
    let list = after.events();
    assert(list.len() == before.events().len() + 1);
    assert(list.last() == event);
    assert forall|i: int| 0 <= i < before.events().len() implies list[i] == before.events()[i] by {}
    match (after, before, event) {
        (EventArray::Logs(logs), EventArray::Logs(others), Event::Log(log)) => {
            assert forall|i: int| 0 <= i < others@.len() implies logs@[i] == others@[i] by {
                assert(list[i] == before.events()[i]);
            }
            assert(list[others@.len() as int] == event);
            assert(logs@ =~= others@.push(log));
        },
        (EventArray::Metrics(metrics), EventArray::Metrics(others), Event::Metric(metric)) => {
            assert forall|i: int| 0 <= i < others@.len() implies metrics@[i] == others@[i] by {
                assert(list[i] == before.events()[i]);
            }
            assert(list[others@.len() as int] == event);
            assert(metrics@ =~= others@.push(metric));
        },
        (EventArray::Traces(traces), EventArray::Traces(others), Event::Trace(trace)) => {
            assert forall|i: int| 0 <= i < others@.len() implies traces@[i] == others@[i] by {
                assert(list[i] == before.events()[i]);
            }
            assert(list[others@.len() as int] == event);
            assert(traces@ =~= others@.push(trace));
        },
        _ => {},
    }
}

/// An event joins the last batch where that is of its type, and else starts one
/// of its own behind the others. The other batches stay.
pub proof fn events_join_the_last_batch(buffer: &mut OutputBuffer, event: Event, i: int)
    requires
        call_ensures(OutputBuffer::push, (buffer, event), ()),
    ensures
        ({
            let before = old(buffer).0@;
            let after = final(buffer).0@;
            let joins = before.len() > 0 && match (before.last(), event) {
                (EventArray::Logs(_), Event::Log(_)) => true,
                (EventArray::Metrics(_), Event::Metric(_)) => true,
                (EventArray::Traces(_), Event::Trace(_)) => true,
                _ => false,
            };
            &&& joins ==> after.len() == before.len() && longer_by(after.last(), before.last(), event)
            &&& !joins ==> after.len() == before.len() + 1 && just(after.last(), event)
            &&& 0 <= i < before.len() && !(joins && i == before.len() - 1) ==> same_batch(
                after[i],
                before[i],
            )
        }),
{
    let before = old(buffer).0@;
    let after = final(buffer).0@;
    let held = batches(before);
    let made = batches(after);
    assert(made == with_event(held, event));
    assert(made.len() == after.len() && held.len() == before.len());
    if before.len() > 0 && before.last()@.kind == kind_of(event) {
        assert(made.last() == after.last()@);
        assert(held.last() == before.last()@);
        longer_views(after.last(), before.last(), event);
        if 0 <= i < before.len() - 1 {
            assert(made[i] == held[i]);
            assert(after[i]@ == before[i]@);
            same_views(after[i], before[i]);
        }
    } else {
        assert(made.last() == after.last()@);
        assert(after.last().events() == seq![event]);
        assert(after.last().events()[0] == event);
        assert(just(after.last(), event)) by {
            match (after.last(), event) {
                (EventArray::Logs(logs), Event::Log(log)) => {
                    assert(logs@ =~= seq![log]);
                },
                (EventArray::Metrics(metrics), Event::Metric(metric)) => {
                    assert(metrics@ =~= seq![metric]);
                },
                (EventArray::Traces(traces), Event::Trace(trace)) => {
                    assert(traces@ =~= seq![trace]);
                },
                _ => {},
            }
        }
        if 0 <= i < before.len() {
            assert(made[i] == held[i]);
            assert(after[i]@ == before[i]@);
            same_views(after[i], before[i]);
        }
    }
}

/// What is pushed to an output is taken out of it, behind what it held, and out
/// of no other.
pub proof fn pushed_events_come_out_of_their_output(
    buf: &mut TransformOutputsBuf,
    name: &str,
    event: Event,
    drained: &mut TransformOutputsBuf,
    other: &str,
    after: Vec<Event>,
    untouched: &mut TransformOutputsBuf,
    before: Vec<Event>,
)
    requires
        call_ensures(TransformOutputsBuf::push, (buf, Some(name), event), ()),
        *old(drained) == *final(buf),
        call_ensures(TransformOutputsBuf::drain_named, (drained, other), after),
        *old(untouched) == *old(buf),
        call_ensures(TransformOutputsBuf::drain_named, (untouched, other), before),
        old(buf)@.named.contains_key(name@),
        old(buf)@.named.contains_key(other@),
    ensures
        other@ == name@ ==> models(after@) == models(before@).push(event@),
        other@ != name@ ==> models(after@) == models(before@),
{
}

/// What is pushed to the default output is taken out of it, behind what it held,
/// and out of no named one.
pub proof fn pushed_events_come_out_by_default(
    buf: &mut TransformOutputsBuf,
    event: Event,
    drained: &mut TransformOutputsBuf,
    after: Vec<Event>,
    untouched: &mut TransformOutputsBuf,
    before: Vec<Event>,
    named: &mut TransformOutputsBuf,
    other: &str,
    under_name: Vec<Event>,
    untouched_named: &mut TransformOutputsBuf,
    under_name_before: Vec<Event>,
)
    requires
        call_ensures(TransformOutputsBuf::push, (buf, None, event), ()),
        *old(drained) == *final(buf),
        call_ensures(TransformOutputsBuf::drain, (drained,), after),
        *old(untouched) == *old(buf),
        call_ensures(TransformOutputsBuf::drain, (untouched,), before),
        *old(named) == *final(buf),
        call_ensures(TransformOutputsBuf::drain_named, (named, other), under_name),
        *old(untouched_named) == *old(buf),
        call_ensures(TransformOutputsBuf::drain_named, (untouched_named, other), under_name_before),
    ensures
        models(after@) == models(before@).push(event@),
        models(under_name@) == models(under_name_before@),
{
}

/// There is an empty buffer for each declared output, and for no other.
pub proof fn buffers_are_made_for_declared_outputs(
    outputs: Vec<TransformOutput>,
    capacity: usize,
    buf: TransformOutputsBuf,
    name: Seq<char>,
)
    requires
        call_ensures(TransformOutputsBuf::new_with_capacity, (outputs, capacity), buf),
    ensures
        buf@.named.contains_key(name) <==> exists|i: int|
            0 <= i < outputs@.len() && (#[trigger] outputs@[i]).port is Some && outputs@[i].port->0@
                == name,
        buf@.primary is Some <==> exists|i: int|
            0 <= i < outputs@.len() && (#[trigger] outputs@[i]).port is None,
        buf@.named.contains_key(name) ==> buf@.named[name].len() == 0,
        buf@.primary is Some ==> buf@.primary->0.len() == 0,
{
    assert(buf@.named.contains_key(name) <==> port_names(outputs@).contains(name));
}

/// What a buffer holds comes out in the order of its batches and of the events
/// in them, and nothing is left.
pub proof fn buffers_are_emptied_in_order(buffer: &mut OutputBuffer, events: Vec<Event>, i: int, j: int)
    requires
        call_ensures(OutputBuffer::drain, (buffer,), events),
    ensures
        final(buffer).0@.len() == 0,
        events@.len() == size_before(old(buffer).0@, old(buffer).0@.len() as int),
        0 <= i < old(buffer).0@.len() && 0 <= j < size_of(old(buffer).0@[i]) ==> 0 <= size_before(
            old(buffer).0@,
            i,
        ) + j < events@.len() && holds_at(
            old(buffer).0@[i],
            j,
            events@[size_before(old(buffer).0@, i) + j],
        ),
{
    let arrays = old(buffer).0@;
    flat_by_size(arrays, arrays.len() as int);
    assert(arrays.take(arrays.len() as int) =~= arrays);
    if 0 <= i < arrays.len() && 0 <= j < size_of(arrays[i]) {
        assert(stands_at(events@, size_before(arrays, i) + j, arrays[i].events()[j]));
    }
}

/// The place of an event among all goes by the batches before its own.
proof fn flat_by_size(arrays: Seq<EventArray>, count: int)
    requires
        0 <= count <= arrays.len(),
    ensures
        flat(arrays.take(count)).len() == size_before(arrays, count),
        forall|i: int, j: int|
            0 <= i < count && 0 <= j < size_of(arrays[i]) ==> #[trigger] stands_at(
                flat(arrays.take(count)),
                size_before(arrays, i) + j,
                arrays[i].events()[j],
            ),
    decreases count,
{
    if count > 0 {
        flat_by_size(arrays, count - 1);
        let before = flat(arrays.take(count - 1));
        assert(arrays.take(count).drop_last() =~= arrays.take(count - 1));
        assert(flat(arrays.take(count)) == before + arrays[count - 1].events());
        assert(arrays[count - 1].events().len() == size_of(arrays[count - 1]));
        assert forall|i: int, j: int|
            0 <= i < count && 0 <= j < size_of(arrays[i]) implies #[trigger] stands_at(
            flat(arrays.take(count)),
            size_before(arrays, i) + j,
            arrays[i].events()[j],
        ) by {
            if i < count - 1 {
                assert(stands_at(before, size_before(arrays, i) + j, arrays[i].events()[j]));
            }
        }
    }
}

/// Counted are all events of all batches.
pub proof fn all_events_are_counted(buffer: &OutputBuffer, total: u128, empty: bool)
    requires
        call_ensures(OutputBuffer::total, (buffer,), total),
        call_ensures(OutputBuffer::is_empty, (buffer,), empty),
    ensures
        total == size_before(buffer.0@, buffer.0@.len() as int),
        empty <==> total == 0,
{
    let arrays = buffer.0@;
    flat_by_size(arrays, arrays.len() as int);
    assert(arrays.take(arrays.len() as int) =~= arrays);
}

} // verus!
