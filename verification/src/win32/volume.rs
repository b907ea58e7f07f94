//! Walking the mounted volumes of the machine.
//!
//! The enumerator makes no system call itself. Before each step it names the
//! call it needs ([`Volume::call`]); the caller makes that call and hands the
//! answer to [`Volume::next`], which decides what the step yields, where the
//! enumeration stands afterwards and whether the search handle is to be
//! closed.

use crate::win32::encoding::{
    decode_utf16le, is_leading_surrogate, lemma_units_of_their_bytes, units_to_le_bytes,
    utf16_text,
};
use vstd::prelude::*;
use vstd::slice::slice_subrange;

verus! {

/// The handle value with which the system refuses to open a search.
pub const INVALID_HANDLE: isize = -1;

/// The error code with which the system says that the last volume was given.
pub const NO_MORE_FILES: u32 = 18;

/// The usual capacity of the name buffer, in UTF-16 code units.
pub const DEFAULT_CAPACITY: usize = 64;

/// Where an enumeration stands.
#[derive(Clone, Copy, Debug, PartialEq, Eq, Structural)]
pub enum Phase {
    /// No search has been opened yet.
    Unstarted,
    /// A search is open under this handle, and more volumes may follow.
    Active(isize),
    /// The search is over and its handle, if there was one, given back.
    Exhausted,
}

/// The system call that a step needs.
#[derive(Clone, Copy, Debug, PartialEq, Eq, Structural)]
pub enum VolumeCall {
    /// Open a search, with a name buffer of `capacity` code units.
    FindFirst { capacity: usize },
    /// Continue the search under `handle`, with a cleared name buffer of
    /// `capacity` code units.
    FindNext { handle: isize, capacity: usize },
    /// None: the enumeration is over.
    Nothing,
}

/// What the system answered.
#[derive(Debug)]
pub enum VolumeReply {
    /// Opening the search returned `handle` and left `name` in the buffer.
    First { handle: isize, name: Vec<u16> },
    /// Continuing the search returned `status` and left `name` in the
    /// buffer; `error` is the error code read after a zero status.
    Next { status: i32, error: u32, name: Vec<u16> },
}

/// What one step of the enumeration comes to.
#[derive(Debug)]
pub struct Step {
    /// The volume path that the step yields, if any.
    pub item: Option<String>,
    /// The handle that the caller has to close now, if any.
    pub release: Option<isize>,
    /// Whether the system refused the call for another reason than the end
    /// of the list.
    pub failed: bool,
}

/// Where the name in a buffer ends: the place of its first NUL, or the
/// length of a buffer that holds none.
pub open spec fn name_end(units: Seq<u16>) -> int
    decreases units.len(),
{
    if units.len() == 0 || units[0] == 0 {
        0
    } else {
        1 + name_end(units.skip(1))
    }
}

/// The code units of the name in a buffer: those before its first NUL.
/// What stands after that NUL is no part of the name.
pub open spec fn name_units(units: Seq<u16>) -> Seq<u16> {
    units.take(name_end(units))
}

/// The path in a name buffer: the text that the code units of its name
/// spell. `None` where they are not well-formed UTF-16.
pub open spec fn name_text(units: Seq<u16>) -> Option<Seq<char>> {
    utf16_text(name_units(units))
}

/// A phase is sound when an open search never runs under the refused handle.
pub open spec fn phase_sound(phase: Phase) -> bool {
    phase matches Phase::Active(handle) ==> handle != INVALID_HANDLE
}

/// The call that a step from `phase` needs.
pub open spec fn call_of(phase: Phase, capacity: usize) -> VolumeCall {
    match phase {
        Phase::Unstarted => VolumeCall::FindFirst { capacity },
        Phase::Active(handle) => VolumeCall::FindNext { handle, capacity },
        Phase::Exhausted => VolumeCall::Nothing,
    }
}

/// Where the enumeration stands after a step from `phase` on `reply`.
/// A refused search ends the enumeration for good, and so does any zero
/// status of a continued search. A reply to a call that was not asked for
/// changes nothing.
pub open spec fn phase_after(phase: Phase, reply: VolumeReply) -> Phase {
    match (phase, reply) {
        (Phase::Unstarted, VolumeReply::First { handle, .. }) => if handle == INVALID_HANDLE {
            Phase::Exhausted
        } else {
            Phase::Active(handle)
        },
        (Phase::Active(handle), VolumeReply::Next { status, .. }) => if status != 0 {
            Phase::Active(handle)
        } else {
            Phase::Exhausted
        },
        _ => phase,
    }
}

/// The path that a step from `phase` on `reply` yields.
pub open spec fn item_of(phase: Phase, reply: VolumeReply) -> Option<Seq<char>> {
    match (phase, reply) {
        (Phase::Unstarted, VolumeReply::First { handle, name }) => if handle == INVALID_HANDLE {
            None
        } else {
            name_text(name@)
        },
        (Phase::Active(_), VolumeReply::Next { status, name, .. }) => if status != 0 {
            name_text(name@)
        } else {
            None
        },
        _ => None,
    }
}

/// The handle that a step from `phase` on `reply` gives back to be closed.
pub open spec fn release_of(phase: Phase, reply: VolumeReply) -> Option<isize> {
    match (phase, reply) {
        (Phase::Active(handle), VolumeReply::Next { status, .. }) => if status == 0 {
            Some(handle)
        } else {
            None
        },
        _ => None,
    }
}

/// Whether a step from `phase` on `reply` meets a refusal of the system that
/// is not the end of the list.
pub open spec fn failure_of(phase: Phase, reply: VolumeReply) -> bool {
    match (phase, reply) {
        (Phase::Unstarted, VolumeReply::First { handle, .. }) => handle == INVALID_HANDLE,
        (Phase::Active(_), VolumeReply::Next { status, error, .. }) => status == 0 && error
            != NO_MORE_FILES,
        _ => false,
    }
}

/// The handle of the search that is open in `phase`, if one is.
pub open spec fn held_by(phase: Phase) -> Option<isize> {
    match phase {
        Phase::Active(handle) => Some(handle),
        _ => None,
    }
}

/// What can happen to an enumeration: a step on a reply of the system, or
/// its closing.
pub enum Event {
    Reply(VolumeReply),
    Close,
}

/// Where the enumeration stands after `event`.
pub open spec fn phase_past(phase: Phase, event: Event) -> Phase {
    match event {
        Event::Reply(reply) => phase_after(phase, reply),
        Event::Close => Phase::Exhausted,
    }
}

/// The handle that `event` gives back to be closed.
pub open spec fn released_by(phase: Phase, event: Event) -> Option<isize> {
    match event {
        Event::Reply(reply) => release_of(phase, reply),
        Event::Close => held_by(phase),
    }
}

/// The name in a buffer ends at `end` when no unit before `end` is NUL
/// and `end` is the length of the buffer or the place of a NUL.
pub proof fn lemma_name_end(units: Seq<u16>, end: int)
    requires
        0 <= end <= units.len(),
        forall|k: int| 0 <= k < end ==> units[k] != 0,
        end < units.len() ==> units[end] == 0,
    ensures
        name_end(units) == end,
    decreases end,
{
    if end > 0 {
        let rest = units.skip(1);
        assert forall|k: int| 0 <= k < end - 1 implies rest[k] != 0 by {
            assert(rest[k] == units[k + 1]);
        }
        lemma_name_end(rest, end - 1);
    }
}

/// What follows the NUL that ends a name is no part of it: a name without
/// a NUL, a NUL and any units after it hold that name and its text.
pub proof fn lemma_name_stops_at_nul(name: Seq<u16>, stale: Seq<u16>)
    requires
        forall|k: int| 0 <= k < name.len() ==> name[k] != 0,
    ensures
        name_units(name.push(0) + stale) == name,
        name_text(name.push(0) + stale) == utf16_text(name),
        name_units(name) == name,
{
    let buffer = name.push(0) + stale;
    assert forall|k: int| 0 <= k < name.len() implies buffer[k] != 0 by {
        assert(buffer[k] == name[k]);
    }
    assert(buffer[name.len() as int] == 0);
    lemma_name_end(buffer, name.len() as int);
    assert(buffer.take(name.len() as int) =~= name);
    lemma_name_end(name, name.len() as int);
    assert(name.take(name.len() as int) =~= name);
}

/// No text of UTF-16 code units without a NUL holds a NUL character.
proof fn lemma_text_without_nul(units: Seq<u16>)
    requires
        forall|k: int| 0 <= k < units.len() ==> units[k] != 0,
    ensures
        utf16_text(units) matches Some(text) ==> forall|i: int|
            0 <= i < text.len() ==> text[i] != '\0',
    decreases units.len(),
{
    if units.len() > 0 && utf16_text(units) is Some {
        let step: int = if is_leading_surrogate(units[0]) {
            2
        } else {
            1
        };
        let rest = units.skip(step);
        assert forall|k: int| 0 <= k < rest.len() implies rest[k] != 0 by {
            assert(rest[k] == units[k + step]);
        }
        lemma_text_without_nul(rest);
    }
}

/// The path in a name buffer holds no NUL character.
pub proof fn lemma_name_has_no_nul(units: Seq<u16>)
    ensures
        name_text(units) matches Some(text) ==> forall|i: int|
            0 <= i < text.len() ==> text[i] != '\0',
{
    lemma_name_bounds(units);
    lemma_text_without_nul(name_units(units));
}

/// The name in a buffer ends within the buffer, at the first NUL if there
/// is one, and holds no NUL itself.
pub proof fn lemma_name_bounds(units: Seq<u16>)
    ensures
        0 <= name_end(units) <= units.len(),
        name_end(units) < units.len() ==> units[name_end(units)] == 0,
        forall|k: int| 0 <= k < name_units(units).len() ==> name_units(units)[k] != 0,
    decreases units.len(),
{
    if units.len() > 0 && units[0] != 0 {
        let rest = units.skip(1);
        lemma_name_bounds(rest);
        assert(name_end(units) < units.len() ==> units[name_end(units)] == rest[name_end(rest)]);
        assert forall|k: int| 0 <= k < name_units(units).len() implies name_units(units)[k]
            != 0 by {
            if k > 0 {
                assert(name_units(units)[k] == name_units(rest)[k - 1]);
            }
        }
    }
}

/// The path that a name buffer holds: the text before its first NUL.
pub fn decode_volume_name(name: &[u16]) -> (text: Option<String>)
    ensures
        text is Some <==> name_text(name@) is Some,
        text matches Some(t) ==> name_text(name@) == Some(t@),
{
    let mut end: usize = 0;
    while end < name.len() && name[end] != 0
        invariant
            end <= name@.len(),
            forall|k: int| 0 <= k < end ==> name@[k] != 0,
        decreases name@.len() - end,
    {
        end += 1;
    }
    let units = slice_subrange(name, 0, end);
    proof {
        lemma_name_end(name@, end as int);
        assert(units@ =~= name_units(name@));
        lemma_units_of_their_bytes(units@);
    }
    let bytes = units_to_le_bytes(units);
    decode_utf16le(bytes.as_slice())
}

/// An enumeration of the mounted volumes, with a name buffer of `N` UTF-16
/// code units.
#[derive(Debug)]
pub struct Volume<const N: usize> {
    phase: Phase,
}

impl<const N: usize> Volume<N> {
    /// Where the enumeration stands.
    pub closed spec fn phase(&self) -> Phase {
        self.phase
    }

    /// An enumeration that has not started.
    pub fn new() -> (volume: Self)
        ensures
            volume.phase() == Phase::Unstarted,
    {
        Volume { phase: Phase::Unstarted }
    }

    /// The system call that the next step needs. An enumeration that is
    /// over needs none.
    pub fn call(&self) -> (call: VolumeCall)
        ensures
            call == call_of(self.phase(), N),
    {
        match self.phase {
            Phase::Unstarted => VolumeCall::FindFirst { capacity: N },
            Phase::Active(handle) => VolumeCall::FindNext { handle, capacity: N },
            Phase::Exhausted => VolumeCall::Nothing,
        }
    }

    /// One step of the enumeration, on the system's answer to the call that
    /// [`Volume::call`] named.
    ///
    /// An opened search yields its first path and stays open. A continued
    /// search yields the next path, or ends on a zero status: the handle is
    /// then given back to be closed and nothing is yielded from then on.
    /// A name that is not well-formed UTF-16 yields nothing and leaves the
    /// search open.
    pub fn next(&mut self, reply: &VolumeReply) -> (step: Step)
        ensures
            final(self).phase() == phase_after(old(self).phase(), *reply),
            step.item is Some <==> item_of(old(self).phase(), *reply) is Some,
            step.item matches Some(path) ==> item_of(old(self).phase(), *reply) == Some(path@),
            step.release == release_of(old(self).phase(), *reply),
            step.failed == failure_of(old(self).phase(), *reply),
    {
        match self.phase {
            Phase::Unstarted => match reply {
                VolumeReply::First { handle, name } => {
                    if *handle == INVALID_HANDLE {
                        self.phase = Phase::Exhausted;
                        Step { item: None, release: None, failed: true }
                    } else {
                        self.phase = Phase::Active(*handle);
                        Step { item: decode_volume_name(name.as_slice()), release: None, failed: false }
                    }
                },
                VolumeReply::Next { .. } => Step { item: None, release: None, failed: false },
            },
            Phase::Active(held) => match reply {
                VolumeReply::Next { status, error, name } => {
                    if *status != 0 {
                        Step { item: decode_volume_name(name.as_slice()), release: None, failed: false }
                    } else {
                        self.phase = Phase::Exhausted;
                        Step { item: None, release: Some(held), failed: *error != NO_MORE_FILES }
                    }
                },
                VolumeReply::First { .. } => Step { item: None, release: None, failed: false },
            },
            Phase::Exhausted => Step { item: None, release: None, failed: false },
        }
    }

    /// Ends the enumeration before its time: the handle of an open search
    /// is given back to be closed, and nothing is yielded from then on.
    pub fn close(&mut self) -> (release: Option<isize>)
        ensures
            final(self).phase() == Phase::Exhausted,
            release == held_by(old(self).phase()),
    {
        let release = match self.phase {
            Phase::Active(handle) => Some(handle),
            _ => None,
        };
        self.phase = Phase::Exhausted;
        release
    }
}

impl<const N: usize> Default for Volume<N> {
    fn default() -> (volume: Self)
        ensures
            volume.phase() == Phase::Unstarted,
    {
        Volume::new()
    }
}

/// Where the enumeration stands after a run of events from `phase`.
pub open spec fn phase_after_all(phase: Phase, events: Seq<Event>) -> Phase
    decreases events.len(),
{
    if events.len() == 0 {
        phase
    } else {
        phase_past(phase_after_all(phase, events.drop_last()), events.last())
    }
}

/// How many handles a run of events from `phase` gives back to be closed.
pub open spec fn releases(phase: Phase, events: Seq<Event>) -> nat
    decreases events.len(),
{
    if events.len() == 0 {
        0
    } else {
        let before = phase_after_all(phase, events.drop_last());
        let now: nat = if released_by(before, events.last()) is Some {
            1
        } else {
            0
        };
        releases(phase, events.drop_last()) + now
    }
}

/// The paths that a run of events from `phase` yields, in their order.
pub open spec fn items(phase: Phase, events: Seq<Event>) -> Seq<Seq<char>>
    decreases events.len(),
{
    if events.len() == 0 {
        Seq::empty()
    } else {
        let before = phase_after_all(phase, events.drop_last());
        let earlier = items(phase, events.drop_last());
        match events.last() {
            Event::Reply(reply) => match item_of(before, reply) {
                Some(path) => earlier.push(path),
                None => earlier,
            },
            Event::Close => earlier,
        }
    }
}

/// The name buffer that an event brings.
pub open spec fn event_name(event: Event) -> Seq<u16> {
    match event {
        Event::Reply(VolumeReply::First { name, .. }) => name@,
        Event::Reply(VolumeReply::Next { name, .. }) => name@,
        Event::Close => Seq::empty(),
    }
}

/// Whether an event is the opening of a search under `handle`.
pub open spec fn opens(event: Event, handle: isize) -> bool {
    event matches Event::Reply(VolumeReply::First { handle: opened, .. }) && opened == handle
}

/// Whether an event is a continued search with a status that is zero, or
/// with one that is not.
pub open spec fn continues(event: Event, zero: bool) -> bool {
    event matches Event::Reply(VolumeReply::Next { status, .. }) && (status == 0) == zero
}

/// A walk over all volumes: a search opened under a handle that is not the
/// refused one, any number of continued searches with a status that is not
/// zero, each name well-formed, and at last a zero status.
pub open spec fn is_walk(events: Seq<Event>, handle: isize) -> bool {
    &&& events.len() >= 2
    &&& handle != INVALID_HANDLE
    &&& opens(events[0], handle)
    &&& forall|i: int| 0 < i < events.len() - 1 ==> continues(#[trigger] events[i], false)
    &&& continues(events.last(), true)
    &&& forall|i: int|
        0 <= i < events.len() - 1 ==> name_text(event_name(#[trigger] events[i])) is Some
}

/// After the first `n` events of a walk the search is open under the
/// handle of the walk, no handle was given back, and each event has
/// yielded the path in its buffer.
proof fn lemma_walk_so_far(events: Seq<Event>, handle: isize, n: int)
    requires
        is_walk(events, handle),
        1 <= n <= events.len() - 1,
    ensures
        phase_after_all(Phase::Unstarted, events.take(n)) == Phase::Active(handle),
        releases(Phase::Unstarted, events.take(n)) == 0,
        items(Phase::Unstarted, events.take(n)).len() == n,
        forall|i: int|
            0 <= i < n ==> items(Phase::Unstarted, events.take(n))[i] == name_text(
                event_name(#[trigger] events[i]),
            ).unwrap(),
    decreases n,
{
    let start = Phase::Unstarted;
    let now = events.take(n);
    let before = events.take(n - 1);
    let event = events[n - 1];
    assert(now.drop_last() =~= before);
    assert(now.last() == event);
    assert(name_text(event_name(event)) is Some);
    if n == 1 {
        assert(before.len() == 0);
        assert(phase_after_all(start, before) == start);
        assert(releases(start, before) == 0);
        assert(items(start, before) =~= Seq::<Seq<char>>::empty());
        assert(opens(event, handle));
    } else {
        lemma_walk_so_far(events, handle, n - 1);
        assert(continues(event, false));
    }
    let held = phase_after_all(start, before);
    assert(phase_after_all(start, now) == phase_past(held, event));
    assert(released_by(held, event) is None);
    assert(releases(start, now) == releases(start, before));
    let path = name_text(event_name(event)).unwrap();
    assert(items(start, now) == items(start, before).push(path));
}

/// A walk over all volumes yields the path of every buffer but the last,
/// in their order, then ends the enumeration and gives the handle of the
/// search back, once.
pub proof fn lemma_walk_yields_every_volume(events: Seq<Event>, handle: isize)
    requires
        is_walk(events, handle),
    ensures
        phase_after_all(Phase::Unstarted, events) == Phase::Exhausted,
        releases(Phase::Unstarted, events) == 1,
        released_by(phase_after_all(Phase::Unstarted, events.drop_last()), events.last()) == Some(
            handle,
        ),
        items(Phase::Unstarted, events).len() == events.len() - 1,
        forall|i: int|
            0 <= i < events.len() - 1 ==> items(Phase::Unstarted, events)[i] == name_text(
                event_name(#[trigger] events[i]),
            ).unwrap(),
{
    let start = Phase::Unstarted;
    let n = events.len() - 1;
    lemma_walk_so_far(events, handle, n);
    assert(events.drop_last() =~= events.take(n));
    assert(continues(events.last(), true));
    assert(phase_after_all(start, events) == phase_past(
        phase_after_all(start, events.drop_last()),
        events.last(),
    ));
    assert(items(start, events) == items(start, events.drop_last()));
}

/// How many handles an enumeration in `phase` can still give back.
spec fn owed(phase: Phase) -> nat {
    if phase is Exhausted {
        0
    } else {
        1
    }
}

/// A run of events gives back no more handles than its start still owes,
/// less what its end still owes.
proof fn lemma_releases_bounded(phase: Phase, events: Seq<Event>)
    ensures
        releases(phase, events) + owed(phase_after_all(phase, events)) <= owed(phase),
    decreases events.len(),
{
    if events.len() > 0 {
        lemma_releases_bounded(phase, events.drop_last());
    }
}

/// Exhaustion is final: an exhausted enumeration asks for no system call,
/// and whatever happens to it, it yields nothing, gives no handle back and
/// stays exhausted.
pub proof fn lemma_exhaustion_is_sticky(event: Event, capacity: usize)
    ensures
        call_of(Phase::Exhausted, capacity) == VolumeCall::Nothing,
        phase_past(Phase::Exhausted, event) == Phase::Exhausted,
        released_by(Phase::Exhausted, event) is None,
        event matches Event::Reply(reply) ==> item_of(Phase::Exhausted, reply) is None
            && !failure_of(Phase::Exhausted, reply),
{
}

/// Once a run of events has reached exhaustion, every longer run ends
/// there too, and gives back no further handle.
pub proof fn lemma_exhaustion_lasts(phase: Phase, events: Seq<Event>, more: Seq<Event>)
    requires
        phase_after_all(phase, events) == Phase::Exhausted,
    ensures
        phase_after_all(phase, events + more) == Phase::Exhausted,
        releases(phase, events + more) == releases(phase, events),
    decreases more.len(),
{
    if more.len() == 0 {
        assert(events + more =~= events);
    } else {
        lemma_exhaustion_lasts(phase, events, more.drop_last());
        assert((events + more).drop_last() =~= events + more.drop_last());
        assert((events + more).last() == more.last());
    }
}

/// A zero status on a continued search is the end: the enumeration is
/// exhausted, the step yields nothing, and the handle of the search, no
/// other, is given back. Only the error code of the end of the list is no
/// failure.
pub proof fn lemma_end_of_list_exhausts(handle: isize, error: u32, name: Vec<u16>)
    ensures
        ({
            let reply = VolumeReply::Next { status: 0, error, name };
            &&& phase_after(Phase::Active(handle), reply) == Phase::Exhausted
            &&& item_of(Phase::Active(handle), reply) is None
            &&& release_of(Phase::Active(handle), reply) == Some(handle)
            &&& failure_of(Phase::Active(handle), reply) == (error != NO_MORE_FILES)
        }),
{
}

/// Over the whole life of an enumeration, whatever the system answers and
/// whenever it is closed, at most one handle is given back.
pub proof fn lemma_released_at_most_once(events: Seq<Event>)
    ensures
        releases(Phase::Unstarted, events) <= 1,
{
    lemma_releases_bounded(Phase::Unstarted, events);
}

/// A handle is given back only by an enumeration that holds it, and the
/// enumeration is exhausted from then on.
pub proof fn lemma_release_ends_the_search(phase: Phase, event: Event)
    requires
        released_by(phase, event) is Some,
    ensures
        released_by(phase, event) == held_by(phase),
        phase_past(phase, event) == Phase::Exhausted,
{
}

/// An enumeration never holds the refused handle as that of an open
/// search, whatever the system answers.
pub proof fn lemma_phase_stays_sound(events: Seq<Event>)
    ensures
        phase_sound(phase_after_all(Phase::Unstarted, events)),
    decreases events.len(),
{
    if events.len() > 0 {
        lemma_phase_stays_sound(events.drop_last());
    }
}

} // verus!
