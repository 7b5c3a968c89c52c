//! The open connections of a socket worker.

use slotmap::{DefaultKey, DenseSlotMap, Key, KeyData};

use vstd::prelude::*;

use crate::common::ValidUntil;
use crate::config::Config;

verus! {

/// A `slotmap::DenseSlotMap`, which gives each value that it holds a key of its
/// own.
#[verifier::external_body]
pub struct ConnectionSlots {
    map: DenseSlotMap<DefaultKey, ValidUntil>,
}

/// The values in a slot map by the numbers of their keys.
pub uninterp spec fn slots_of(slots: ConnectionSlots) -> Map<u64, ValidUntil>;

/// Whether a number is that of a key: the upper half is odd.
pub open spec fn is_key_number(number: u64) -> bool {
    (number / 0x1_0000_0000) % 2 == 1
}

/// Calls `DenseSlotMap::with_key`, which makes a slot map without values.
#[verifier::external_body]
fn new_slots() -> (slots: ConnectionSlots)
    ensures
        slots_of(slots).dom() == Set::<u64>::empty(),
{
    ConnectionSlots { map: DenseSlotMap::with_key() }
}

/// Calls `DenseSlotMap::len`, which gives the number of values.
#[verifier::external_body]
fn count_slots(slots: &ConnectionSlots) -> (count: usize)
    ensures
        count == slots_of(*slots).dom().len(),
{
    slots.map.len()
}

/// Calls `DenseSlotMap::insert`, which adds a value and gives its key, one that
/// no other value in the slot map has. It panics where there is no free key left.
#[verifier::external_body]
fn insert_slot(slots: &mut ConnectionSlots, value: ValidUntil) -> (number: u64)
    requires
        slots_of(*old(slots)).dom().len() < 0xffff_fffe,
    ensures
        is_key_number(number),
        !slots_of(*old(slots)).contains_key(number),
        slots_of(*final(slots)) == slots_of(*old(slots)).insert(number, value),
{
    slots.map.insert(value).data().as_ffi()
}

/// Calls `DenseSlotMap::remove`, which takes out the value at a key, if there is one.
#[verifier::external_body]
fn remove_slot(slots: &mut ConnectionSlots, number: u64) -> (value: Option<
    ValidUntil,
>)
    requires
        is_key_number(number),
    ensures
        value == if slots_of(*old(slots)).contains_key(number) {
            Some(slots_of(*old(slots))[number])
        } else {
            None
        },
        slots_of(*final(slots)) == slots_of(*old(slots)).remove(number),
{
    slots.map.remove(KeyData::from_ffi(number).into())
}

/// Calls `DenseSlotMap::get_mut`, which gives access to the value at a key, if
/// there is one, and sets that value.
#[verifier::external_body]
fn set_slot(
    slots: &mut ConnectionSlots,
    number: u64,
    value: ValidUntil,
) -> (found: bool)
    requires
        is_key_number(number),
    ensures
        found == slots_of(*old(slots)).contains_key(number),
        slots_of(*final(slots)) == if found {
            slots_of(*old(slots)).insert(number, value)
        } else {
            slots_of(*old(slots))
        },
{
    slots.map.get_mut(KeyData::from_ffi(number).into()).map(|slot| *slot = value).is_some()
}

/// Calls `DenseSlotMap::iter`, which goes through the keys and values, each once.
#[verifier::external_body]
fn list_slots(slots: &ConnectionSlots) -> (entries: Vec<(u64, ValidUntil)>)
    ensures
        forall|i: int|
            0 <= i < entries@.len() ==> slots_of(*slots).contains_key((#[trigger] entries@[i]).0)
                && slots_of(*slots)[entries@[i].0] == entries@[i].1 && is_key_number(entries@[i].0),
        forall|i: int, j: int|
            0 <= i < j < entries@.len() ==> (#[trigger] entries@[i]).0 != (#[trigger] entries@[j]).0,
        forall|number: u64| #[trigger]
            slots_of(*slots).contains_key(number) ==> exists|i: int|
                0 <= i < entries@.len() && (#[trigger] entries@[i]).0 == number,
{
    slots.map.iter().map(|(key, value)| (key.data().as_ffi(), *value)).collect()
}

/// Calls `DenseSlotMap::retain`, which keeps the values for which a condition
/// holds, here that they are valid at `now`, and takes out the others.
#[verifier::external_body]
fn retain_valid_slots(slots: &mut ConnectionSlots, now: u32)
    ensures
        forall|number: u64| #[trigger]
            slots_of(*final(slots)).contains_key(number) <==> slots_of(*old(slots)).contains_key(
                number,
            ) && slots_of(*old(slots))[number]@ > now,
        forall|number: u64| #[trigger]
            slots_of(*final(slots)).contains_key(number) ==> slots_of(*final(slots))[number]
                == slots_of(*old(slots))[number],
{
    slots.map.retain(|_, value| value.valid(now))
}

/// Identifies an open connection.
#[derive(Clone, Copy, Debug, PartialEq, Eq, Hash)]
pub struct ConnectionId(u64);

impl View for ConnectionId {
    type V = u64;

    closed spec fn view(&self) -> u64 {
        self.0
    }
}

impl ConnectionId {
    #[verifier::type_invariant]
    spec fn stands_for_key(self) -> bool {
        is_key_number(self.0)
    }
}

/// The open connections, each with the second until which it may be idle.
pub struct ConnectionTable {
    slots: ConnectionSlots,
}

impl View for ConnectionTable {
    type V = Map<u64, ValidUntil>;

    closed spec fn view(&self) -> Map<u64, ValidUntil> {
        slots_of(self.slots)
    }
}

/// What comes of a cleaning.
#[derive(Debug, PartialEq, Eq)]
pub struct Cleaning {
    /// The connections that are to be closed.
    pub closed: Vec<ConnectionId>,
    /// The time until the next cleaning.
    pub seconds_until_next: u64,
}

/// The number of connections that can be open at a time.
pub const MAX_CONNECTIONS: usize = 0xffff_fffe;

/// The connections that are still valid at `now`.
pub open spec fn valid_connections(connections: Map<u64, ValidUntil>, now: u32) -> Map<
    u64,
    ValidUntil,
> {
    connections.restrict(Set::new(|id: u64| connections.contains_key(id) && connections[id]@ > now))
}

/// What happens to the open connections.
pub enum TableStep {
    /// A connection is accepted and may be idle until a second.
    Accept(u64, ValidUntil),
    /// A request arrives on a connection, which may then be idle until a second, if
    /// the clock gives one.
    Refresh(u64, Option<ValidUntil>),
    /// A connection is closed.
    Remove(u64),
    /// The connections that have been idle for too long are closed, if the clock gives
    /// a time.
    Clean(Option<u32>),
}

/// The open connections after a step.
pub open spec fn next_connections(connections: Map<u64, ValidUntil>, step: TableStep) -> Map<
    u64,
    ValidUntil,
> {
    match step {
        TableStep::Accept(id, valid_until) => connections.insert(id, valid_until),
        TableStep::Refresh(id, Some(valid_until)) if connections.contains_key(
            id,
        ) => connections.insert(id, valid_until),
        TableStep::Refresh(_, _) => connections,
        TableStep::Remove(id) => connections.remove(id),
        TableStep::Clean(Some(now)) => valid_connections(connections, now),
        TableStep::Clean(None) => connections,
    }
}

/// The open connections after steps, one after another.
pub open spec fn connections_after(
    connections: Map<u64, ValidUntil>,
    steps: Seq<TableStep>,
) -> Map<u64, ValidUntil>
    decreases steps.len(),
{
    if steps.len() == 0 {
        connections
    } else {
        next_connections(connections_after(connections, steps.drop_last()), steps.last())
    }
}

impl ConnectionTable {
    pub fn new() -> (table: Self)
        ensures
            table@ == Map::<u64, ValidUntil>::empty(),
    {
        let table = ConnectionTable { slots: new_slots() };
        assert(table@ =~= Map::<u64, ValidUntil>::empty());
        table
    }

    /// The number of open connections.
    pub fn len(&self) -> (count: usize)
        ensures
            count == self@.dom().len(),
    {
        count_slots(&self.slots)
    }

    /// Takes in a connection that was accepted. Where the clock gives no time
    /// until which it is valid, it is not established.
    pub fn accept(&mut self, opt_valid_until: Option<ValidUntil>) -> (result: Option<ConnectionId>)
        requires
            old(self)@.dom().len() < MAX_CONNECTIONS,
        ensures
            match (opt_valid_until, result) {
                (Some(valid_until), Some(id)) => {
                    &&& !old(self)@.contains_key(id@)
                    &&& final(self)@ == old(self)@.insert(id@, valid_until)
                    &&& final(self)@ == next_connections(
                        old(self)@,
                        TableStep::Accept(id@, valid_until),
                    )
                },
                (None, None) => final(self)@ == old(self)@,
                _ => false,
            },
    {
        match opt_valid_until {
            Some(valid_until) => Some(ConnectionId(insert_slot(&mut self.slots, valid_until))),
            None => None,
        }
    }

    /// Takes note of a request on a connection. Where the clock gives no time
    /// until which the connection is then valid, nothing changes and `false` is
    /// given.
    pub fn refresh(&mut self, id: ConnectionId, opt_valid_until: Option<ValidUntil>) -> (updated:
        bool)
        ensures
            updated == opt_valid_until is Some,
            final(self)@ == next_connections(old(self)@, TableStep::Refresh(id@, opt_valid_until)),
            final(self)@ == match opt_valid_until {
                Some(valid_until) if old(self)@.contains_key(id@) => old(self)@.insert(
                    id@,
                    valid_until,
                ),
                _ => old(self)@,
            },
    {
        proof {
            use_type_invariant(&id);
        }
        match opt_valid_until {
            Some(valid_until) => {
                set_slot(&mut self.slots, id.0, valid_until);
                true
            },
            None => false,
        }
    }

    /// Takes out a connection that was closed.
    pub fn remove(&mut self, id: ConnectionId)
        ensures
            final(self)@ == old(self)@.remove(id@),
            final(self)@ == next_connections(old(self)@, TableStep::Remove(id@)),
    {
        proof {
            use_type_invariant(&id);
        }
        remove_slot(&mut self.slots, id.0);
    }

    /// Takes out the connections that are no longer valid at `now`, if the clock
    /// gives a time, and gives them: they are to be closed. The next cleaning is due
    /// after the configured interval, whether or not the clock gives a time.
    pub fn clean_connections(&mut self, config: &Config, now: Option<u32>) -> (cleaning: Cleaning)
        ensures
            cleaning.seconds_until_next == config.cleaning.connection_cleaning_interval,
            final(self)@ == next_connections(old(self)@, TableStep::Clean(now)),
            match now {
                Some(now) => {
                    let closed = cleaning.closed;
                    &&& final(self)@ == valid_connections(old(self)@, now)
                    &&& forall|i: int|
                        0 <= i < closed@.len() ==> old(self)@.contains_key((#[trigger] closed@[i])@)
                            && old(self)@[closed@[i]@]@ <= now
                    &&& forall|i: int, j: int|
                        0 <= i < j < closed@.len() ==> (#[trigger] closed@[i])@ != (
                        #[trigger] closed@[j])@
                    &&& forall|id: u64| #[trigger]
                        old(self)@.contains_key(id) && old(self)@[id]@ <= now ==> exists|i: int|
                            0 <= i < closed@.len() && (#[trigger] closed@[i])@ == id
                },
                None => final(self)@ == old(self)@ && cleaning.closed@.len() == 0,
            },
    {
        let seconds_until_next = config.cleaning.connection_cleaning_interval;
        let mut closed: Vec<ConnectionId> = Vec::new();
        let now = match now {
            Some(now) => now,
            None => {
                return Cleaning { closed, seconds_until_next };
            },
        };
        let entries = list_slots(&self.slots);
        let mut i: usize = 0;
        while i < entries.len()
            invariant
                self@ == old(self)@,
                i <= entries.len(),
                forall|k: int|
                    0 <= k < entries@.len() ==> self@.contains_key((#[trigger] entries@[k]).0)
                        && self@[entries@[k].0] == entries@[k].1 && is_key_number(entries@[k].0),
                forall|k: int, j: int|
                    0 <= k < j < entries@.len() ==> (#[trigger] entries@[k]).0 != (
                    #[trigger] entries@[j]).0,
                forall|k: int|
                    0 <= k < closed@.len() ==> self@.contains_key((#[trigger] closed@[k])@)
                        && self@[closed@[k]@]@ <= now,
                forall|k: int|
                    0 <= k < closed@.len() ==> exists|n: int|
                        0 <= n < i && (#[trigger] entries@[n]).0 == (#[trigger] closed@[k])@,
                forall|k: int, j: int|
                    0 <= k < j < closed@.len() ==> (#[trigger] closed@[k])@ != (
                    #[trigger] closed@[j])@,
                forall|n: int|
                    0 <= n < i && (#[trigger] entries@[n]).1@ <= now ==> exists|k: int|
                        0 <= k < closed@.len() && (#[trigger] closed@[k])@ == entries@[n].0,
            decreases entries.len() - i,
        {
            let (number, valid_until) = entries[i];
            let ghost before = closed@;
            assert(entries@[i as int].0 == number);
            if !valid_until.valid(now) {
                let id = ConnectionId(number);
                closed.push(id);
                assert(closed@[before.len() as int]@ == number);
            }
            proof {
                assert forall|n: int|
                    0 <= n < i + 1 && (#[trigger] entries@[n]).1@ <= now implies exists|k: int|
                    0 <= k < closed@.len() && (#[trigger] closed@[k])@ == entries@[n].0 by {
                    if n < i {
                        let k = choose|k: int|
                            0 <= k < before.len() && (#[trigger] before[k])@ == entries@[n].0;
                        assert(closed@[k] == before[k]);
                    }
                }
            }
            i = i + 1;
        }
        retain_valid_slots(&mut self.slots, now);
        proof {
            assert(self@ =~= valid_connections(old(self)@, now));
            assert forall|id: u64| #[trigger]
                old(self)@.contains_key(id) && old(self)@[id]@ <= now implies exists|i: int|
                0 <= i < closed@.len() && (#[trigger] closed@[i])@ == id by {
                let n = choose|n: int| 0 <= n < entries@.len() && (#[trigger] entries@[n]).0 == id;
                assert(entries@[n].1@ <= now);
            }
        }
        let ghost found = closed@;
        let cleaning = Cleaning { closed, seconds_until_next };
        assert(cleaning.closed@ == found);
        cleaning
    }
}

/// A connection on which a request was noted stays open until the time that was
/// noted with it, and is closed by a cleaning from then on.
pub proof fn refreshed_connection_stays_open(
    connections: Map<u64, ValidUntil>,
    id: u64,
    valid_until: ValidUntil,
    now: u32,
)
    requires
        connections.contains_key(id),
    ensures
        valid_connections(connections.insert(id, valid_until), now).contains_key(id) <==> now
            < valid_until@,
{
}

/// Cleaning twice is cleaning once, at the later of the two times.
pub proof fn later_cleaning_covers_earlier(
    connections: Map<u64, ValidUntil>,
    earlier: u32,
    later: u32,
)
    requires
        earlier <= later,
    ensures
        valid_connections(valid_connections(connections, earlier), later) == valid_connections(
            connections,
            later,
        ),
{
    assert(valid_connections(valid_connections(connections, earlier), later) =~= valid_connections(
        connections,
        later,
    ));
}

/// A cleaning keeps exactly the connections that are valid for longer, each until the
/// second that it was valid until.
pub proof fn cleaning_closes_exactly_the_idle_connections(
    connections: Map<u64, ValidUntil>,
    now: u32,
    id: u64,
)
    ensures
        ({
            let kept = next_connections(connections, TableStep::Clean(Some(now)));
            &&& kept.contains_key(id) <==> connections.contains_key(id) && now < connections[id].0
            &&& kept.contains_key(id) ==> kept[id] == connections[id]
        }),
        next_connections(connections, TableStep::Clean(None)) == connections,
{
}

/// A connection that was accepted stays open through whatever happens to the others,
/// through requests of its own and through cleanings before its time, until it is
/// closed.
pub proof fn connection_stays_open_until_its_time(
    connections: Map<u64, ValidUntil>,
    id: u64,
    valid_until: ValidUntil,
    steps: Seq<TableStep>,
)
    requires
        forall|i: int|
            0 <= i < steps.len() ==> match #[trigger] steps[i] {
                TableStep::Accept(other, _) => other != id,
                TableStep::Refresh(other, Some(later)) => other == id ==> later.0 >= valid_until.0,
                TableStep::Refresh(_, None) => true,
                TableStep::Remove(other) => other != id,
                TableStep::Clean(Some(now)) => now < valid_until.0,
                TableStep::Clean(None) => true,
            },
    ensures
        ({
            let accepted = next_connections(connections, TableStep::Accept(id, valid_until));
            let later = connections_after(accepted, steps);
            later.contains_key(id) && later[id].0 >= valid_until.0
        }),
    decreases steps.len(),
{
    if steps.len() > 0 {
        let rest = steps.drop_last();
        assert forall|i: int| 0 <= i < rest.len() implies match #[trigger] rest[i] {
            TableStep::Accept(other, _) => other != id,
            TableStep::Refresh(other, Some(later)) => other == id ==> later.0 >= valid_until.0,
            TableStep::Refresh(_, None) => true,
            TableStep::Remove(other) => other != id,
            TableStep::Clean(Some(now)) => now < valid_until.0,
            TableStep::Clean(None) => true,
        } by {
            assert(rest[i] == steps[i]);
        }
        connection_stays_open_until_its_time(connections, id, valid_until, rest);
        assert(steps[steps.len() - 1] == steps.last());
    }
}

/// What happens to one connection leaves the others as they are. A request on a
/// connection that is not open opens none, and a connection that was closed is not
/// open.
pub proof fn connections_are_independent(
    connections: Map<u64, ValidUntil>,
    id: u64,
    other: u64,
    valid_until: ValidUntil,
    opt_valid_until: Option<ValidUntil>,
)
    requires
        other != id,
    ensures
        forall|step: TableStep|
            step == TableStep::Accept(id, valid_until) || step == TableStep::Refresh(
                id,
                opt_valid_until,
            ) || step == TableStep::Remove(id) ==> (#[trigger] next_connections(
                connections,
                step,
            )).contains_key(other) == connections.contains_key(other) && (
            connections.contains_key(other) ==> next_connections(connections, step)[other]
                == connections[other]),
        next_connections(connections, TableStep::Refresh(id, opt_valid_until)).contains_key(id)
            == connections.contains_key(id),
        connections.contains_key(id) ==> next_connections(
            connections,
            TableStep::Refresh(id, opt_valid_until),
        )[id] == (match opt_valid_until {
            Some(later) => later,
            None => connections[id],
        }),
        !next_connections(connections, TableStep::Remove(id)).contains_key(id),
{
}

} // verus!
