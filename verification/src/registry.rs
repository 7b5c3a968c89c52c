//! The responses that a socket worker waits for.

use std::collections::HashMap;

use vstd::prelude::*;

use crate::address::CanonicalSocketAddr;
use crate::common::{answered_request, ChannelRequest, ChannelResponse, ConsumerId, RequestId};
use crate::protocol::{AnnounceRequest, ScrapeRequest};

verus! {

broadcast use vstd::std_specs::hash::group_hash_axioms;

/// The requests that wait for a response, each with the sender by which the
/// response reaches it.
pub struct PendingResponseRegistry<S> {
    senders: HashMap<u64, S>,
    next_request_id: u64,
}

/// The identifier after `id`. After the greatest one, they start anew.
pub open spec fn next_id(id: u64) -> u64 {
    if id == u64::MAX {
        0
    } else {
        (id + 1) as u64
    }
}

/// What a [`PendingResponseRegistry`] stands for.
pub struct RegistryState<S> {
    /// The senders by request identifier.
    pub pending: Map<u64, S>,
    /// The identifier that the next request gets.
    pub upcoming: u64,
}

/// What happens to a registry.
pub enum RegistryStep<S> {
    /// A request is registered, with the sender by which a response reaches it.
    Register(S),
    /// An identifier is made without registering a request.
    MakeId,
    /// A request is unregistered.
    Unregister(RequestId),
    /// A response arrives.
    Respond(ChannelResponse),
}

/// The registry after a step. A response leaves it as it is.
pub open spec fn next_state<S>(state: RegistryState<S>, step: RegistryStep<S>) -> RegistryState<S> {
    match step {
        RegistryStep::Register(sender) => RegistryState {
            pending: state.pending.insert(state.upcoming, sender),
            upcoming: next_id(state.upcoming),
        },
        RegistryStep::MakeId => RegistryState {
            pending: state.pending,
            upcoming: next_id(state.upcoming),
        },
        RegistryStep::Unregister(request_id) => RegistryState {
            pending: state.pending.remove(request_id.0),
            upcoming: state.upcoming,
        },
        RegistryStep::Respond(_) => state,
    }
}

/// The sender to which a response is passed on. There is none where the response
/// is late.
pub open spec fn routed<S>(state: RegistryState<S>, response: ChannelResponse) -> Option<S> {
    let request_id = answered_request(response);
    if state.pending.contains_key(request_id.0) {
        Some(state.pending[request_id.0])
    } else {
        None
    }
}

impl<S> PendingResponseRegistry<S> {
    pub open spec fn state(&self) -> RegistryState<S> {
        RegistryState { pending: self.pending(), upcoming: self.upcoming() }
    }

    /// The senders by request identifier.
    pub closed spec fn pending(&self) -> Map<u64, S> {
        self.senders@
    }

    /// The identifier that the next request gets.
    pub closed spec fn upcoming(&self) -> u64 {
        self.next_request_id
    }

    pub fn new() -> (registry: Self)
        ensures
            registry.pending() == Map::<u64, S>::empty(),
            registry.upcoming() == 0,
    {
        PendingResponseRegistry { senders: HashMap::new(), next_request_id: 0 }
    }

    /// Makes a new request identifier and lets a response to it reach `sender`.
    pub fn register(&mut self, sender: S) -> (guard: PendingResponseGuard)
        ensures
            guard@ == RequestId(old(self).upcoming()),
            final(self).state() == next_state(old(self).state(), RegistryStep::Register(sender)),
    {
        let request_id = self.next_request_id();
        self.senders.insert(request_id.0, sender);
        PendingResponseGuard { request_id }
    }

    /// The sender by which a response to the request reaches it, if it waits for one.
    pub fn sender(&self, request_id: RequestId) -> (result: Option<&S>)
        ensures
            match result {
                Some(sender) => self.pending().contains_key(request_id.0)
                    && self.pending()[request_id.0] == *sender,
                None => !self.pending().contains_key(request_id.0),
            },
    {
        self.senders.get(&request_id.0)
    }

    /// Makes a new request identifier.
    pub fn next_request_id(&mut self) -> (request_id: RequestId)
        ensures
            request_id == RequestId(old(self).upcoming()),
            final(self).state() == next_state(old(self).state(), RegistryStep::MakeId),
    {
        let request_id = RequestId(self.next_request_id);
        self.next_request_id = self.next_request_id.wrapping_add(1);
        request_id
    }

    /// Lets no further response reach the request.
    pub fn unregister(&mut self, request_id: RequestId)
        ensures
            final(self).state() == next_state(
                old(self).state(),
                RegistryStep::Unregister(request_id),
            ),
    {
        self.senders.remove(&request_id.0);
        assert(self.pending() == old(self).pending().remove(request_id.0));
    }

    /// The sender by which `response` reaches the request that it answers. There
    /// is none where the response is late.
    pub fn route(&self, response: &ChannelResponse) -> (result: Option<&S>)
        ensures
            match result {
                Some(sender) => routed(self.state(), *response) == Some(*sender),
                None => routed(self.state(), *response) is None,
            },
    {
        self.sender(response.request_id())
    }
}

/// Stands for a registered request.
#[derive(Debug)]
pub struct PendingResponseGuard {
    request_id: RequestId,
}

impl View for PendingResponseGuard {
    type V = RequestId;

    closed spec fn view(&self) -> RequestId {
        self.request_id
    }
}

impl PendingResponseGuard {
    pub fn request_id(&self) -> (request_id: RequestId)
        ensures
            request_id == self@,
    {
        self.request_id
    }

    /// Lets no further response reach the request.
    pub fn unregister<S>(&self, registry: &mut PendingResponseRegistry<S>)
        ensures
            final(registry).state() == next_state(
                old(registry).state(),
                RegistryStep::Unregister(self@),
            ),
    {
        registry.unregister(self.request_id);
    }
}

/// The state of a socket worker.
pub struct SocketWorkerState<S> {
    pub registry: PendingResponseRegistry<S>,
    pub worker_index: usize,
    /// Where the swarm workers send the responses for this worker.
    pub response_consumer_id: ConsumerId,
}

impl<S> SocketWorkerState<S> {
    pub fn new(worker_index: usize, response_consumer_id: ConsumerId) -> (state: Self)
        ensures
            state.worker_index == worker_index,
            state.response_consumer_id == response_consumer_id,
            state.registry.pending() == Map::<u64, S>::empty(),
            state.registry.upcoming() == 0,
    {
        SocketWorkerState {
            registry: PendingResponseRegistry::new(),
            worker_index,
            response_consumer_id,
        }
    }

    /// Makes a new request identifier and lets a response to it reach `sender`.
    pub fn register_pending_response(&mut self, sender: S) -> (guard: PendingResponseGuard)
        ensures
            guard@ == RequestId(old(self).registry.upcoming()),
            final(self).registry.state() == next_state(
                old(self).registry.state(),
                RegistryStep::Register(sender),
            ),
            final(self).worker_index == old(self).worker_index,
            final(self).response_consumer_id == old(self).response_consumer_id,
    {
        self.registry.register(sender)
    }

    pub fn worker_index(&self) -> (index: usize)
        ensures
            index == self.worker_index,
    {
        self.worker_index
    }

    pub fn response_consumer_id(&self) -> (consumer: ConsumerId)
        ensures
            consumer == self.response_consumer_id,
    {
        self.response_consumer_id
    }
}

impl<S> SocketWorkerState<S> {
    /// The message that asks a swarm worker to answer an announce request.
    pub fn announce_message(
        &self,
        guard: &PendingResponseGuard,
        request: AnnounceRequest,
        peer_addr: CanonicalSocketAddr,
    ) -> (message: ChannelRequest)
        ensures
            message == (ChannelRequest::Announce {
                request_id: guard@,
                response_consumer_id: self.response_consumer_id,
                request,
                peer_addr,
            }),
    {
        ChannelRequest::Announce {
            request_id: guard.request_id(),
            response_consumer_id: self.response_consumer_id(),
            request,
            peer_addr,
        }
    }

    /// The message that asks a swarm worker to answer its part of a scrape request.
    pub fn scrape_message(
        &self,
        guard: &PendingResponseGuard,
        request: ScrapeRequest,
        peer_addr: CanonicalSocketAddr,
    ) -> (message: ChannelRequest)
        ensures
            message == (ChannelRequest::Scrape {
                request_id: guard@,
                response_consumer_id: self.response_consumer_id,
                request,
                peer_addr,
            }),
    {
        ChannelRequest::Scrape {
            request_id: guard.request_id(),
            response_consumer_id: self.response_consumer_id(),
            request,
            peer_addr,
        }
    }
}

/// The identifier that follows `id` after `steps` steps.
pub open spec fn later_id(id: u64, steps: nat) -> u64
    decreases steps,
{
    if steps == 0 {
        id
    } else {
        next_id(later_id(id, (steps - 1) as nat))
    }
}

proof fn lemma_later_id(id: u64, steps: nat)
    ensures
        later_id(id, steps) == (id + steps) % 0x1_0000_0000_0000_0000,
    decreases steps,
{
    if steps > 0 {
        lemma_later_id(id, (steps - 1) as nat);
    }
}

/// Request identifiers repeat only after all of them have been used.
pub proof fn request_ids_differ(id: u64, earlier: nat, later: nat)
    requires
        earlier < later < earlier + 0x1_0000_0000_0000_0000,
    ensures
        later_id(id, earlier) != later_id(id, later),
{
    lemma_later_id(id, earlier);
    lemma_later_id(id, later);
}

/// The registry after steps, one after another.
pub open spec fn state_after<S>(
    state: RegistryState<S>,
    steps: Seq<RegistryStep<S>>,
) -> RegistryState<S>
    decreases steps.len(),
{
    if steps.len() == 0 {
        state
    } else {
        next_state(state_after(state, steps.drop_last()), steps.last())
    }
}

/// The number of identifiers that steps make.
pub open spec fn ids_made<S>(steps: Seq<RegistryStep<S>>) -> nat
    decreases steps.len(),
{
    if steps.len() == 0 {
        0
    } else {
        ids_made(steps.drop_last()) + match steps.last() {
            RegistryStep::Register(_) => 1nat,
            RegistryStep::MakeId => 1nat,
            _ => 0nat,
        }
    }
}

proof fn lemma_upcoming_after<S>(state: RegistryState<S>, steps: Seq<RegistryStep<S>>)
    ensures
        state_after(state, steps).upcoming == later_id(state.upcoming, ids_made(steps)),
    decreases steps.len(),
{
    if steps.len() > 0 {
        lemma_upcoming_after(state, steps.drop_last());
    }
}

proof fn lemma_id_is_not_made_again(id: u64, upcoming: u64, age: nat, made: nat)
    requires
        upcoming == later_id(id, age),
        0 < age,
        age + made < 0x1_0000_0000_0000_0000,
    ensures
        later_id(upcoming, made) != id,
        later_id(upcoming, made) == later_id(id, age + made),
{
    lemma_later_id(id, age);
    lemma_later_id(upcoming, made);
    lemma_later_id(id, age + made);
}

/// A registered request can be reached by the sender that it was registered with
/// until it is unregistered, whatever else happens, as long as the identifiers have
/// not all been used since.
pub proof fn registered_request_keeps_its_sender<S>(
    state: RegistryState<S>,
    sender: S,
    steps: Seq<RegistryStep<S>>,
)
    requires
        ids_made(steps) < 0x1_0000_0000_0000_0000,
        forall|i: int|
            0 <= i < steps.len() ==> #[trigger] steps[i] != RegistryStep::<S>::Unregister(
                RequestId(state.upcoming),
            ),
    ensures
        ({
            let later = state_after(next_state(state, RegistryStep::Register(sender)), steps);
            &&& later.pending.contains_key(state.upcoming)
            &&& later.pending[state.upcoming] == sender
            &&& forall|response: ChannelResponse|
                answered_request(response).0 == state.upcoming ==> #[trigger] routed(later, response)
                    == Some(sender)
        }),
    decreases steps.len(),
{
    if steps.len() > 0 {
        let rest = steps.drop_last();
        let registered = next_state(state, RegistryStep::Register(sender));
        assert forall|i: int| 0 <= i < rest.len() implies #[trigger] rest[i] != RegistryStep::<
            S,
        >::Unregister(RequestId(state.upcoming)) by {
            assert(rest[i] == steps[i]);
        }
        registered_request_keeps_its_sender(state, sender, rest);
        lemma_upcoming_after(registered, rest);
        reveal_with_fuel(later_id, 2);
        if ids_made(rest) + 1 < 0x1_0000_0000_0000_0000 {
            lemma_id_is_not_made_again(state.upcoming, registered.upcoming, 1, ids_made(rest));
        }
        assert(steps[steps.len() - 1] == steps.last());
    }
}

proof fn lemma_unregistered_id_stays_out<S>(
    state: RegistryState<S>,
    id: u64,
    age: nat,
    steps: Seq<RegistryStep<S>>,
)
    requires
        !state.pending.contains_key(id),
        state.upcoming == later_id(id, age),
        0 < age,
        age + ids_made(steps) <= 0x1_0000_0000_0000_0000,
    ensures
        !state_after(state, steps).pending.contains_key(id),
    decreases steps.len(),
{
    if steps.len() > 0 {
        let rest = steps.drop_last();
        lemma_unregistered_id_stays_out(state, id, age, rest);
        lemma_upcoming_after(state, rest);
        if age + ids_made(rest) < 0x1_0000_0000_0000_0000 {
            lemma_id_is_not_made_again(id, state.upcoming, age, ids_made(rest));
        }
    }
}

/// Once a registered request has been unregistered, no response reaches it, whatever
/// else happens, as long as the identifiers have not all been used since it was
/// registered.
pub proof fn unregistered_request_is_not_reached<S>(
    state: RegistryState<S>,
    sender: S,
    waiting: Seq<RegistryStep<S>>,
    steps: Seq<RegistryStep<S>>,
)
    requires
        ids_made(waiting) + ids_made(steps) < 0x1_0000_0000_0000_0000,
    ensures
        ({
            let registered = next_state(state, RegistryStep::Register(sender));
            let unregistered = next_state(
                state_after(registered, waiting),
                RegistryStep::Unregister(RequestId(state.upcoming)),
            );
            let later = state_after(unregistered, steps);
            &&& !later.pending.contains_key(state.upcoming)
            &&& forall|response: ChannelResponse|
                answered_request(response).0 == state.upcoming ==> #[trigger] routed(
                    later,
                    response,
                ) is None
        }),
{
    let registered = next_state(state, RegistryStep::Register(sender));
    let unregistered = next_state(
        state_after(registered, waiting),
        RegistryStep::Unregister(RequestId(state.upcoming)),
    );
    let age = 1 + ids_made(waiting);
    lemma_upcoming_after(registered, waiting);
    lemma_later_id(state.upcoming, 1);
    lemma_later_id(registered.upcoming, ids_made(waiting));
    lemma_later_id(state.upcoming, age);
    lemma_unregistered_id_stays_out(unregistered, state.upcoming, age, steps);
}

/// The responses that are passed on in the course of steps, each with the sender to
/// which it is passed on, in the order in which they arrive.
pub open spec fn deliveries<S>(state: RegistryState<S>, steps: Seq<RegistryStep<S>>) -> Seq<
    (S, ChannelResponse),
>
    decreases steps.len(),
{
    if steps.len() == 0 {
        Seq::empty()
    } else {
        let earlier = deliveries(state, steps.drop_last());
        match steps.last() {
            RegistryStep::Respond(response) => match routed(
                state_after(state, steps.drop_last()),
                response,
            ) {
                Some(sender) => earlier.push((sender, response)),
                None => earlier,
            },
            _ => earlier,
        }
    }
}

/// A response that arrives at a registered request is passed on unchanged to the
/// sender of that request and to no other, behind the responses that were passed on
/// before it. One that is late is dropped. Neither changes what is registered, so
/// later responses are passed on as if it had not arrived.
pub proof fn responses_are_passed_on_in_order<S>(
    state: RegistryState<S>,
    earlier: Seq<RegistryStep<S>>,
    response: ChannelResponse,
    later: Seq<RegistryStep<S>>,
)
    ensures
        ({
            let arrival = seq![RegistryStep::<S>::Respond(response)];
            let before = deliveries(state, earlier);
            let now = state_after(state, earlier);
            &&& deliveries(state, earlier + arrival + later) == before + (match routed(
                now,
                response,
            ) {
                Some(sender) => seq![(sender, response)],
                None => Seq::empty(),
            }) + deliveries(now, later)
            &&& deliveries(state, earlier + later) == before + deliveries(now, later)
            &&& state_after(state, earlier + arrival + later) == state_after(state, earlier + later)
        }),
{
    let arrival = seq![RegistryStep::<S>::Respond(response)];
    let now = state_after(state, earlier);
    lemma_steps_in_two_halves(state, earlier, later);
    lemma_steps_in_two_halves(state, earlier + arrival, later);
    assert((earlier + arrival).drop_last() == earlier);
    assert(state_after(state, earlier + arrival) == now);
    match routed(now, response) {
        Some(sender) => {
            assert(deliveries(state, earlier + arrival) == deliveries(state, earlier) + seq![
                (sender, response),
            ]);
        },
        None => {
            assert(deliveries(state, earlier + arrival) == deliveries(state, earlier)
                + Seq::empty());
        },
    }
}

proof fn lemma_steps_in_two_halves<S>(
    state: RegistryState<S>,
    earlier: Seq<RegistryStep<S>>,
    later: Seq<RegistryStep<S>>,
)
    ensures
        state_after(state, earlier + later) == state_after(state_after(state, earlier), later),
        deliveries(state, earlier + later) == deliveries(state, earlier) + deliveries(
            state_after(state, earlier),
            later,
        ),
    decreases later.len(),
{
    if later.len() == 0 {
        assert(earlier + later == earlier);
        assert(deliveries(state, earlier) + Seq::empty() == deliveries(state, earlier));
    } else {
        lemma_steps_in_two_halves(state, earlier, later.drop_last());
        assert((earlier + later).drop_last() == earlier + later.drop_last());
        assert(deliveries(state, earlier + later) == deliveries(state, earlier) + deliveries(
            state_after(state, earlier),
            later,
        ));
    }
}

/// Unregistering a request undoes registering it, where its identifier was not
/// in use; the other requests keep their senders throughout.
pub proof fn unregistering_undoes_registering<S>(pending: Map<u64, S>, id: u64, sender: S)
    ensures
        !pending.contains_key(id) ==> pending.insert(id, sender).remove(id) == pending,
        !pending.insert(id, sender).remove(id).contains_key(id),
        forall|other: u64|
            other != id ==> (#[trigger] pending.insert(id, sender).remove(id).contains_key(other)
                <==> pending.contains_key(other)) && (pending.contains_key(other)
                ==> pending.insert(id, sender).remove(id)[other] == pending[other]),
{
    if !pending.contains_key(id) {
        assert(pending.insert(id, sender).remove(id) =~= pending);
    }
}

} // verus!
