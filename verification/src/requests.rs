//! The requests that wait for a response, and how responses find them.

use core::task::Waker;

use coap_lite::error::MessageError as CoapError;
use embassy_sync::waitqueue::WakerRegistration;
use vstd::prelude::*;

use crate::packet::{from_bytes, Error, Packet, PacketView};

verus! {

/// The handle by which a task is woken.
#[verifier::external_type_specification]
#[verifier::external_body]
pub struct ExWaker(core::task::Waker);

/// The place in which a task leaves its waker.
#[verifier::external_type_specification]
#[verifier::external_body]
pub struct ExWakerRegistration(embassy_sync::waitqueue::WakerRegistration);

/// Whether the registration holds a waker of the task of `waker`, which is then woken when the
/// registration is.
pub uninterp spec fn wakes(registration: WakerRegistration, waker: Waker) -> bool;

/// The two wakers are of the same task: a registration that wakes the one wakes the other.
pub open spec fn same_task(a: Waker, b: Waker) -> bool {
    forall|registration: WakerRegistration| #[trigger]
        wakes(registration, a) == wakes(registration, b)
}

/// A place for the waker of a task, with a record of the wakers that were woken from it, oldest
/// first.
pub struct TaskSlot {
    registration: WakerRegistration,
    woken: Ghost<Seq<Waker>>,
}

impl TaskSlot {
    /// Whether the task of `waker` is woken when the slot is.
    pub closed spec fn wakes(self, waker: Waker) -> bool {
        wakes(self.registration, waker)
    }

    /// The wakers that were woken from the slot.
    pub closed spec fn woken(self) -> Seq<Waker> {
        self.woken@
    }

    /// Whether a task is woken when the slot is.
    pub open spec fn occupied(self) -> bool {
        exists|waker: Waker| self.wakes(waker)
    }

    /// The task of `waker` is woken when the slot is, and no other task.
    pub open spec fn wakes_only(self, waker: Waker) -> bool {
        &&& self.wakes(waker)
        &&& forall|other: Waker| #[trigger] self.wakes(other) ==> same_task(other, waker)
    }

    /// embassy-sync's `WakerRegistration::new` gives a registration without a waker: it wakes no
    /// task, and none was woken yet.
    #[verifier::external_body]
    fn new() -> (slot: Self)
        ensures
            forall|waker: Waker| !wakes(slot.registration, waker),
            slot.woken() == Seq::<Waker>::empty(),
    {
        TaskSlot { registration: WakerRegistration::new(), woken: Ghost(Seq::empty()) }
    }

    /// embassy-sync's `WakerRegistration::register` leaves a waker of the task of `w` in the
    /// registration, which holds one waker and so wakes no other task. A waker that stood there
    /// stays if it is of the same task; otherwise it is woken and replaced.
    #[verifier::external_body]
    fn register(&mut self, w: &Waker)
        ensures
            final(self).wakes_only(*w),
            kept_or_woken(*old(self), *final(self)),
    {
        self.registration.register(w)
    }

    /// embassy-sync's `WakerRegistration::wake` takes the waker out, if there is one, and wakes it.
    /// The registration held that one waker, so every waker that it stood for is of the task that
    /// is woken.
    #[verifier::external_body]
    fn wake(&mut self)
        ensures
            forall|waker: Waker| !wakes(final(self).registration, waker),
            old(self).occupied() ==> one_more_woken(*old(self), *final(self)),
            !old(self).occupied() ==> final(self).woken() == old(self).woken(),
    {
        self.registration.wake()
    }
}

/// The task that waited in the slot was woken, and no other.
pub open spec fn one_more_woken(before: TaskSlot, after: TaskSlot) -> bool {
    exists|waker: Waker|
        before.wakes_only(waker) && after.woken() == #[trigger] before.woken().push(waker)
}

/// The task of `waker` was woken from the slot, and no other.
pub open spec fn task_woken(before: TaskSlot, after: TaskSlot, waker: Waker) -> bool {
    exists|woken: Waker|
        same_task(waker, woken) && after.woken() == #[trigger] before.woken().push(woken)
}

/// The task that waited in the slot, if there was one, still waits in it, or it was woken.
pub open spec fn kept_or_woken(before: TaskSlot, after: TaskSlot) -> bool {
    ||| {
        &&& after.woken() == before.woken()
        &&& forall|waker: Waker| before.wakes(waker) ==> #[trigger] after.wakes(waker)
    }
    ||| one_more_woken(before, after)
}

/// How far a request has come.
enum RequestState {
    Pending,
    Done { packet: Packet },
}

/// A request that was sent, with the token by which its response is known.
pub struct PendingRequest {
    state: RequestState,
    token: [u8; 8],
    is_observer: bool,
    is_stale: bool,
    waker: TaskSlot,
}

/// The mathematical value of a [`PendingRequest`].
#[verifier::ext_equal]
pub struct PendingView {
    /// The response that has arrived and was not taken yet.
    pub response: Option<PacketView>,
    pub token: Seq<u8>,
    pub is_observer: bool,
    pub is_stale: bool,
    /// A task is to be woken when a response arrives.
    pub waiting: bool,
}

impl View for PendingRequest {
    type V = PendingView;

    closed spec fn view(&self) -> PendingView {
        PendingView {
            response: match self.state {
                RequestState::Pending => None,
                RequestState::Done { packet } => Some(packet@),
            },
            token: self.token@,
            is_observer: self.is_observer,
            is_stale: self.is_stale,
            waiting: self.waker.occupied(),
        }
    }
}

/// A request that was just registered.
pub open spec fn new_request(token: Seq<u8>, is_observer: bool) -> PendingView {
    PendingView { response: None, token, is_observer, is_stale: false, waiting: false }
}

impl PendingView {
    /// A response to a request with this token is there to be taken.
    pub open spec fn answered(self, token: Seq<u8>) -> bool {
        self.token == token && self.response is Some
    }

    /// The request after a task left its waker with it.
    pub open spec fn awaited(self) -> PendingView {
        PendingView { waiting: true, ..self }
    }

    /// The request after its response was taken.
    pub open spec fn taken(self) -> PendingView {
        PendingView { response: None, ..self }
    }

    /// The request after `packet` arrived: it is the response if the request has none yet and the
    /// tokens agree. No task waits any more in any case; that the one that waited was woken is what
    /// `slots_after_delivery` says.
    pub open spec fn delivered(self, packet: PacketView) -> PendingView {
        PendingView {
            response: if self.response is None && self.token == packet.token {
                Some(packet)
            } else {
                self.response
            },
            waiting: false,
            ..self
        }
    }
}

impl PendingRequest {
    /// A request for which no response has arrived.
    pub fn new(token: [u8; 8], is_observer: bool) -> (request: Self)
        ensures
            request@ == new_request(token@, is_observer),
    {
        PendingRequest {
            state: RequestState::Pending,
            token,
            is_observer,
            is_stale: false,
            waker: TaskSlot::new(),
        }
    }
}

/// The requests that wait for a response, in the order in which they were registered.
pub struct Requests {
    pending: Vec<PendingRequest>,
}

impl View for Requests {
    type V = Seq<PendingView>;

    closed spec fn view(&self) -> Seq<PendingView> {
        self.pending@.map_values(|request: PendingRequest| request@)
    }
}

impl Requests {
    /// The place in which the task that waits for the request at `i` leaves its waker.
    pub closed spec fn slot(self, i: int) -> TaskSlot {
        self.pending@[i].waker
    }

    /// No requests.
    pub fn new() -> (requests: Self)
        ensures
            requests@ == Seq::<PendingView>::empty(),
    {
        let requests = Requests { pending: Vec::new() };
        assert(requests@ =~= Seq::<PendingView>::empty());
        requests
    }
}

/// A request waits for a task exactly if a task has left its waker with it.
pub proof fn lemma_waiting(requests: Requests, i: int)
    requires
        0 <= i < requests@.len(),
    ensures
        requests@[i].waiting == requests.slot(i).occupied(),
{
}

/// The token of every request that is registered has eight bytes.
pub proof fn lemma_tokens_have_eight_bytes(requests: Requests, i: int)
    requires
        0 <= i < requests@.len(),
    ensures
        requests@[i].token.len() == 8,
{
}

/// The requests that there were before keep their wakers and their places.
pub open spec fn slots_kept(before: Requests, after: Requests) -> bool {
    forall|i: int| 0 <= i < before@.len() ==> #[trigger] after.slot(i) == before.slot(i)
}

/// Register a request so that its response can be matched with it. The requests that were
/// registered before keep their wakers.
pub fn register_request(requests: &mut Requests, token: [u8; 8], is_observer: bool)
    ensures
        final(requests)@ == old(requests)@.push(new_request(token@, is_observer)),
        slots_kept(*old(requests), *final(requests)),
        final(requests)@.len() == old(requests)@.len() + 1,
        final(requests)@.last().token == token@,
        final(requests)@.last().is_observer == is_observer,
        final(requests)@.last().response is None,
{
    requests.pending.push(PendingRequest::new(token, is_observer));
    assert(requests@ =~= old(requests)@.push(new_request(token@, is_observer)));
}

/// The index of the first request whose response can be taken with `token`, or the number of
/// requests if there is none.
pub open spec fn first_answered(requests: Seq<PendingView>, token: Seq<u8>) -> nat
    decreases requests.len(),
{
    if requests.len() == 0 || requests.first().answered(token) {
        0
    } else {
        1 + first_answered(requests.drop_first(), token)
    }
}

/// The response that a task that waits for `token` is given.
pub open spec fn response_for(requests: Seq<PendingView>, token: Seq<u8>) -> Option<PacketView> {
    let k = first_answered(requests, token);
    if k < requests.len() {
        requests[k as int].response
    } else {
        None
    }
}

/// The requests after a task asked for the response to `token`. It leaves its waker with every
/// request in front of the one that is answered. That one is removed, but an observer stays and
/// waits for the next response.
pub open spec fn after_asking(requests: Seq<PendingView>, token: Seq<u8>) -> Seq<PendingView> {
    let k = first_answered(requests, token);
    let passed = Seq::new(
        requests.len(),
        |i: int|
            if i < k {
                requests[i].awaited()
            } else {
                requests[i]
            },
    );
    if k == requests.len() {
        passed
    } else if requests[k as int].is_observer {
        passed.update(k as int, requests[k as int].taken())
    } else {
        passed.remove(k as int)
    }
}

/// The requests after `packet` arrived.
pub open spec fn after_delivery(requests: Seq<PendingView>, packet: PacketView) -> Seq<
    PendingView,
> {
    requests.map_values(|request: PendingView| request.delivered(packet))
}

/// The wakers after the task of `waker` asked for the response to `token`. It is the one task that
/// waits with each request in front of the one that is answered, and a task that waited there
/// before still waits or was woken. From the answered one on every request keeps its waker, one place further
/// down if the answered one was removed.
pub open spec fn slots_after_asking(
    before: Requests,
    after: Requests,
    token: Seq<u8>,
    waker: Waker,
) -> bool {
    let k = first_answered(before@, token);
    &&& forall|i: int| 0 <= i < k ==> (#[trigger] after.slot(i)).wakes_only(waker)
    &&& forall|i: int| 0 <= i < k ==> kept_or_woken(before.slot(i), #[trigger] after.slot(i))
    &&& forall|i: int|
        k <= i < after@.len() ==> #[trigger] after.slot(i) == before.slot(
            if after@.len() < before@.len() {
                i + 1
            } else {
                i
            },
        )
}

/// The wakers after a response arrived: every task that waited was woken, no other was, and no
/// waker is left.
pub open spec fn slots_after_delivery(before: Requests, after: Requests) -> bool {
    &&& forall|i: int|
        0 <= i < before@.len() && (#[trigger] before@[i]).waiting ==> one_more_woken(
            before.slot(i),
            after.slot(i),
        )
    &&& forall|i: int|
        0 <= i < before@.len() && !(#[trigger] before@[i]).waiting ==> after.slot(i).woken()
            == before.slot(i).woken()
    &&& forall|i: int, waker: Waker|
        0 <= i < before@.len() ==> !#[trigger] after.slot(i).wakes(waker)
}

/// `first_answered` is the index that its description says.
pub proof fn lemma_first_answered(requests: Seq<PendingView>, token: Seq<u8>)
    ensures
        first_answered(requests, token) <= requests.len(),
        forall|i: int|
            0 <= i < first_answered(requests, token) ==> !(#[trigger] requests[i]).answered(token),
        first_answered(requests, token) < requests.len() ==> requests[first_answered(
            requests,
            token,
        ) as int].answered(token),
    decreases requests.len(),
{
    if requests.len() > 0 && !requests.first().answered(token) {
        let rest = requests.drop_first();
        lemma_first_answered(rest, token);
        assert forall|i: int| 0 <= i < first_answered(requests, token) implies !(
        #[trigger] requests[i]).answered(token) by {
            if i > 0 {
                assert(requests[i] == rest[i - 1]);
            }
        }
    }
}

/// Only one index is in front of all answered requests but one.
proof fn lemma_first_answered_is(requests: Seq<PendingView>, token: Seq<u8>, k: nat)
    requires
        k <= requests.len(),
        forall|i: int| 0 <= i < k ==> !(#[trigger] requests[i]).answered(token),
        k < requests.len() ==> requests[k as int].answered(token),
    ensures
        first_answered(requests, token) == k,
{
    lemma_first_answered(requests, token);
    let first = first_answered(requests, token);
    if first < k {
        assert(!requests[first as int].answered(token));
    }
}

/// Whether the two tokens agree.
fn same_token(token: &[u8; 8], other: &[u8]) -> (same: bool)
    ensures
        same == (token@ == other@),
{
    if other.len() != 8 {
        return false;
    }
    for i in 0..8usize
        invariant
            other@.len() == 8,
            forall|j: int| 0 <= j < i ==> token@[j] == other@[j],
    {
        if token[i] != other[i] {
            return false;
        }
    }
    assert(token@ =~= other@);
    true
}

/// Take the response to the request with this token, if it has arrived. A request that is finished
/// is removed; an observer waits for the next response. Otherwise the waker is left with the
/// requests, to be woken when a response arrives.
pub fn request_wait_complete(requests: &mut Requests, token: [u8; 8], waker: &Waker) -> (response:
    Option<Packet>)
    ensures
        match response {
            Some(packet) => response_for(old(requests)@, token@) == Some(packet@),
            None => response_for(old(requests)@, token@) is None,
        },
        final(requests)@ == after_asking(old(requests)@, token@),
        slots_after_asking(*old(requests), *final(requests), token@, *waker),
{
    let count = requests.pending.len();
    let mut i: usize = 0;
    while i < count
        invariant
            i <= count,
            count == old(requests)@.len(),
            requests@.len() == count,
            forall|j: int| 0 <= j < i ==> !(#[trigger] old(requests)@[j]).answered(token@),
            forall|j: int| 0 <= j < i ==> requests@[j] == (#[trigger] old(requests)@[j]).awaited(),
            forall|j: int| i <= j < count ==> requests@[j] == #[trigger] old(requests)@[j],
            forall|j: int| 0 <= j < i ==> (#[trigger] requests.slot(j)).wakes_only(*waker),
            forall|j: int|
                0 <= j < i ==> kept_or_woken(old(requests).slot(j), #[trigger] requests.slot(j)),
            forall|j: int| i <= j < count ==> #[trigger] requests.slot(j) == old(requests).slot(j),
        decreases count - i,
    {
        let ghost before = *requests;
        assert(requests@[i as int] == old(requests)@[i as int]);
        if same_token(&requests.pending[i].token, token.as_slice()) {
            let arrived = match &requests.pending[i].state {
                RequestState::Done { packet } => Some(packet.clone()),
                RequestState::Pending => None,
            };
            if let Some(packet) = arrived {
                if requests.pending[i].is_observer {
                    requests.pending[i].state = RequestState::Pending;
                } else {
                    requests.pending.remove(i);
                }
                proof {
                    lemma_first_answered_is(old(requests)@, token@, i as nat);
                    assert(forall|j: int|
                        0 <= j < i ==> #[trigger] requests.slot(j) == before.slot(j));
                    assert forall|j: int| i <= j < requests@.len() implies #[trigger] requests.slot(
                        j,
                    ) == old(requests).slot(
                        if requests@.len() < count {
                            j + 1
                        } else {
                            j
                        },
                    ) by {
                        if requests@.len() < count {
                            assert(before.slot(j + 1) == old(requests).slot(j + 1));
                        } else {
                            assert(before.slot(j) == old(requests).slot(j));
                        }
                    }
                    assert(requests@ =~= after_asking(old(requests)@, token@));
                }
                return Some(packet);
            }
        }
        requests.pending[i].waker.register(waker);
        proof {
            assert(requests.slot(i as int).wakes_only(*waker));
            assert(before.slot(i as int) == old(requests).slot(i as int));
            assert(forall|j: int|
                0 <= j < count && j != i ==> #[trigger] requests.slot(j) == before.slot(j));
            assert(requests@[i as int] =~= old(requests)@[i as int].awaited());
        }
        i += 1;
    }
    proof {
        lemma_first_answered_is(old(requests)@, token@, count as nat);
        assert(requests@ =~= after_asking(old(requests)@, token@));
    }
    None
}

/// Give `packet` to every request that waits for a response with its token, and wake every task
/// that waits.
pub fn deliver(requests: &mut Requests, packet: &Packet)
    ensures
        final(requests)@ == after_delivery(old(requests)@, packet@),
        slots_after_delivery(*old(requests), *final(requests)),
        final(requests)@.len() == old(requests)@.len(),
        forall|i: int|
            0 <= i < old(requests)@.len() ==> (#[trigger] final(requests)@[i]).response == if old(
                requests,
            )@[i].response is None && old(requests)@[i].token == packet.token@ {
                Some(packet@)
            } else {
                old(requests)@[i].response
            },
{
    let count = requests.pending.len();
    let mut i: usize = 0;
    while i < count
        invariant
            i <= count,
            count == old(requests)@.len(),
            requests@.len() == count,
            forall|j: int|
                0 <= j < i ==> requests@[j] == (#[trigger] old(requests)@[j]).delivered(packet@),
            forall|j: int| i <= j < count ==> requests@[j] == #[trigger] old(requests)@[j],
            forall|j: int|
                0 <= j < i && (#[trigger] old(requests)@[j]).waiting ==> one_more_woken(
                    old(requests).slot(j),
                    requests.slot(j),
                ),
            forall|j: int|
                0 <= j < i && !(#[trigger] old(requests)@[j]).waiting ==> requests.slot(j).woken()
                    == old(requests).slot(j).woken(),
            forall|j: int, waker: Waker|
                0 <= j < i ==> !#[trigger] requests.slot(j).wakes(waker),
            forall|j: int| i <= j < count ==> #[trigger] requests.slot(j) == old(requests).slot(j),
        decreases count - i,
    {
        let ghost before = *requests;
        assert(requests@[i as int] == old(requests)@[i as int]);
        assert(requests.slot(i as int) == old(requests).slot(i as int));
        if let RequestState::Pending = requests.pending[i].state {
            if same_token(&requests.pending[i].token, packet.token.as_slice()) {
                requests.pending[i].state = RequestState::Done { packet: packet.clone() };
            }
        }
        requests.pending[i].waker.wake();
        proof {
            assert(forall|j: int|
                0 <= j < count && j != i ==> #[trigger] requests.slot(j) == before.slot(j));
        }
        i += 1;
    }
    assert(requests@ =~= after_delivery(old(requests)@, packet@));
}

/// The message that the bytes of a response hold.
pub open spec fn response_packet(response: Seq<u8>) -> Result<PacketView, CoapError> {
    crate::packet::packet_of_bytes(response, vstd::endian::endianness())
}

/// Read the bytes of a response and hand the message to the requests that wait for it. Nothing
/// happens when there are no bytes.
pub fn receive(requests: &mut Requests, response: &[u8]) -> (result: Result<(), Error>)
    ensures
        response@.len() == 0 ==> result is Ok && *final(requests) == *old(requests),
        response@.len() > 0 ==> match response_packet(response@) {
            Ok(packet) => {
                &&& result is Ok
                &&& final(requests)@ == after_delivery(old(requests)@, packet)
                &&& slots_after_delivery(*old(requests), *final(requests))
            },
            Err(error) => {
                &&& result == Err::<(), Error>(Error::Malformed(error))
                &&& *final(requests) == *old(requests)
            },
        },
        response@.len() > 0 ==> crate::packet::framed_by(response_packet(response@), response@),
        response@.len() > 0 ==> match crate::packet::packet_of_bytes(
            response@,
            vstd::endian::endianness(),
        ) {
            Ok(packet) => {
                &&& result is Ok
                &&& packet.token == response@.subrange(4, 4 + response@[0] as int % 16)
                &&& final(requests)@.len() == old(requests)@.len()
                &&& forall|i: int|
                    0 <= i < old(requests)@.len() ==> (#[trigger] final(requests)@[i]).response
                        == if old(requests)@[i].response is None && old(requests)@[i].token
                        == packet.token {
                        Some(packet)
                    } else {
                        old(requests)@[i].response
                    }
            },
            Err(error) => result == Err::<(), Error>(Error::Malformed(error)),
        },
{
    if response.len() > 0 {
        match from_bytes(response) {
            Ok(packet) => deliver(requests, &packet),
            Err(error) => return Err(Error::Malformed(error)),
        }
    }
    Ok(())
}

} // verus!
