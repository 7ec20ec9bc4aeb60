//! What asking, delivering and registering do to each request, wherever it stands.

use core::task::Waker;

use coap_lite::error::MessageError as CoapError;
use vstd::prelude::*;

use crate::packet::PacketView;
use crate::requests::{PendingView, Requests};

verus! {

/// A response to `token` is there to be taken at `i`.
pub open spec fn has_response(requests: Seq<PendingView>, token: Seq<u8>, i: int) -> bool {
    0 <= i < requests.len() && requests[i].token == token && requests[i].response is Some
}

/// The first response to `token` is there to be taken at `k`.
pub open spec fn first_response_at(requests: Seq<PendingView>, token: Seq<u8>, k: int) -> bool {
    &&& has_response(requests, token, k)
    &&& forall|i: int| 0 <= i < k ==> !#[trigger] has_response(requests, token, i)
}

/// No response to `token` is there to be taken.
pub open spec fn no_response(requests: Seq<PendingView>, token: Seq<u8>) -> bool {
    forall|i: int| 0 <= i < requests.len() ==> !#[trigger] has_response(requests, token, i)
}

/// A request that was just registered has the token it was given and no response, no task waits for
/// it, and it is an observer exactly if it was registered as one.
pub proof fn law_new_request_waits_for_its_response(token: Seq<u8>, is_observer: bool)
    ensures
        crate::requests::new_request(token, is_observer) == (PendingView {
            response: None,
            token,
            is_observer,
            is_stale: false,
            waiting: false,
        }),
{
}

/// The index of the first response, in terms of the requests alone.
proof fn lemma_first(requests: Seq<PendingView>, token: Seq<u8>)
    ensures
        ({
            let k = crate::requests::first_answered(requests, token) as int;
            &&& k <= requests.len()
            &&& k < requests.len() ==> first_response_at(requests, token, k)
            &&& k == requests.len() ==> no_response(requests, token)
        }),
        forall|k: int| #[trigger]
            first_response_at(requests, token, k) ==> k == crate::requests::first_answered(
                requests,
                token,
            ),
{
    crate::requests::lemma_first_answered(requests, token);
    let first = crate::requests::first_answered(requests, token) as int;
    assert forall|i: int| 0 <= i < first implies !#[trigger] has_response(requests, token, i) by {
        assert(!requests[i].answered(token));
    }
    assert forall|k: int| #[trigger] first_response_at(requests, token, k) implies k == first by {
        assert(requests[k].answered(token));
        if first < k {
            assert(has_response(requests, token, first));
        }
    }
}

/// The task that asks is given the first response to its token, wherever that stands. An observer
/// stays at its place with everything but the response; a request that is no observer goes, and
/// those behind it move up. The requests in front are waited for now and otherwise stay as they
/// were, and so do those behind.
pub proof fn law_asking_takes_the_first_response(
    requests: Seq<PendingView>,
    token: Seq<u8>,
    k: int,
)
    requires
        first_response_at(requests, token, k),
    ensures
        crate::requests::response_for(requests, token) == requests[k].response,
        ({
            let after = crate::requests::after_asking(requests, token);
            &&& forall|i: int|
                0 <= i < k ==> #[trigger] after[i] == (PendingView {
                    response: requests[i].response,
                    token: requests[i].token,
                    is_observer: requests[i].is_observer,
                    is_stale: requests[i].is_stale,
                    waiting: true,
                })
            &&& requests[k].is_observer ==> {
                &&& after.len() == requests.len()
                &&& after[k] == (PendingView {
                    response: None,
                    token,
                    is_observer: true,
                    is_stale: requests[k].is_stale,
                    waiting: requests[k].waiting,
                })
                &&& forall|i: int| k < i < requests.len() ==> #[trigger] after[i] == requests[i]
            }
            &&& !requests[k].is_observer ==> {
                &&& after.len() == requests.len() - 1
                &&& forall|i: int| k <= i < after.len() ==> #[trigger] after[i] == requests[i + 1]
            }
        }),
{
    lemma_first(requests, token);
}

/// A task that asks for a token to which there is no response is given none, and waits with every
/// request from then on. The requests are otherwise as they were.
pub proof fn law_asking_without_a_response_waits(requests: Seq<PendingView>, token: Seq<u8>)
    requires
        no_response(requests, token),
    ensures
        crate::requests::response_for(requests, token) is None,
        crate::requests::after_asking(requests, token).len() == requests.len(),
        forall|i: int|
            0 <= i < requests.len() ==> #[trigger] crate::requests::after_asking(requests, token)[i]
                == (PendingView {
                response: requests[i].response,
                token: requests[i].token,
                is_observer: requests[i].is_observer,
                is_stale: requests[i].is_stale,
                waiting: true,
            }),
{
    lemma_first(requests, token);
}

/// A message that arrives becomes the response of every request with its token that has none yet,
/// wherever that stands, and changes the response of no other. No task waits for the request any
/// more, and nothing else of it changes.
pub proof fn law_delivery_reaches_every_request(
    requests: Seq<PendingView>,
    packet: PacketView,
    i: int,
)
    requires
        0 <= i < requests.len(),
    ensures
        crate::requests::after_delivery(requests, packet).len() == requests.len(),
        requests[i].response is None && requests[i].token == packet.token
            ==> crate::requests::after_delivery(requests, packet)[i].response == Some(packet),
        requests[i].response is Some || requests[i].token != packet.token
            ==> crate::requests::after_delivery(requests, packet)[i].response
            == requests[i].response,
        crate::requests::after_delivery(requests, packet)[i].token == requests[i].token,
        crate::requests::after_delivery(requests, packet)[i].is_observer
            == requests[i].is_observer,
        crate::requests::after_delivery(requests, packet)[i].is_stale == requests[i].is_stale,
        !crate::requests::after_delivery(requests, packet)[i].waiting,
{
}

/// A request without a response is given the next message with its token, wherever the request
/// stands: that is what the next task that asks for the token gets, unless a response to the token
/// was there in front.
pub proof fn law_delivered_response_is_given(
    requests: Seq<PendingView>,
    packet: PacketView,
    i: int,
)
    requires
        0 <= i < requests.len(),
        requests[i].response is None,
        requests[i].token == packet.token,
        forall|j: int| 0 <= j < i ==> !#[trigger] has_response(requests, packet.token, j),
    ensures
        crate::requests::response_for(
            crate::requests::after_delivery(requests, packet),
            packet.token,
        ) == Some(packet),
{
    let delivered = crate::requests::after_delivery(requests, packet);
    law_delivery_reaches_every_request(requests, packet, i);
    lemma_first(delivered, packet.token);
    let first = crate::requests::first_answered(delivered, packet.token) as int;
    assert(has_response(delivered, packet.token, i));
    assert(first <= i);
    law_delivery_reaches_every_request(requests, packet, first);
    assert(first < i ==> !has_response(requests, packet.token, first));
}

/// An observer is given each response in turn, wherever it stands: once its response was taken, the
/// next message with its token is what the next task that asks is given.
pub proof fn law_observer_anywhere_gets_the_next_response(
    requests: Seq<PendingView>,
    token: Seq<u8>,
    k: int,
    next: PacketView,
)
    requires
        first_response_at(requests, token, k),
        requests[k].is_observer,
        next.token == token,
    ensures
        crate::requests::response_for(
            crate::requests::after_delivery(crate::requests::after_asking(requests, token), next),
            token,
        ) == Some(next),
{
    law_asking_takes_the_first_response(requests, token, k);
    let asked = crate::requests::after_asking(requests, token);
    assert forall|j: int| 0 <= j < k implies !#[trigger] has_response(asked, token, j) by {
        assert(!has_response(requests, token, j));
        assert(asked[j].response == requests[j].response);
    }
    law_delivered_response_is_given(asked, next, k);
}

/// To ask for one token does not change what is given for another.
pub proof fn law_asking_keeps_other_responses(
    requests: Seq<PendingView>,
    token: Seq<u8>,
    other: Seq<u8>,
)
    requires
        token != other,
    ensures
        crate::requests::response_for(crate::requests::after_asking(requests, token), other)
            == crate::requests::response_for(requests, other),
{
    let after = crate::requests::after_asking(requests, token);
    lemma_first(requests, token);
    lemma_first(requests, other);
    lemma_first(after, other);
    let k = crate::requests::first_answered(requests, token) as int;
    let m = crate::requests::first_answered(requests, other) as int;
    let removed = k < requests.len() && !requests[k].is_observer;
    if k < requests.len() {
        law_asking_takes_the_first_response(requests, token, k);
    } else {
        law_asking_without_a_response_waits(requests, token);
    }
    assert forall|i: int| 0 <= i < after.len() implies after[i].token == requests[
        if removed && i >= k { i + 1 } else { i }
    ].token && (after[i].token == other ==> #[trigger] after[i].response == requests[
        if removed && i >= k { i + 1 } else { i }
    ].response) by {
        if k < requests.len() && i == k && requests[k].is_observer {
            assert(after[k].token == token);
        }
    }
    if m < requests.len() {
        let there = if removed && m > k {
            m - 1
        } else {
            m
        };
        assert(m != k);
        assert(has_response(after, other, there));
        assert forall|i: int| 0 <= i < there implies !#[trigger] has_response(after, other, i) by {
            let from = if removed && i >= k {
                i + 1
            } else {
                i
            };
            assert(!has_response(requests, other, from));
            assert(after[i].token == requests[from].token);
            assert(after[i].token == other ==> after[i].response == requests[from].response);
        }
        assert(first_response_at(after, other, there));
    } else {
        let first = crate::requests::first_answered(after, other) as int;
        if first < after.len() {
            let from = if removed && first >= k {
                first + 1
            } else {
                first
            };
            assert(has_response(after, other, first));
            assert(after[first].response == requests[from].response);
            assert(has_response(requests, other, from));
        }
    }
}

/// A message that arrives does not change what is given for another token.
pub proof fn law_delivery_keeps_other_responses(
    requests: Seq<PendingView>,
    packet: PacketView,
    other: Seq<u8>,
)
    requires
        packet.token != other,
    ensures
        crate::requests::response_for(crate::requests::after_delivery(requests, packet), other)
            == crate::requests::response_for(requests, other),
{
    let delivered = crate::requests::after_delivery(requests, packet);
    lemma_first(requests, other);
    lemma_first(delivered, other);
    assert(forall|i: int| #[trigger]
        has_response(delivered, other, i) == has_response(requests, other, i));
    let k = crate::requests::first_answered(requests, other) as int;
    if k < requests.len() {
        assert(first_response_at(delivered, other, k));
    } else {
        let first = crate::requests::first_answered(delivered, other) as int;
        assert(first < delivered.len() ==> has_response(requests, other, first));
    }
}

/// To register a request does not change what is given for any token.
pub proof fn law_registering_keeps_responses(
    requests: Seq<PendingView>,
    token: Seq<u8>,
    is_observer: bool,
    asked: Seq<u8>,
)
    ensures
        crate::requests::response_for(
            requests.push(crate::requests::new_request(token, is_observer)),
            asked,
        ) == crate::requests::response_for(requests, asked),
{
    let registered = requests.push(crate::requests::new_request(token, is_observer));
    lemma_first(requests, asked);
    lemma_first(registered, asked);
    assert(forall|i: int| #[trigger]
        has_response(registered, asked, i) == has_response(requests, asked, i));
    let k = crate::requests::first_answered(requests, asked) as int;
    if k < requests.len() {
        assert(first_response_at(registered, asked, k));
    } else {
        let first = crate::requests::first_answered(registered, asked) as int;
        assert(first < registered.len() ==> has_response(requests, asked, first));
    }
}

/// A message that arrives wakes the task that waits with a request, wherever that stands and
/// whatever its token is: the task is added to those that were woken. Where no task waits none is
/// woken, and no waker is left.
pub proof fn law_arrival_wakes_every_waiting_task(before: Requests, after: Requests, i: int)
    requires
        0 <= i < before@.len(),
        crate::requests::slots_after_delivery(before, after),
    ensures
        forall|waker: Waker| #[trigger]
            before.slot(i).wakes(waker) ==> exists|woken: Waker|
                {
                    &&& after.slot(i).woken() == #[trigger] before.slot(i).woken().push(woken)
                    &&& forall|registration: embassy_sync::waitqueue::WakerRegistration| #[trigger]
                        crate::requests::wakes(registration, waker) == crate::requests::wakes(
                            registration,
                            woken,
                        )
                },
        (forall|waker: Waker| !#[trigger] before.slot(i).wakes(waker)) ==> after.slot(i).woken()
            == before.slot(i).woken(),
        forall|waker: Waker| !#[trigger] after.slot(i).wakes(waker),
{
    crate::requests::lemma_waiting(before, i);
    assert(before@[i].waiting == before.slot(i).occupied());
    if before@[i].waiting {
        assert(crate::requests::one_more_woken(before.slot(i), after.slot(i)));
    }
}

/// The task that asks is the one that waits with each request in front of the one whose response it
/// is given, or with all of them if it is given none. A task that waited there before waits still,
/// or was woken.
pub proof fn law_asking_task_waits(
    before: Requests,
    after: Requests,
    token: Seq<u8>,
    waker: Waker,
    i: int,
)
    requires
        0 <= i < before@.len(),
        forall|j: int| 0 <= j <= i ==> !#[trigger] has_response(before@, token, j),
        crate::requests::slots_after_asking(before, after, token, waker),
    ensures
        after.slot(i).wakes(waker),
        forall|other: Waker| #[trigger]
            after.slot(i).wakes(other) ==> forall|
                registration: embassy_sync::waitqueue::WakerRegistration,
            | #[trigger]
                crate::requests::wakes(registration, other) == crate::requests::wakes(
                    registration,
                    waker,
                ),
        after.slot(i).woken() != before.slot(i).woken() ==> exists|woken: Waker|
            {
                &&& after.slot(i).woken() == #[trigger] before.slot(i).woken().push(woken)
                &&& before.slot(i).wakes(woken)
                &&& forall|other: Waker| #[trigger]
                    before.slot(i).wakes(other) ==> crate::requests::same_task(other, woken)
            },
        after.slot(i).woken() == before.slot(i).woken() ==> forall|other: Waker| #[trigger]
            before.slot(i).wakes(other) ==> after.slot(i).wakes(other),
{
    lemma_first(before@, token);
    let k = crate::requests::first_answered(before@, token) as int;
    if k <= i {
        assert(has_response(before@, token, k));
    }
    assert(after.slot(i).wakes_only(waker));
    assert(crate::requests::kept_or_woken(before.slot(i), after.slot(i)));
    if crate::requests::one_more_woken(before.slot(i), after.slot(i)) {
        assert(after.slot(i).woken().len() == before.slot(i).woken().len() + 1);
    }
}

/// Behind the request whose response is given every request keeps its waker, and the task that waits
/// with an observer whose response is given waits still.
pub proof fn law_asking_keeps_the_wakers_behind(
    before: Requests,
    after: Requests,
    token: Seq<u8>,
    waker: Waker,
    k: int,
    i: int,
)
    requires
        first_response_at(before@, token, k),
        k <= i < before@.len(),
        after@ == crate::requests::after_asking(before@, token),
        crate::requests::slots_after_asking(before, after, token, waker),
    ensures
        before@[k].is_observer ==> after.slot(i) == before.slot(i),
        !before@[k].is_observer && i > k ==> after.slot(i - 1) == before.slot(i),
{
    lemma_first(before@, token);
    law_asking_takes_the_first_response(before@, token, k);
}

/// The bytes of a response are read as they stand: what is delivered has the code, the id and the
/// token that stand at the start of the bytes.
pub proof fn law_response_is_what_its_bytes_say(response: Seq<u8>, packet: PacketView)
    requires
        crate::requests::response_packet(response) == Ok::<PacketView, CoapError>(packet),
        crate::packet::framed_by(crate::requests::response_packet(response), response),
    ensures
        crate::packet::packet_of_bytes(response, vstd::endian::endianness()) == Ok::<
            PacketView,
            CoapError,
        >(packet),
        response.len() >= 4 + response[0] as int % 16,
        packet.code == response[1],
        packet.message_id == response[2] * 256 + response[3],
        packet.token == response.subrange(4, 4 + response[0] as int % 16),
{
}

} // verus!
