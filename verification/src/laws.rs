//! What holds of the library as a whole, stated over the values that the contracts speak of.

pub mod messages;
pub mod requests;
pub mod signal;

use core::task::Waker;

use vstd::prelude::*;

use crate::packet::PacketView;
use crate::requests::{PendingView, Requests};
use crate::LightDBType;

verus! {

/// A response that carries the token of a registered request is what a task that waits for that
/// token is given, unless an earlier response to the same token is still there to be taken.
pub proof fn law_response_reaches_its_request(
    requests: Seq<PendingView>,
    token: Seq<u8>,
    is_observer: bool,
    packet: PacketView,
)
    requires
        packet.token == token,
        forall|i: int| 0 <= i < requests.len() ==> !(#[trigger] requests[i]).answered(token),
    ensures
        crate::requests::response_for(
            crate::requests::after_delivery(
                requests.push(crate::requests::new_request(token, is_observer)),
                packet,
            ),
            token,
        ) == Some(packet),
{
    let registered = requests.push(crate::requests::new_request(token, is_observer));
    let delivered = crate::requests::after_delivery(registered, packet);
    crate::requests::lemma_first_answered(delivered, token);
    let last = requests.len() as int;
    assert(delivered[last].answered(token));
    let first = crate::requests::first_answered(delivered, token) as int;
    assert(first <= last);
    assert(delivered[first] == registered[first].delivered(packet));
    if first < last {
        assert(!requests[first].answered(token));
    }
}

/// The bytes of a response without options that carry the token of a registered request give the
/// task that waits for it the payload in those bytes. `packet` is what is read from them.
pub proof fn law_read_gives_the_payload(
    requests: Seq<PendingView>,
    token: Seq<u8>,
    is_observer: bool,
    response: Seq<u8>,
    packet: PacketView,
)
    requires
        crate::packet::framed_by(Ok(packet), response),
        crate::packet::without_options(response),
        response.subrange(4, 4 + crate::packet::token_len(response)) == token,
        forall|i: int| 0 <= i < requests.len() ==> !(#[trigger] requests[i]).answered(token),
    ensures
        crate::requests::response_for(
            crate::requests::after_delivery(
                requests.push(crate::requests::new_request(token, is_observer)),
                packet,
            ),
            token,
        ) == Some(packet),
        packet.payload == crate::packet::payload_after_token(response),
{
    law_response_reaches_its_request(requests, token, is_observer, packet);
}

/// A request that was answered is gone once its response is taken: a task that asks again for a
/// token that no other request has is given nothing, and the other requests stay as they were, in
/// their order.
pub proof fn law_finished_request_is_removed(
    requests: Seq<PendingView>,
    token: Seq<u8>,
    packet: PacketView,
)
    requires
        packet.token == token,
        forall|i: int| 0 <= i < requests.len() ==> (#[trigger] requests[i]).token != token,
    ensures
        ({
            let answered = crate::requests::after_delivery(
                requests.push(crate::requests::new_request(token, false)),
                packet,
            );
            let taken = crate::requests::after_asking(answered, token);
            &&& crate::requests::response_for(taken, token) is None
            &&& taken =~= crate::requests::after_delivery(requests, packet).map_values(
                |request: PendingView| request.awaited(),
            )
        }),
{
    let registered = requests.push(crate::requests::new_request(token, false));
    let answered = crate::requests::after_delivery(registered, packet);
    let taken = crate::requests::after_asking(answered, token);
    let last = requests.len();
    crate::requests::lemma_first_answered(answered, token);
    assert(answered[last as int].answered(token));
    let first = crate::requests::first_answered(answered, token);
    if first < last {
        assert(answered[first as int].token == requests[first as int].token);
    }
    assert(first == last);
    crate::requests::lemma_first_answered(taken, token);
    let again = crate::requests::first_answered(taken, token);
    if again < taken.len() {
        assert(taken[again as int].token == requests[again as int].token);
    }
}

/// An observer is given each response in turn: after one is taken it stays registered, and the
/// next response with its token is given to the next task that asks.
pub proof fn law_observer_gets_each_response(
    requests: Seq<PendingView>,
    token: Seq<u8>,
    first: PacketView,
    second: PacketView,
)
    requires
        first.token == token,
        second.token == token,
        forall|i: int| 0 <= i < requests.len() ==> (#[trigger] requests[i]).token != token,
    ensures
        ({
            let answered = crate::requests::after_delivery(
                requests.push(crate::requests::new_request(token, true)),
                first,
            );
            let taken = crate::requests::after_asking(answered, token);
            let answered_again = crate::requests::after_delivery(taken, second);
            &&& crate::requests::response_for(answered, token) == Some(first)
            &&& crate::requests::response_for(taken, token) is None
            &&& crate::requests::response_for(answered_again, token) == Some(second)
            &&& taken.last() == crate::requests::new_request(token, true)
        }),
{
    let registered = requests.push(crate::requests::new_request(token, true));
    let answered = crate::requests::after_delivery(registered, first);
    let taken = crate::requests::after_asking(answered, token);
    let answered_again = crate::requests::after_delivery(taken, second);
    let last = requests.len();
    law_response_reaches_its_request(requests, token, true, first);
    crate::requests::lemma_first_answered(answered, token);
    assert(answered[last as int].answered(token));
    let position = crate::requests::first_answered(answered, token);
    if position < last {
        assert(answered[position as int].token == requests[position as int].token);
    }
    assert(position == last);
    crate::requests::lemma_first_answered(taken, token);
    let again = crate::requests::first_answered(taken, token);
    if again < last {
        assert(taken[again as int].token == requests[again as int].token);
    }
    crate::requests::lemma_first_answered(answered_again, token);
    assert(answered_again[last as int].answered(token));
    let position_again = crate::requests::first_answered(answered_again, token);
    if position_again < last {
        assert(answered_again[position_again as int].token
            == requests[position_again as int].token);
    }
}

/// A response is given to no request with another token.
pub proof fn law_foreign_response_is_ignored(
    requests: Seq<PendingView>,
    packet: PacketView,
    i: int,
)
    requires
        0 <= i < requests.len(),
        requests[i].token != packet.token,
    ensures
        crate::requests::after_delivery(requests, packet)[i].response == requests[i].response,
{
}

/// A response that was not taken yet is not replaced by a later one.
pub proof fn law_untaken_response_is_kept(
    requests: Seq<PendingView>,
    packet: PacketView,
    i: int,
)
    requires
        0 <= i < requests.len(),
        requests[i].response is Some,
    ensures
        crate::requests::after_delivery(requests, packet)[i].response == requests[i].response,
{
}

/// A response that arrives twice before it is taken has no further effect.
pub proof fn law_duplicate_response_has_no_effect(
    requests: Seq<PendingView>,
    packet: PacketView,
)
    ensures
        crate::requests::after_delivery(
            crate::requests::after_delivery(requests, packet),
            packet,
        ) == crate::requests::after_delivery(requests, packet),
{
    assert(crate::requests::after_delivery(
        crate::requests::after_delivery(requests, packet),
        packet,
    ) =~= crate::requests::after_delivery(requests, packet));
}

/// A task that asks and is given nothing is the one that waits with every request, and no task that
/// waited before was forgotten: it still waits or was woken. Whatever arrives next wakes the task
/// that asked, from every request, and leaves no waker behind. `asked` are the requests after the
/// task asked, `after` those after the arrival.
pub proof fn law_waiting_tasks_are_woken(
    before: Requests,
    asked: Requests,
    after: Requests,
    token: Seq<u8>,
    waker: Waker,
    i: int,
)
    requires
        0 <= i < before@.len(),
        crate::requests::response_for(before@, token) is None,
        asked@ == crate::requests::after_asking(before@, token),
        crate::requests::slots_after_asking(before, asked, token, waker),
        crate::requests::slots_after_delivery(asked, after),
    ensures
        asked@.len() == before@.len(),
        asked@[i] == before@[i].awaited(),
        asked.slot(i).wakes_only(waker),
        crate::requests::kept_or_woken(before.slot(i), asked.slot(i)),
        crate::requests::task_woken(asked.slot(i), after.slot(i), waker),
        !after.slot(i).occupied(),
{
    crate::requests::lemma_first_answered(before@, token);
    assert(asked@[i].waiting);
    assert(crate::requests::one_more_woken(asked.slot(i), after.slot(i)));
    assert(forall|other: Waker| !after.slot(i).wakes(other));
}

/// A request that is registered later takes no waker from one that was there before, so that the
/// next arrival wakes the task that waits with it. `registered` are the requests after the
/// registration, `after` those after the arrival.
pub proof fn law_registering_keeps_waiting_tasks(
    before: Requests,
    registered: Requests,
    after: Requests,
    token: Seq<u8>,
    is_observer: bool,
    waker: Waker,
    i: int,
)
    requires
        0 <= i < before@.len(),
        before.slot(i).wakes(waker),
        registered@ == before@.push(crate::requests::new_request(token, is_observer)),
        crate::requests::slots_kept(before, registered),
        crate::requests::slots_after_delivery(registered, after),
    ensures
        crate::requests::task_woken(before.slot(i), after.slot(i), waker),
{
    crate::requests::lemma_waiting(registered, i);
    assert(registered@[i] == before@[i]);
    assert(registered.slot(i) == before.slot(i));
    assert(registered@[i].waiting);
    assert(crate::requests::one_more_woken(before.slot(i), after.slot(i)));
}

/// The requests without the marks of the tasks that wait, but for those with `token`.
pub open spec fn others(requests: Seq<PendingView>, token: Seq<u8>) -> Seq<PendingView> {
    requests.map_values(
        |request: PendingView| PendingView { waiting: false, ..request },
    ).filter(|request: PendingView| request.token != token)
}

/// To ask for the response to one token changes nothing of the requests with other tokens but the
/// wakers that are left with them.
pub proof fn law_asking_leaves_other_requests(requests: Seq<PendingView>, token: Seq<u8>)
    ensures
        others(crate::requests::after_asking(requests, token), token) == others(requests, token),
{
    reveal(Seq::filter);
    let still = |request: PendingView| PendingView { waiting: false, ..request };
    let foreign = |request: PendingView| request.token != token;
    let after = crate::requests::after_asking(requests, token);
    crate::requests::lemma_first_answered(requests, token);
    let k = crate::requests::first_answered(requests, token) as int;
    let before_still = requests.map_values(still);
    let after_still = after.map_values(still);
    if k == requests.len() {
        assert(after_still =~= before_still);
    } else {
        let front = before_still.take(k);
        let back = before_still.skip(k + 1);
        assert(before_still =~= front + seq![before_still[k]] + back);
        Seq::filter_distributes_over_add(front + seq![before_still[k]], back, foreign);
        Seq::filter_distributes_over_add(front, seq![before_still[k]], foreign);
        lemma_filter_drops_one(before_still[k], foreign);
        if requests[k].is_observer {
            assert(after_still =~= front + seq![after_still[k]] + back);
            Seq::filter_distributes_over_add(front + seq![after_still[k]], back, foreign);
            Seq::filter_distributes_over_add(front, seq![after_still[k]], foreign);
            lemma_filter_drops_one(after_still[k], foreign);
        } else {
            assert(after_still =~= front + back);
            Seq::filter_distributes_over_add(front, back, foreign);
        }
        assert(front.filter(foreign) + Seq::<PendingView>::empty() =~= front.filter(foreign));
    }
}

/// A filter that drops the only element leaves nothing.
proof fn lemma_filter_drops_one(request: PendingView, keeps: spec_fn(PendingView) -> bool)
    requires
        !keeps(request),
    ensures
        seq![request].filter(keeps) == Seq::<PendingView>::empty(),
{
    reveal_with_fuel(Seq::filter, 2);
    assert(seq![request].drop_last() =~= Seq::<PendingView>::empty());
}

/// The id of the message that is sent `n` messages after the one with the id `first`.
pub open spec fn id_after(first: u16, n: nat) -> u16
    decreases n,
{
    if n == 0 {
        first
    } else {
        crate::golioth::next_id(id_after(first, (n - 1) as nat))
    }
}

/// Message ids count up and start again after the largest one.
pub proof fn law_message_ids_count_up(first: u16, n: nat)
    ensures
        id_after(first, n) == (first + n) % 65536,
    decreases n,
{
    if n > 0 {
        law_message_ids_count_up(first, (n - 1) as nat);
    }
}

/// Any two of 65536 messages in a row have different ids.
pub proof fn law_message_ids_differ(first: u16, i: nat, j: nat)
    requires
        i < j < i + 65536,
    ensures
        id_after(first, i) != id_after(first, j),
{
    law_message_ids_count_up(first, i);
    law_message_ids_count_up(first, j);
}

/// A token has eight bytes.
pub proof fn law_token_has_eight_bytes(ticks: u64)
    ensures
        crate::utils::token_of(ticks).len() == 8,
{
    vstd::bytes::lemma_auto_spec_u64_to_from_le_bytes();
}

/// Two tokens are the same only if the generator gave the same number for both.
pub proof fn law_token_holds_the_number(ticks: u64, other: u64)
    requires
        crate::utils::token_of(ticks) == crate::utils::token_of(other),
    ensures
        crate::utils::wyrand(ticks) == crate::utils::wyrand(other),
{
    vstd::bytes::lemma_auto_spec_u64_to_from_le_bytes();
    let a = vstd::bytes::spec_u64_to_le_bytes(crate::utils::wyrand(ticks));
    let b = vstd::bytes::spec_u64_to_le_bytes(crate::utils::wyrand(other));
    if vstd::endian::endianness() is Big {
        assert(a =~= a.reverse().reverse());
        assert(b =~= b.reverse().reverse());
    }
    assert(a == b);
}

/// Two full paths are the same only if the store and the path within it are.
pub proof fn law_formatted_paths_differ(
    db_type: LightDBType,
    path: Seq<char>,
    other_type: LightDBType,
    other_path: Seq<char>,
)
    requires
        crate::utils::formatted_path(db_type, path) == crate::utils::formatted_path(
            other_type,
            other_path,
        ),
    ensures
        db_type == other_type,
        path == other_path,
{
    let full = crate::utils::formatted_path(db_type, path);
    let other = crate::utils::formatted_path(other_type, other_path);
    assert(full[1] == other[1]);
    assert(path =~= full.skip(3));
    assert(other_path =~= other.skip(3));
}

/// The parts of a path with slashes between them.
pub open spec fn joined(parts: Seq<Seq<char>>) -> Seq<char>
    decreases parts.len(),
{
    if parts.len() == 0 {
        Seq::empty()
    } else if parts.len() == 1 {
        parts[0]
    } else {
        parts[0] + seq!['/'] + joined(parts.drop_first())
    }
}

/// The first slash is a slash.
proof fn lemma_first_slash(path: Seq<char>)
    ensures
        crate::packet::first_slash(path) <= path.len(),
        crate::packet::first_slash(path) < path.len() ==> path[crate::packet::first_slash(
            path,
        ) as int] == '/',
    decreases path.len(),
{
    if path.len() > 0 && path.first() != '/' {
        lemma_first_slash(path.drop_first());
    }
}

/// The parts of a path, joined again, are the path.
proof fn lemma_parts_join(path: Seq<char>)
    ensures
        crate::packet::path_parts(path).len() > 0,
        joined(crate::packet::path_parts(path)) == path,
    decreases path.len(),
{
    lemma_first_slash(path);
    let k = crate::packet::first_slash(path) as int;
    let parts = crate::packet::path_parts(path);
    if k < path.len() {
        let rest = path.skip(k + 1);
        lemma_parts_join(rest);
        assert(parts.drop_first() =~= crate::packet::path_parts(rest));
        assert(joined(parts) =~= path);
    }
}

/// No part of a full path is lost on the way into the options of a message: the segments, joined
/// with slashes, are the path.
pub proof fn law_segments_make_up_the_path(db_type: LightDBType, path: Seq<char>)
    ensures
        joined(crate::packet::path_segments(crate::utils::formatted_path(db_type, path)))
            == crate::utils::formatted_path(db_type, path),
{
    let full = crate::utils::formatted_path(db_type, path);
    lemma_parts_join(full);
    lemma_first_slash(full);
    assert(crate::packet::first_slash(full) > 0) by {
        assert(full.first() == '.');
    }
}

/// Two messages name the same resource only if the store and the path within it are the same.
pub proof fn law_resources_differ(
    db_type: LightDBType,
    path: Seq<char>,
    other_type: LightDBType,
    other_path: Seq<char>,
)
    requires
        crate::packet::path_options(crate::utils::formatted_path(db_type, path))
            == crate::packet::path_options(crate::utils::formatted_path(other_type, other_path)),
    ensures
        db_type == other_type,
        path == other_path,
{
    let full = crate::utils::formatted_path(db_type, path);
    let other = crate::utils::formatted_path(other_type, other_path);
    let segments = crate::packet::path_segments(full);
    let other_segments = crate::packet::path_segments(other);
    let options = crate::packet::path_options(full);
    assert(options.len() == segments.len());
    assert(options.len() == other_segments.len());
    assert forall|i: int| 0 <= i < segments.len() implies segments[i] == other_segments[i] by {
        assert(options[i].value == vstd::utf8::encode_utf8(segments[i]));
        assert(options[i].value == vstd::utf8::encode_utf8(other_segments[i]));
        vstd::utf8::encode_utf8_decode_utf8(segments[i]);
        vstd::utf8::encode_utf8_decode_utf8(other_segments[i]);
    }
    assert(segments =~= other_segments);
    law_segments_make_up_the_path(db_type, path);
    law_segments_make_up_the_path(other_type, other_path);
    law_formatted_paths_differ(db_type, path, other_type, other_path);
}

} // verus!
