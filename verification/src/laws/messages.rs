//! What the messages of a read, a write and an observation are, in the numbers of the wire format.

use vstd::prelude::*;

use crate::golioth::{Golioth, Request, WriteError};
use crate::packet::{Error, MessageType, OptionView, PacketView};
use crate::LightDBType;

verus! {

/// The bytes start with this first byte and code, then the message id in network order, then the
/// eight bytes of the token.
pub open spec fn starts_as(bytes: Seq<u8>, first: u8, code: u8, id: u16, token: Seq<u8>) -> bool {
    &&& bytes.len() >= 12
    &&& bytes[0] == first
    &&& bytes[1] == code
    &&& bytes[2] * 256 + bytes[3] == id
    &&& bytes.subrange(4, 12) == token
}

/// The request carries `packet`: the message, the token and the bytes are those of the packet, the
/// bytes fit into a packet, and they are read as the packet again where the machine's byte order
/// allows it.
pub open spec fn carries(request: Request, packet: PacketView) -> bool {
    &&& request.packet@ == packet
    &&& request.token@ == packet.token
    &&& request.bytes@.len() <= 1280
    &&& crate::packet::bytes_of_packet(packet) matches Ok(bytes) && bytes == request.bytes@
    &&& vstd::endian::endianness() is Little || packet.options_short() ==> {
        &&& crate::packet::packet_of_bytes(
            request.bytes@,
            vstd::endian::endianness(),
        ) matches Ok(read)
        &&& read == packet
    }
}

/// A full path starts with a dot, `d` for state or `s` for stream, and a slash; the rest is the path
/// within the store.
pub proof fn law_path_names_its_store(db_type: LightDBType, path: Seq<char>)
    ensures
        ({
            let full = crate::utils::formatted_path(db_type, path);
            &&& full.len() == path.len() + 3
            &&& full[0] == '.'
            &&& db_type is State ==> full[1] == 'd'
            &&& db_type is Stream ==> full[1] == 's'
            &&& full[2] == '/'
            &&& full.skip(3) == path
        }),
{
    assert(crate::utils::formatted_path(db_type, path).skip(3) =~= path);
}

/// The message of a read is a confirmable GET with the id, the token and the path that it was given,
/// in the JSON format and without a payload.
pub proof fn law_read_message(message_id: u16, token: Seq<u8>, path: Seq<char>)
    ensures
        crate::golioth::read_packet(message_id, token, path) == (PacketView {
            version: 1,
            message_type: MessageType::Confirmable,
            code: 1,
            message_id,
            token,
            options: crate::packet::path_options(path).push(
                OptionView { number: 12, value: seq![50u8] },
            ),
            payload: Seq::empty(),
        }),
{
}

/// The message of a write is a POST that is not confirmable, with the id, the token, the path and
/// the payload that it was given, in the JSON format.
pub proof fn law_write_message(
    message_id: u16,
    token: Seq<u8>,
    path: Seq<char>,
    payload: Seq<u8>,
)
    ensures
        crate::golioth::write_packet(message_id, token, path, payload) == (PacketView {
            version: 1,
            message_type: MessageType::NonConfirmable,
            code: 2,
            message_id,
            token,
            options: crate::packet::path_options(path).push(
                OptionView { number: 12, value: seq![50u8] },
            ),
            payload,
        }),
{
}

/// The message of an observation is a confirmable GET with the id, the token and the path that it
/// was given, with the register form of the Observe option and without a payload.
pub proof fn law_observe_message(message_id: u16, token: Seq<u8>, path: Seq<char>)
    ensures
        crate::golioth::observe_packet(message_id, token, path) == (PacketView {
            version: 1,
            message_type: MessageType::Confirmable,
            code: 1,
            message_id,
            token,
            options: seq![OptionView { number: 6, value: Seq::empty() }]
                + crate::packet::path_options(path),
            payload: Seq::empty(),
        }),
{
    assert(crate::packet::observe_option(crate::packet::ObserveOption::Register)
        =~= (OptionView { number: 6, value: Seq::empty() }));
}

/// The options that name a resource are Uri-Path options. They hold the segments of the path, none
/// of which has a slash in it, and joined with slashes they are the path.
pub proof fn law_options_spell_the_path(db_type: LightDBType, path: Seq<char>)
    ensures
        ({
            let full = crate::utils::formatted_path(db_type, path);
            let options = crate::packet::path_options(full);
            let segments = Seq::new(
                options.len(),
                |i: int| vstd::utf8::decode_utf8(options[i].value),
            );
            &&& forall|i: int|
                0 <= i < options.len() ==> (#[trigger] options[i]).number == 11
                    && options[i].value == vstd::utf8::encode_utf8(segments[i])
            &&& forall|i: int|
                0 <= i < segments.len() ==> !(#[trigger] segments[i]).contains('/')
            &&& crate::laws::joined(segments) == full
        }),
{
    let full = crate::utils::formatted_path(db_type, path);
    let options = crate::packet::path_options(full);
    let segments = Seq::new(options.len(), |i: int| vstd::utf8::decode_utf8(options[i].value));
    let parts = crate::packet::path_segments(full);
    crate::laws::law_segments_make_up_the_path(db_type, path);
    lemma_parts_have_no_slash(full);
    assert forall|i: int| 0 <= i < parts.len() implies segments[i] == parts[i] && !(
    #[trigger] parts[i]).contains('/') by {
        vstd::utf8::encode_utf8_decode_utf8(parts[i]);
        let all = crate::packet::path_parts(full);
        if all.first().len() == 0 {
            assert(parts[i] == all[i + 1]);
        } else {
            assert(parts[i] == all[i]);
        }
    }
    assert(segments =~= parts);
}

/// No part of a path has a slash in it.
proof fn lemma_parts_have_no_slash(path: Seq<char>)
    ensures
        forall|i: int|
            0 <= i < crate::packet::path_parts(path).len() ==> !(
            #[trigger] crate::packet::path_parts(path)[i]).contains('/'),
    decreases path.len(),
{
    lemma_no_slash_in_front(path);
    let k = crate::packet::first_slash(path) as int;
    let parts = crate::packet::path_parts(path);
    if k < path.len() {
        let rest = crate::packet::path_parts(path.skip(k + 1));
        lemma_parts_have_no_slash(path.skip(k + 1));
        assert forall|i: int| 0 <= i < parts.len() implies !(#[trigger] parts[i]).contains('/') by {
            if i > 0 {
                assert(parts[i] == rest[i - 1]);
            }
        }
    } else {
        assert(path.take(k) =~= path);
    }
}

/// Nothing in front of the first slash is one.
proof fn lemma_no_slash_in_front(path: Seq<char>)
    ensures
        crate::packet::first_slash(path) <= path.len(),
        !path.take(crate::packet::first_slash(path) as int).contains('/'),
    decreases path.len(),
{
    let k = crate::packet::first_slash(path) as int;
    if k > 0 {
        let rest = path.drop_first();
        lemma_no_slash_in_front(rest);
        assert forall|i: int| 0 <= i < k implies path.take(k)[i] != '/' by {
            if i > 0 {
                assert(path.take(k)[i] == rest.take(k - 1)[i - 1]);
                assert(rest.take(k - 1).contains(rest.take(k - 1)[i - 1]));
            }
        }
    }
}

/// A read sends a confirmable GET without a payload. It carries the id that the counter showed, the
/// token, the path and the JSON format. The counter goes on by one, and a request that is no
/// observer is registered behind the others, which stay as they were, whether or not the message
/// fits into a packet.
pub proof fn law_read_is_a_get(
    before: Golioth,
    after: Golioth,
    result: Result<Request, Error>,
    token: Seq<u8>,
    path: Seq<char>,
)
    requires
        crate::golioth::reads(before, after, result, token, path),
        token.len() == 8,
    ensures
        ({
            let packet = PacketView {
                version: 1,
                message_type: MessageType::Confirmable,
                code: 1,
                message_id: before.message_id_counter,
                token,
                options: crate::packet::path_options(path).push(
                    OptionView { number: 12, value: seq![50u8] },
                ),
                payload: Seq::empty(),
            };
            &&& result is Ok <==> packet.encoded_len() <= 1280
            &&& result matches Ok(request) ==> carries(request, packet) && starts_as(
                request.bytes@,
                0x48,
                1,
                before.message_id_counter,
                token,
            )
            &&& result matches Err(error) ==> error is InvalidPacketLength
        }),
        after.message_id_counter == (before.message_id_counter + 1) % 65536,
        after.requests@.len() == before.requests@.len() + 1,
        forall|i: int|
            0 <= i < before.requests@.len() ==> #[trigger] after.requests@[i]
                == before.requests@[i],
        forall|i: int|
            0 <= i < before.requests@.len() ==> #[trigger] after.requests.slot(i)
                == before.requests.slot(i),
        after.requests@.last().token == token,
        after.requests@.last().response is None,
        !after.requests@.last().is_observer,
        !after.requests@.last().is_stale,
        !after.requests@.last().waiting,
{
    if let Ok(request) = result {
        let bytes = request.bytes@;
        assert(bytes.subrange(4, 4 + crate::packet::token_len(bytes)).len() == 8);
    }
}

/// A write sends a POST that is not confirmable. It carries the id that the counter showed, the
/// token, the path, the JSON format and the payload. The counter goes on by one and no request is
/// registered. A value that could not be serialized is refused with its own error.
pub proof fn law_write_is_a_post<E>(
    before: Golioth,
    after: Golioth,
    result: Result<Request, WriteError<E>>,
    token: Seq<u8>,
    path: Seq<char>,
    payload: Result<Vec<u8>, E>,
)
    requires
        crate::golioth::writes(before, after, result, token, path, payload),
        token.len() == 8,
    ensures
        payload matches Ok(value) ==> {
            let packet = PacketView {
                version: 1,
                message_type: MessageType::NonConfirmable,
                code: 2,
                message_id: before.message_id_counter,
                token,
                options: crate::packet::path_options(path).push(
                    OptionView { number: 12, value: seq![50u8] },
                ),
                payload: value@,
            };
            &&& result is Ok <==> packet.encoded_len() <= 1280
            &&& result matches Ok(request) ==> carries(request, packet) && starts_as(
                request.bytes@,
                0x58,
                2,
                before.message_id_counter,
                token,
            )
            &&& result matches Err(error) ==> {
                &&& error matches WriteError::Message(error)
                &&& error is InvalidPacketLength
            }
        },
        payload matches Err(error) ==> {
            &&& result matches Err(WriteError::Payload(refused))
            &&& refused == error
        },
        after.message_id_counter == (before.message_id_counter + 1) % 65536,
        after.requests == before.requests,
{
    if let Ok(request) = result {
        let bytes = request.bytes@;
        assert(bytes.subrange(4, 4 + crate::packet::token_len(bytes)).len() == 8);
    }
}

/// An observation sends a confirmable GET with the register form of the Observe option and without
/// a payload. It carries the id that the counter showed, the token and the path. The counter goes
/// on by one, and an observer is registered behind the other requests, which stay as they were,
/// whether or not the message fits into a packet.
pub proof fn law_observation_is_a_get_that_registers(
    before: Golioth,
    after: Golioth,
    result: Result<Request, Error>,
    token: Seq<u8>,
    path: Seq<char>,
)
    requires
        crate::golioth::observes(before, after, result, token, path),
        token.len() == 8,
    ensures
        ({
            let packet = PacketView {
                version: 1,
                message_type: MessageType::Confirmable,
                code: 1,
                message_id: before.message_id_counter,
                token,
                options: seq![OptionView { number: 6, value: Seq::empty() }]
                    + crate::packet::path_options(path),
                payload: Seq::empty(),
            };
            &&& result is Ok <==> packet.encoded_len() <= 1280
            &&& result matches Ok(request) ==> carries(request, packet) && starts_as(
                request.bytes@,
                0x48,
                1,
                before.message_id_counter,
                token,
            )
            &&& result matches Err(error) ==> error is InvalidPacketLength
        }),
        after.message_id_counter == (before.message_id_counter + 1) % 65536,
        after.requests@.len() == before.requests@.len() + 1,
        forall|i: int|
            0 <= i < before.requests@.len() ==> #[trigger] after.requests@[i]
                == before.requests@[i],
        forall|i: int|
            0 <= i < before.requests@.len() ==> #[trigger] after.requests.slot(i)
                == before.requests.slot(i),
        after.requests@.last().token == token,
        after.requests@.last().response is None,
        after.requests@.last().is_observer,
        !after.requests@.last().is_stale,
        !after.requests@.last().waiting,
{
    if let Ok(request) = result {
        let bytes = request.bytes@;
        assert(bytes.subrange(4, 4 + crate::packet::token_len(bytes)).len() == 8);
    }
}

/// `request` is a read, a write or an observation that was sent. `E` is the error of an attempt to
/// serialize a value.
pub open spec fn sent_message<E>(before: Golioth, after: Golioth, request: Request) -> bool {
    ||| exists|token: Seq<u8>, path: Seq<char>| #[trigger]
        crate::golioth::reads(before, after, Ok(request), token, path)
    ||| exists|token: Seq<u8>, path: Seq<char>, payload: Result<Vec<u8>, E>| #[trigger]
        crate::golioth::writes(before, after, Ok(request), token, path, payload)
    ||| exists|token: Seq<u8>, path: Seq<char>| #[trigger]
        crate::golioth::observes(before, after, Ok(request), token, path)
}

/// The id in the bytes of a message is the number that the counter showed, and the counter shows
/// the next one afterwards.
pub proof fn law_message_takes_the_next_id<E>(before: Golioth, after: Golioth, request: Request)
    requires
        sent_message::<E>(before, after, request),
    ensures
        request.packet@.message_id == before.message_id_counter,
        request.bytes@[2] * 256 + request.bytes@[3] == before.message_id_counter,
        after.message_id_counter == (before.message_id_counter + 1) % 65536,
{
}

/// In a row of messages, whatever they do, the id in the bytes of the message at `n` is the first id
/// and `n` more, starting again after the largest.
pub proof fn law_nth_message_has_the_nth_id<E>(
    states: Seq<Golioth>,
    requests: Seq<Request>,
    n: int,
)
    requires
        states.len() == requests.len() + 1,
        forall|i: int|
            0 <= i < requests.len() ==> sent_message::<E>(
                states[i],
                states[i + 1],
                #[trigger] requests[i],
            ),
        0 <= n < requests.len(),
    ensures
        requests[n].bytes@[2] * 256 + requests[n].bytes@[3] == (states[0].message_id_counter + n)
            % 65536,
{
    lemma_counter_counts::<E>(states, requests, n);
    law_message_takes_the_next_id::<E>(states[n], states[n + 1], requests[n]);
}

/// The counter after `n` messages.
proof fn lemma_counter_counts<E>(states: Seq<Golioth>, requests: Seq<Request>, n: int)
    requires
        states.len() == requests.len() + 1,
        forall|i: int|
            0 <= i < requests.len() ==> sent_message::<E>(
                states[i],
                states[i + 1],
                #[trigger] requests[i],
            ),
        0 <= n < states.len(),
    ensures
        states[n].message_id_counter == (states[0].message_id_counter + n) % 65536,
    decreases n,
{
    if n > 0 {
        lemma_counter_counts::<E>(states, requests, n - 1);
        law_message_takes_the_next_id::<E>(states[n - 1], states[n], requests[n - 1]);
    }
}

/// No two of 65536 messages in a row carry the same id, so none of them looks like a duplicate of
/// another.
pub proof fn law_messages_in_a_row_differ<E>(
    states: Seq<Golioth>,
    requests: Seq<Request>,
    m: int,
    n: int,
)
    requires
        states.len() == requests.len() + 1,
        forall|i: int|
            0 <= i < requests.len() ==> sent_message::<E>(
                states[i],
                states[i + 1],
                #[trigger] requests[i],
            ),
        0 <= m < n < requests.len(),
        n - m < 65536,
    ensures
        requests[m].bytes@[2] != requests[n].bytes@[2] || requests[m].bytes@[3]
            != requests[n].bytes@[3],
{
    law_nth_message_has_the_nth_id::<E>(states, requests, m);
    law_nth_message_has_the_nth_id::<E>(states, requests, n);
}

/// The number in the bytes of a token, in the byte order of the machine, is one step of the
/// generator from the ticks: the step of the seed, times a mask of itself, with the halves of the
/// product folded together.
pub proof fn law_token_is_one_step_from_the_ticks(ticks: u64)
    ensures
        ({
            let token = crate::utils::token_of(ticks);
            let bytes = if vstd::endian::endianness() is Little {
                token
            } else {
                token.reverse()
            };
            let step = ((ticks + 0xa0761d6478bd642f) % 0x1_0000_0000_0000_0000) as u64;
            let product = (step * (step ^ 0xe7037ed1a0b428db)) as u128;
            &&& token.len() == 8
            &&& vstd::bytes::spec_u64_from_le_bytes(bytes) == ((product >> 64) ^ product) as u64
        }),
{
    vstd::bytes::lemma_auto_spec_u64_to_from_le_bytes();
    let number = vstd::bytes::spec_u64_to_le_bytes(crate::utils::wyrand(ticks));
    assert(number.reverse().reverse() =~= number);
}

} // verus!
