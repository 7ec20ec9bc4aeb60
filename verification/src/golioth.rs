//! The messages that are exchanged with Golioth.

use vstd::prelude::*;

use crate::packet::{
    new_message, set_content_format, set_method, set_observe_flag, set_path, to_bytes,
    ContentFormat, Error, MessageType, ObserveOption, Packet, PacketView, RequestType,
};
use crate::requests::{register_request, Requests};
use crate::utils::{create_token, get_formatted_path};
use crate::LightDBType;

verus! {

/// The message that reads the value at a path.
pub open spec fn read_packet(message_id: u16, token: Seq<u8>, path: Seq<char>) -> PacketView {
    PacketView {
        version: 1,
        message_type: MessageType::Confirmable,
        code: crate::packet::method_code(RequestType::Get),
        message_id,
        token,
        options: crate::packet::path_options(path).push(
            crate::packet::content_format_option(ContentFormat::ApplicationJSON),
        ),
        payload: Seq::empty(),
    }
}

/// The message that writes `payload` to a path. It does not ask for a confirmed response.
pub open spec fn write_packet(
    message_id: u16,
    token: Seq<u8>,
    path: Seq<char>,
    payload: Seq<u8>,
) -> PacketView {
    PacketView {
        version: 1,
        message_type: MessageType::NonConfirmable,
        code: crate::packet::method_code(RequestType::Post),
        message_id,
        token,
        options: crate::packet::path_options(path).push(
            crate::packet::content_format_option(ContentFormat::ApplicationJSON),
        ),
        payload,
    }
}

/// The message that asks to be told of each change of the value at a path.
pub open spec fn observe_packet(message_id: u16, token: Seq<u8>, path: Seq<char>) -> PacketView {
    PacketView {
        version: 1,
        message_type: MessageType::Confirmable,
        code: crate::packet::method_code(RequestType::Get),
        message_id,
        token,
        options: seq![crate::packet::observe_option(ObserveOption::Register)]
            + crate::packet::path_options(path),
        payload: Seq::empty(),
    }
}

/// The token as a vector.
fn token_vec(token: [u8; 8]) -> (bytes: Vec<u8>)
    ensures
        bytes@ == token@,
{
    let mut bytes: Vec<u8> = Vec::new();
    bytes.extend_from_slice(token.as_slice());
    assert(bytes@ =~= token@);
    bytes
}

/// Build the message that reads the value at a path.
pub fn read_message(message_id: u16, token: [u8; 8], path: &str) -> (packet: Packet)
    ensures
        packet@ == read_packet(message_id, token@, path@),
        packet@.encodable(),
        packet.version == 1,
        packet.message_type is Confirmable,
        packet.code == 1,
        packet.message_id == message_id,
        packet.token@ == token@,
        packet.payload@.len() == 0,
{
    let mut packet = new_message();
    packet.message_id = message_id;
    packet.code = set_method(RequestType::Get);
    packet.options = set_path(path);
    packet.options.push(set_content_format(ContentFormat::ApplicationJSON));
    packet.token = token_vec(token);
    assert(packet@ =~= read_packet(message_id, token@, path@));
    packet
}

/// Build the message that writes `payload` to a path.
pub fn write_message(message_id: u16, token: [u8; 8], path: &str, payload: Vec<u8>) -> (packet:
    Packet)
    ensures
        packet@ == write_packet(message_id, token@, path@, payload@),
        packet@.encodable(),
        packet.version == 1,
        packet.message_type is NonConfirmable,
        packet.code == 2,
        packet.message_id == message_id,
        packet.token@ == token@,
        packet.payload@ == payload@,
{
    let mut packet = new_message();
    // message header id distinguishes duplicate messages
    packet.message_id = message_id;
    packet.code = set_method(RequestType::Post);
    // Do not ask for a confirmed response
    packet.message_type = MessageType::NonConfirmable;
    packet.token = token_vec(token);
    packet.options = set_path(path);
    packet.options.push(set_content_format(ContentFormat::ApplicationJSON));
    packet.payload = payload;
    assert(packet@ =~= write_packet(message_id, token@, path@, payload@));
    packet
}

/// Build the message that asks to be told of each change of the value at a path.
pub fn observe_message(message_id: u16, token: [u8; 8], path: &str) -> (packet: Packet)
    ensures
        packet@ == observe_packet(message_id, token@, path@),
        packet@.encodable(),
        packet.version == 1,
        packet.message_type is Confirmable,
        packet.code == 1,
        packet.message_id == message_id,
        packet.token@ == token@,
        packet.payload@.len() == 0,
{
    let mut packet = new_message();
    packet.code = set_method(RequestType::Get);
    packet.options.push(set_observe_flag(ObserveOption::Register));
    let mut path_options = set_path(path);
    packet.options.append(&mut path_options);
    packet.message_id = message_id;
    packet.token = token_vec(token);
    assert(packet@ =~= observe_packet(message_id, token@, path@));
    packet
}

/// A message that is ready to be sent.
#[derive(Debug, PartialEq, Eq)]
pub struct Request {
    /// The token by which the response is known.
    pub token: [u8; 8],
    /// The message.
    pub packet: Packet,
    /// The bytes of the message.
    pub bytes: Vec<u8>,
}

impl Request {
    /// The request sends this packet: its bytes are those of the packet.
    pub open spec fn sends(self, packet: PacketView) -> bool {
        &&& self.token@ == packet.token
        &&& self.packet@ == packet
        &&& crate::packet::bytes_of_packet(packet) matches Ok(bytes) && bytes == self.bytes@
        &&& crate::packet::reads_back(crate::packet::bytes_of_packet(packet), packet)
    }
}

/// A packet is sent if it is not longer than a packet may be, and refused otherwise.
pub open spec fn sent(result: Result<Request, Error>, packet: PacketView) -> bool {
    match result {
        Ok(request) => request.sends(packet) && packet.encoded_len()
            <= crate::packet::max_packet_len(),
        Err(error) => error is InvalidPacketLength && packet.encoded_len()
            > crate::packet::max_packet_len(),
    }
}

/// Put the packet of a request into bytes.
fn send(token: [u8; 8], packet: Packet) -> (result: Result<Request, Error>)
    requires
        packet@.encodable(),
        packet@.token == token@,
    ensures
        sent(result, packet@),
{
    match to_bytes(&packet) {
        Ok(bytes) => Ok(Request { token, packet, bytes }),
        Err(_) => Err(Error::InvalidPacketLength),
    }
}

/// Why a value could not be written.
#[derive(Debug, PartialEq)]
pub enum WriteError<E> {
    /// The value has no serialized form.
    Payload(E),
    /// The message has no wire form.
    Message(Error),
}

/// A value whose message is `packet` is written if the packet can be sent.
pub open spec fn written<E>(result: Result<Request, WriteError<E>>, packet: PacketView) -> bool {
    match result {
        Ok(request) => sent(Ok(request), packet),
        Err(WriteError::Message(error)) => sent(Err(error), packet),
        Err(WriteError::Payload(_)) => false,
    }
}

/// The message id that follows `message_id`.
pub open spec fn next_id(message_id: u16) -> u16 {
    if message_id == u16::MAX {
        0
    } else {
        (message_id + 1) as u16
    }
}

/// The state that is kept between messages to Golioth, should live the length of the program.
pub struct Golioth {
    /// use for CoAP message header ID to avoid requests being flagged as duplicate messages
    pub message_id_counter: u16,
    /// The requests that wait for a response.
    pub requests: Requests,
}

/// A read of `path` takes the next message id, registers a request with `token`, and sends the
/// message if it fits into a packet.
pub open spec fn reads(
    before: Golioth,
    after: Golioth,
    result: Result<Request, Error>,
    token: Seq<u8>,
    path: Seq<char>,
) -> bool {
    &&& sent(result, read_packet(before.message_id_counter, token, path))
    &&& after.message_id_counter == next_id(before.message_id_counter)
    &&& after.requests@ == before.requests@.push(crate::requests::new_request(token, false))
    &&& crate::requests::slots_kept(before.requests, after.requests)
}

/// A write to `path` takes the next message id, registers nothing, and sends the message if the
/// value could be serialized and the message fits into a packet.
pub open spec fn writes<E>(
    before: Golioth,
    after: Golioth,
    result: Result<Request, WriteError<E>>,
    token: Seq<u8>,
    path: Seq<char>,
    payload: Result<Vec<u8>, E>,
) -> bool {
    &&& match payload {
        Ok(payload) => written(
            result,
            write_packet(before.message_id_counter, token, path, payload@),
        ),
        Err(error) => result == Err::<Request, WriteError<E>>(WriteError::Payload(error)),
    }
    &&& after.message_id_counter == next_id(before.message_id_counter)
    &&& after.requests == before.requests
}

/// The observation of `path` takes the next message id, registers an observer with `token`, and
/// sends the message if it fits into a packet.
pub open spec fn observes(
    before: Golioth,
    after: Golioth,
    result: Result<Request, Error>,
    token: Seq<u8>,
    path: Seq<char>,
) -> bool {
    &&& sent(result, observe_packet(before.message_id_counter, token, path))
    &&& after.message_id_counter == next_id(before.message_id_counter)
    &&& after.requests@ == before.requests@.push(crate::requests::new_request(token, true))
    &&& crate::requests::slots_kept(before.requests, after.requests)
}

impl Golioth {
    /// The state before the first message.
    pub fn new() -> (golioth: Self)
        ensures
            golioth.message_id_counter == 0,
            golioth.requests@.len() == 0,
    {
        Golioth { message_id_counter: 0, requests: Requests::new() }
    }

    /// Give out the id of the next message.
    pub fn next_message_id(&mut self) -> (message_id: u16)
        ensures
            message_id == old(self).message_id_counter,
            final(self).message_id_counter == next_id(old(self).message_id_counter),
            final(self).message_id_counter == (old(self).message_id_counter + 1) % 65536,
            final(self).requests == old(self).requests,
    {
        let message_id = self.message_id_counter;
        self.message_id_counter = message_id.wrapping_add(1);
        message_id
    }

    /// Start a read with the given token. The request is registered before its message is put into
    /// bytes, and stays registered if that fails.
    pub fn start_read(&mut self, token: [u8; 8], read_type: LightDBType, path: &str) -> (result:
        Result<Request, Error>)
        ensures
            reads(
                *old(self),
                *final(self),
                result,
                token@,
                crate::utils::formatted_path(read_type, path@),
            ),
    {
        let formatted_path = get_formatted_path(read_type, path);
        let message_id = self.next_message_id();
        let packet = read_message(message_id, token, formatted_path.as_str());
        register_request(&mut self.requests, token, false);
        send(token, packet)
    }

    /// Get a state value from LightDB.  Provides a unique token to prevent packet spoofing.
    ///
    /// What comes back is to be sent; the response is waited for with `request_wait_complete`.
    pub fn lightdb_read(&mut self, read_type: LightDBType, path: &str) -> (result: Result<
        Request,
        Error,
    >)
        ensures
            exists|ticks: u64|
                reads(
                    *old(self),
                    *final(self),
                    result,
                    #[trigger] crate::utils::token_of(ticks),
                    crate::utils::formatted_path(read_type, path@),
                ),
    {
        let token = create_token();
        self.start_read(token, read_type, path)
    }

    /// Start a write with the given token. `payload` is the value in its serialized form, or the
    /// error of the attempt to serialize it. No response is waited for.
    pub fn start_write<E>(
        &mut self,
        token: [u8; 8],
        write_type: LightDBType,
        path: &str,
        payload: Result<Vec<u8>, E>,
    ) -> (result: Result<Request, WriteError<E>>)
        ensures
            writes(
                *old(self),
                *final(self),
                result,
                token@,
                crate::utils::formatted_path(write_type, path@),
                payload,
            ),
    {
        let message_id = self.next_message_id();
        let formatted_path = get_formatted_path(write_type, path);
        match payload {
            Ok(payload) => {
                let packet = write_message(message_id, token, formatted_path.as_str(), payload);
                match send(token, packet) {
                    Ok(request) => Ok(request),
                    Err(error) => Err(WriteError::Message(error)),
                }
            },
            Err(error) => Err(WriteError::Payload(error)),
        }
    }

    /// Post a new value to LightDB state or stream.  Currently, only writes as Non-confirmable.
    ///
    /// What comes back is to be sent.
    pub fn lightdb_write<E>(
        &mut self,
        write_type: LightDBType,
        path: &str,
        payload: Result<Vec<u8>, E>,
    ) -> (result: Result<Request, WriteError<E>>)
        ensures
            exists|ticks: u64|
                writes(
                    *old(self),
                    *final(self),
                    result,
                    #[trigger] crate::utils::token_of(ticks),
                    crate::utils::formatted_path(write_type, path@),
                    payload,
                ),
    {
        let token = create_token();
        self.start_write(token, write_type, path, payload)
    }

    /// Start to observe a path with the given token. The request is registered before its message
    /// is put into bytes, and stays registered if that fails.
    pub fn start_observing(&mut self, token: [u8; 8], path: &str) -> (result: Result<
        Request,
        Error,
    >)
        ensures
            observes(
                *old(self),
                *final(self),
                result,
                token@,
                crate::utils::formatted_path(LightDBType::State, path@),
            ),
    {
        let formatted_path = get_formatted_path(LightDBType::State, path);
        let message_id = self.next_message_id();
        let packet = observe_message(message_id, token, formatted_path.as_str());
        register_request(&mut self.requests, token, true);
        send(token, packet)
    }

    /// Register an observer in LightDB, which is an extended GET.  When the data of the observed
    /// path changes, the client will be notified with the updated state.
    ///
    /// What comes back is to be sent; each response is waited for with `request_wait_complete`.
    pub fn register_observer(&mut self, path: &str) -> (result: Result<Request, Error>)
        ensures
            exists|ticks: u64|
                observes(
                    *old(self),
                    *final(self),
                    result,
                    #[trigger] crate::utils::token_of(ticks),
                    crate::utils::formatted_path(LightDBType::State, path@),
                ),
    {
        let token = create_token();
        self.start_observing(token, path)
    }
}

} // verus!
