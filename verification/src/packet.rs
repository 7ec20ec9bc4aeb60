//! CoAP messages as plain values, and their wire format.

use coap_lite::error::MessageError as CoapError;
use coap_lite::MessageType as CoapType;
use coap_lite::{CoapOption, CoapRequest};
use vstd::prelude::*;

verus! {

/// coap-lite's error, which is only carried along.
#[verifier::external_type_specification]
#[verifier::external_body]
pub struct ExCoapError(coap_lite::error::MessageError);

/// Why a message could not be put into bytes or read from them.
#[derive(Debug, PartialEq)]
pub enum Error {
    /// The message is longer than a packet may be.
    InvalidPacketLength,
    /// The bytes are no CoAP message.
    Malformed(CoapError),
}

/// The type of a message.
#[derive(Debug, Clone, Copy, PartialEq, Eq)]
pub enum MessageType {
    Confirmable,
    NonConfirmable,
    Acknowledgement,
    Reset,
}

/// The methods that requests to LightDB use.
#[derive(Debug, Clone, Copy, PartialEq, Eq)]
pub enum RequestType {
    Get,
    Post,
}

/// The content formats that requests to LightDB use.
#[derive(Debug, Clone, Copy, PartialEq, Eq)]
pub enum ContentFormat {
    ApplicationJSON,
}

/// What a request asks of the observation of a resource.
#[derive(Debug, Clone, Copy, PartialEq, Eq)]
pub enum ObserveOption {
    Register,
    Deregister,
}

/// One value of one option of a message.
#[derive(Debug, PartialEq, Eq)]
pub struct PacketOption {
    pub number: u16,
    pub value: Vec<u8>,
}

/// A CoAP message. An option that is given more than once has one entry for each of its values.
#[derive(Debug, PartialEq, Eq)]
pub struct Packet {
    pub version: u8,
    pub message_type: MessageType,
    pub code: u8,
    pub message_id: u16,
    pub token: Vec<u8>,
    pub options: Vec<PacketOption>,
    pub payload: Vec<u8>,
}

/// The mathematical value of a [`PacketOption`].
#[verifier::ext_equal]
pub struct OptionView {
    pub number: u16,
    pub value: Seq<u8>,
}

/// The mathematical value of a [`Packet`].
#[verifier::ext_equal]
pub struct PacketView {
    pub version: u8,
    pub message_type: MessageType,
    pub code: u8,
    pub message_id: u16,
    pub token: Seq<u8>,
    pub options: Seq<OptionView>,
    pub payload: Seq<u8>,
}

impl View for PacketOption {
    type V = OptionView;

    open spec fn view(&self) -> OptionView {
        OptionView { number: self.number, value: self.value@ }
    }
}

impl View for Packet {
    type V = PacketView;

    open spec fn view(&self) -> PacketView {
        PacketView {
            version: self.version,
            message_type: self.message_type,
            code: self.code,
            message_id: self.message_id,
            token: self.token@,
            options: self.options@.map_values(|option: PacketOption| option@),
            payload: self.payload@,
        }
    }
}

impl Clone for PacketOption {
    fn clone(&self) -> (copy: Self)
        ensures
            copy@ == self@,
            copy.number == self.number,
            copy.value@ == self.value@,
    {
        PacketOption { number: self.number, value: self.value.clone() }
    }
}

impl Clone for Packet {
    fn clone(&self) -> (copy: Self)
        ensures
            copy@ == self@,
            copy.version == self.version,
            copy.message_type == self.message_type,
            copy.code == self.code,
            copy.message_id == self.message_id,
            copy.token@ == self.token@,
            copy.payload@ == self.payload@,
            copy.options@.len() == self.options@.len(),
            forall|i: int|
                0 <= i < self.options@.len() ==> (#[trigger] copy.options@[i]).number
                    == self.options@[i].number && copy.options@[i].value@ == self.options@[i].value@,
    {
        let mut options: Vec<PacketOption> = Vec::new();
        for i in 0..self.options.len()
            invariant
                options@.len() == i,
                forall|j: int| 0 <= j < i ==> (#[trigger] options@[j])@ == self.options@[j]@,
        {
            options.push(self.options[i].clone());
        }
        let copy = Packet {
            version: self.version,
            message_type: self.message_type,
            code: self.code,
            message_id: self.message_id,
            token: self.token.clone(),
            options,
            payload: self.payload.clone(),
        };
        assert(copy@.options =~= self@.options);
        copy
    }
}

/// The length that no packet may exceed.
pub open spec fn max_packet_len() -> nat {
    1280
}

/// How many bytes the extended form of an option's delta or length takes.
pub open spec fn extended_len(n: int) -> nat {
    if n < 13 {
        0
    } else if n < 269 {
        1
    } else {
        2
    }
}

/// How many bytes the options take when the option in front of them has the number `previous`.
pub open spec fn options_len(options: Seq<OptionView>, previous: int) -> nat
    decreases options.len(),
{
    if options.len() == 0 {
        0
    } else {
        let option = options.first();
        1 + extended_len(option.number - previous) + extended_len(option.value.len() as int)
            + option.value.len() + options_len(options.drop_first(), option.number as int)
    }
}

impl PacketView {
    /// The options stand in the order of their numbers.
    pub open spec fn options_sorted(self) -> bool {
        forall|i: int, j: int|
            0 <= i <= j < self.options.len() ==> self.options[i].number <= self.options[j].number
    }

    /// A message that has a wire form which says all that the message holds.
    pub open spec fn encodable(self) -> bool {
        &&& self.version < 4
        &&& self.token.len() <= 8
        &&& self.code != 0
        &&& self.options_sorted()
    }

    /// No option number and no option value needs a two-byte extension.
    pub open spec fn options_short(self) -> bool {
        forall|i: int|
            0 <= i < self.options.len() ==> (#[trigger] self.options[i]).number < 269
                && self.options[i].value.len() < 269
    }

    /// The length of the wire form.
    pub open spec fn encoded_len(self) -> nat {
        4 + self.token.len() + options_len(self.options, 0) + if self.payload.len() == 0 {
            0
        } else {
            1 + self.payload.len()
        }
    }
}

/// The number that stands for a message type in the header.
pub open spec fn type_number(message_type: MessageType) -> int {
    match message_type {
        MessageType::Confirmable => 0,
        MessageType::NonConfirmable => 1,
        MessageType::Acknowledgement => 2,
        MessageType::Reset => 3,
    }
}

/// The length of the token that the header announces.
pub open spec fn token_len(bytes: Seq<u8>) -> int {
    (bytes[0] % 16) as int
}

/// The bytes start with a whole header and the whole of the token that it announces.
pub open spec fn has_header(bytes: Seq<u8>) -> bool {
    bytes.len() >= 4 && token_len(bytes) <= 8 && 4 + token_len(bytes) <= bytes.len()
}

/// The packet's header and token are those at the start of the bytes.
pub open spec fn header_matches(packet: PacketView, bytes: Seq<u8>) -> bool {
    &&& packet.version == bytes[0] / 64
    &&& type_number(packet.message_type) == bytes[0] / 16 % 4
    &&& packet.code == bytes[1]
    &&& packet.message_id == bytes[2] * 256 + bytes[3]
    &&& packet.token == bytes.subrange(4, 4 + token_len(bytes))
}

/// The token is followed by nothing, or by the marker in front of a payload.
pub open spec fn without_options(bytes: Seq<u8>) -> bool {
    bytes.len() == 4 + token_len(bytes) || bytes[4 + token_len(bytes)] == 0xff
}

/// What follows the marker after the token.
pub open spec fn payload_after_token(bytes: Seq<u8>) -> Seq<u8> {
    if bytes.len() == 4 + token_len(bytes) {
        Seq::empty()
    } else {
        bytes.skip(5 + token_len(bytes))
    }
}

/// The value of an attempt to read a message from bytes.
pub open spec fn packet_result(result: Result<Packet, CoapError>) -> Result<PacketView, CoapError> {
    match result {
        Ok(packet) => Ok(packet@),
        Err(error) => Err(error),
    }
}

/// The value of an attempt to put a message into bytes.
pub open spec fn bytes_result(result: Result<Vec<u8>, CoapError>) -> Result<Seq<u8>, CoapError> {
    match result {
        Ok(bytes) => Ok(bytes@),
        Err(error) => Err(error),
    }
}

/// What `Packet::from_bytes` of coap-lite reads from `bytes` on a machine of the given byte order.
pub uninterp spec fn packet_of_bytes(bytes: Seq<u8>, order: vstd::endian::Endian) -> Result<PacketView, CoapError>;

/// What `Packet::to_bytes` of coap-lite makes of `packet`.
pub uninterp spec fn bytes_of_packet(packet: PacketView) -> Result<Seq<u8>, CoapError>;

/// What reading `bytes` gives, as far as their frame decides it: bytes without a whole header and
/// token are refused, the header and the token of a message are those at the start of the bytes,
/// and bytes without options are read as a message whose payload is all that follows the marker.
pub open spec fn framed_by(result: Result<PacketView, CoapError>, bytes: Seq<u8>) -> bool {
    &&& !has_header(bytes) ==> result is Err
    &&& result matches Ok(packet) ==> header_matches(packet, bytes) && packet.options_sorted()
    &&& has_header(bytes) && without_options(bytes) ==> {
        &&& result matches Ok(packet)
        &&& packet.options.len() == 0
        &&& packet.payload == payload_after_token(bytes)
    }
}

/// The bytes that were written for `packet` have its encoded length and start with its header and
/// token, and reading them gives the packet again; on a big-endian machine the last is said only
/// where no option field takes two bytes.
pub open spec fn reads_back(written: Result<Seq<u8>, CoapError>, packet: PacketView) -> bool {
    written matches Ok(bytes) ==> {
        &&& bytes.len() == packet.encoded_len()
        &&& has_header(bytes)
        &&& header_matches(packet, bytes)
        &&& vstd::endian::endianness() is Little || packet.options_short() ==> packet_of_bytes(
            bytes,
            vstd::endian::endianness(),
        ) == Ok::<PacketView, CoapError>(packet)
    }
}

/// Reads a message from bytes with coap-lite's `Packet::from_bytes`. What comes back is a function
/// of the bytes and, since option fields of two bytes are read in a way that depends on it, of the
/// machine's byte order. Bytes without a whole header and token are refused. The header and the
/// token of what is read are those at the start of the bytes, and without options the payload is
/// all that follows the marker.
#[verifier::external_body]
pub(crate) fn from_bytes(bytes: &[u8]) -> (result: Result<Packet, CoapError>)
    ensures
        packet_result(result) == packet_of_bytes(bytes@, vstd::endian::endianness()),
        framed_by(packet_result(result), bytes@),
{
    let packet = coap_lite::Packet::from_bytes(bytes)?;
    let message_type = match packet.header.get_type() {
        CoapType::Confirmable => MessageType::Confirmable,
        CoapType::NonConfirmable => MessageType::NonConfirmable,
        CoapType::Acknowledgement => MessageType::Acknowledgement,
        CoapType::Reset => MessageType::Reset,
    };
    let options = packet.options().flat_map(|(number, values)| {
        values.iter().map(move |value| PacketOption { number: *number, value: value.clone() })
    }).collect();
    let version = packet.header.get_version();
    let (code, message_id) = (packet.header.code.into(), packet.header.message_id);
    let token = packet.get_token().to_vec();
    Ok(Packet { version, message_type, code, message_id, token, options, payload: packet.payload })
}

/// Puts a message into bytes with coap-lite's `Packet::to_bytes`. It fails exactly when the wire
/// form is longer than a packet may be. What it writes, `Packet::from_bytes` reads back; on a
/// big-endian machine only where no option field takes two bytes.
#[verifier::external_body]
pub(crate) fn to_bytes(packet: &Packet) -> (result: Result<Vec<u8>, CoapError>)
    requires
        packet@.encodable(),
    ensures
        bytes_result(result) == bytes_of_packet(packet@),
        result is Ok <==> packet@.encoded_len() <= max_packet_len(),
        reads_back(bytes_result(result), packet@),
{
    let mut message = coap_lite::Packet::new();
    message.header.set_version(packet.version);
    message.header.set_type(match packet.message_type {
        MessageType::Confirmable => CoapType::Confirmable,
        MessageType::NonConfirmable => CoapType::NonConfirmable,
        MessageType::Acknowledgement => CoapType::Acknowledgement,
        MessageType::Reset => CoapType::Reset,
    });
    message.header.code = packet.code.into();
    message.header.message_id = packet.message_id;
    message.set_token(packet.token.clone());
    packet.options.iter().for_each(|option| message.add_option(option.number.into(), option.value.clone()));
    message.payload = packet.payload.clone();
    message.to_bytes()
}

/// The index of the first slash, or the length if there is none.
pub open spec fn first_slash(path: Seq<char>) -> nat
    decreases path.len(),
{
    if path.len() == 0 || path.first() == '/' {
        0
    } else {
        1 + first_slash(path.drop_first())
    }
}

/// The parts of a path between its slashes.
pub open spec fn path_parts(path: Seq<char>) -> Seq<Seq<char>>
    decreases path.len(),
{
    let k = first_slash(path) as int;
    if k >= path.len() {
        seq![path]
    } else {
        seq![path.take(k)] + path_parts(path.skip(k + 1))
    }
}

/// The parts of a path without the empty one in front of a leading slash.
pub open spec fn path_segments(path: Seq<char>) -> Seq<Seq<char>> {
    let parts = path_parts(path);
    if parts.first().len() == 0 {
        parts.drop_first()
    } else {
        parts
    }
}

/// The options that name a resource: one for each segment of its path.
pub open spec fn path_options(path: Seq<char>) -> Seq<OptionView> {
    path_segments(path).map_values(
        |segment: Seq<char>|
            OptionView { number: 11, value: vstd::utf8::encode_utf8(segment) },
    )
}

/// The option that says in what format the payload is.
pub open spec fn content_format_option(format: ContentFormat) -> OptionView {
    match format {
        ContentFormat::ApplicationJSON => OptionView { number: 12, value: seq![50u8] },
    }
}

/// The option that registers an observer, or takes its registration back.
pub open spec fn observe_option(flag: ObserveOption) -> OptionView {
    match flag {
        ObserveOption::Register => OptionView { number: 6, value: seq![] },
        ObserveOption::Deregister => OptionView { number: 6, value: seq![1u8] },
    }
}

/// The code of a request.
pub open spec fn method_code(method: RequestType) -> u8 {
    match method {
        RequestType::Get => 1,
        RequestType::Post => 2,
    }
}

/// The message that a request starts from.
pub open spec fn empty_message() -> PacketView {
    PacketView {
        version: 1,
        message_type: MessageType::Confirmable,
        code: 1,
        message_id: 0,
        token: Seq::empty(),
        options: Seq::empty(),
        payload: Seq::empty(),
    }
}

/// The message of a new request of coap-lite, from `CoapRequest::new`: a confirmable GET of version
/// one with nothing else in it.
#[verifier::external_body]
pub(crate) fn new_message() -> (packet: Packet)
    ensures
        packet@ == empty_message(),
{
    let message = CoapRequest::<()>::new().message;
    let message_type = match message.header.get_type() {
        CoapType::Confirmable => MessageType::Confirmable,
        CoapType::NonConfirmable => MessageType::NonConfirmable,
        CoapType::Acknowledgement => MessageType::Acknowledgement,
        CoapType::Reset => MessageType::Reset,
    };
    let options = message.options().flat_map(|(number, values)| {
        values.iter().map(move |value| PacketOption { number: *number, value: value.clone() })
    }).collect();
    let version = message.header.get_version();
    let (code, message_id) = (message.header.code.into(), message.header.message_id);
    let token = message.get_token().to_vec();
    Packet { version, message_type, code, message_id, token, options, payload: message.payload }
}

/// The code that coap-lite's `CoapRequest::set_method` puts into the header.
#[verifier::external_body]
pub(crate) fn set_method(method: RequestType) -> (code: u8)
    ensures
        code == method_code(method),
{
    let mut request: CoapRequest<()> = CoapRequest::new();
    request.set_method(match method {
        RequestType::Get => coap_lite::RequestType::Get,
        RequestType::Post => coap_lite::RequestType::Post,
    });
    request.message.header.code.into()
}

/// The options that coap-lite's `CoapRequest::set_path` gives a new request: the path is split at
/// its slashes, an empty part in front is dropped, and each part becomes one Uri-Path option.
#[verifier::external_body]
pub(crate) fn set_path(path: &str) -> (options: Vec<PacketOption>)
    ensures
        options@.map_values(|option: PacketOption| option@) == path_options(path@),
{
    let mut request: CoapRequest<()> = CoapRequest::new();
    request.set_path(path);
    let number: u16 = CoapOption::UriPath.into();
    let values = request.message.get_option(CoapOption::UriPath);
    values.map_or(Vec::new(), |values| {
        values.iter().map(|value| PacketOption { number, value: value.clone() }).collect()
    })
}

/// The option that coap-lite's `Packet::set_content_format` gives a new packet.
#[verifier::external_body]
pub(crate) fn set_content_format(format: ContentFormat) -> (option: PacketOption)
    ensures
        option@ == content_format_option(format),
{
    let mut message = coap_lite::Packet::new();
    message.set_content_format(match format {
        ContentFormat::ApplicationJSON => coap_lite::ContentFormat::ApplicationJSON,
    });
    let value = message.get_first_option(CoapOption::ContentFormat).unwrap().clone();
    PacketOption { number: CoapOption::ContentFormat.into(), value }
}

/// The option that coap-lite's `CoapRequest::set_observe_flag` gives a new request.
#[verifier::external_body]
pub(crate) fn set_observe_flag(flag: ObserveOption) -> (option: PacketOption)
    ensures
        option@ == observe_option(flag),
{
    let mut request: CoapRequest<()> = CoapRequest::new();
    request.set_observe_flag(match flag {
        ObserveOption::Register => coap_lite::ObserveOption::Register,
        ObserveOption::Deregister => coap_lite::ObserveOption::Deregister,
    });
    let value = request.message.get_first_option(CoapOption::Observe).unwrap().clone();
    PacketOption { number: CoapOption::Observe.into(), value }
}

} // verus!
