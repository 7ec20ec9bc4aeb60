use golioth_rs::golioth::{observe_message, read_message, write_message, Request, WriteError};
use golioth_rs::packet::{Error, MessageType};
use golioth_rs::utils::{create_token, get_formatted_path, token_at};
use golioth_rs::{Golioth, LightDBType};

const TOKEN: [u8; 8] = [1, 2, 3, 4, 5, 6, 7, 8];

fn options(packet: &golioth_rs::packet::Packet) -> Vec<(u16, Vec<u8>)> {
    packet.options.iter().map(|option| (option.number, option.value.clone())).collect()
}

fn write(golioth: &mut Golioth, payload: Vec<u8>) -> Result<Request, WriteError<()>> {
    golioth.start_write(TOKEN, LightDBType::Stream, "t", Ok(payload))
}

#[test]
fn state_path_has_its_prefix() {
    assert_eq!(get_formatted_path(LightDBType::State, "led"), ".d/led");
}

#[test]
fn stream_path_has_its_prefix() {
    assert_eq!(get_formatted_path(LightDBType::Stream, "led"), ".s/led");
}

#[test]
fn empty_and_non_ascii_paths_are_kept() {
    assert_eq!(get_formatted_path(LightDBType::State, ""), ".d/");
    assert_eq!(get_formatted_path(LightDBType::Stream, "/a//b/"), ".s//a//b/");
    assert_eq!(get_formatted_path(LightDBType::State, "t\u{e9}mp"), ".d/t\u{e9}mp");
}

#[test]
fn different_stores_and_paths_give_different_full_paths() {
    let state = get_formatted_path(LightDBType::State, "a");
    let stream = get_formatted_path(LightDBType::Stream, "a");
    let longer = get_formatted_path(LightDBType::State, "a/b");
    assert_ne!(state, stream);
    assert_ne!(state, longer);
}

#[test]
fn token_is_the_first_number_of_the_generator() {
    assert_eq!(token_at(0), 0x111cb3a78f59a58eu64.to_ne_bytes());
    assert_eq!(token_at(42), 0xae4a7cbfdda9b434u64.to_ne_bytes());
    assert_eq!(token_at(u64::MAX), 0xba1dc814e82d5d44u64.to_ne_bytes());
}

#[test]
fn tokens_of_different_ticks_differ() {
    assert_ne!(token_at(1000), token_at(1001));
}

#[test]
fn created_token_has_eight_bytes() {
    assert_eq!(create_token().len(), 8);
}

#[test]
fn read_is_a_confirmable_get() {
    let packet = read_message(0x1234, TOKEN, ".d/led");
    assert_eq!(packet.version, 1);
    assert_eq!(packet.message_type, MessageType::Confirmable);
    assert_eq!(packet.code, 0x01);
    assert_eq!(packet.message_id, 0x1234);
    assert_eq!(packet.token, TOKEN.to_vec());
    assert_eq!(
        options(&packet),
        vec![(11, b".d".to_vec()), (11, b"led".to_vec()), (12, vec![50])]
    );
    assert!(packet.payload.is_empty());
}

#[test]
fn write_is_a_non_confirmable_post() {
    let packet = write_message(7, TOKEN, ".s/led", b"1".to_vec());
    assert_eq!(packet.message_type, MessageType::NonConfirmable);
    assert_eq!(packet.code, 0x02);
    assert_eq!(
        options(&packet),
        vec![(11, b".s".to_vec()), (11, b"led".to_vec()), (12, vec![50])]
    );
    assert_eq!(packet.payload, b"1".to_vec());
}

#[test]
fn observe_is_a_get_with_the_observe_option() {
    let packet = observe_message(7, TOKEN, ".d/led");
    assert_eq!(packet.message_type, MessageType::Confirmable);
    assert_eq!(packet.code, 0x01);
    assert_eq!(
        options(&packet),
        vec![(6, vec![]), (11, b".d".to_vec()), (11, b"led".to_vec())]
    );
}

#[test]
fn leading_slash_gives_no_segment() {
    let packet = read_message(0, TOKEN, "/a/b");
    assert_eq!(options(&packet), vec![(11, b"a".to_vec()), (11, b"b".to_vec()), (12, vec![50])]);
}

#[test]
fn empty_path_gives_no_segment() {
    assert_eq!(options(&read_message(0, TOKEN, "")), vec![(12, vec![50])]);
}

#[test]
fn inner_and_trailing_slashes_give_empty_segments() {
    let packet = read_message(0, TOKEN, "a//b/");
    assert_eq!(
        options(&packet),
        vec![
            (11, b"a".to_vec()),
            (11, vec![]),
            (11, b"b".to_vec()),
            (11, vec![]),
            (12, vec![50])
        ]
    );
}

#[test]
fn segments_joined_again_are_the_path() {
    for path in ["led", "", "/", "a/b/c", "a//b/", "t\u{e9}mp/\u{4e16}"] {
        let full = get_formatted_path(LightDBType::State, path);
        let packet = observe_message(0, TOKEN, &full);
        let segments: Vec<String> = packet
            .options
            .iter()
            .filter(|option| option.number == 11)
            .map(|option| String::from_utf8(option.value.clone()).unwrap())
            .collect();
        assert_eq!(segments.join("/"), full);
    }
}

#[test]
fn different_resources_have_different_options() {
    let state = read_message(0, TOKEN, ".d/a");
    let stream = read_message(0, TOKEN, ".s/a");
    let nested = read_message(0, TOKEN, ".d/a/");
    assert_ne!(options(&state), options(&stream));
    assert_ne!(options(&state), options(&nested));
}

#[test]
fn read_bytes() {
    let mut golioth = Golioth::new();
    let request = golioth.start_read(TOKEN, LightDBType::State, "led").unwrap();
    assert_eq!(request.token, TOKEN);
    assert_eq!(
        request.bytes,
        vec![
            0x48, 0x01, 0x00, 0x00, 1, 2, 3, 4, 5, 6, 7, 8, 0xb2, b'.', b'd', 0x03, b'l', b'e',
            b'd', 0x11, 50
        ]
    );
}

#[test]
fn write_bytes() {
    let mut golioth = Golioth::new();
    let payload: Result<Vec<u8>, ()> = Ok(b"{}".to_vec());
    let request = golioth.start_write(TOKEN, LightDBType::Stream, "led", payload).unwrap();
    assert_eq!(
        request.bytes,
        vec![
            0x58, 0x02, 0x00, 0x00, 1, 2, 3, 4, 5, 6, 7, 8, 0xb2, b'.', b's', 0x03, b'l', b'e',
            b'd', 0x11, 50, 0xff, b'{', b'}'
        ]
    );
}

#[test]
fn observe_bytes() {
    let mut golioth = Golioth::new();
    let request = golioth.start_observing(TOKEN, "led").unwrap();
    assert_eq!(
        request.bytes,
        vec![
            0x48, 0x01, 0x00, 0x00, 1, 2, 3, 4, 5, 6, 7, 8, 0x60, 0x52, b'.', b'd', 0x03, b'l',
            b'e', b'd'
        ]
    );
    assert_eq!(request.packet, observe_message(0, TOKEN, ".d/led"));
}

#[test]
fn bytes_are_read_back() {
    let mut golioth = Golioth::new();
    for len in [1, 12, 13, 268, 269, 700] {
        let path = "x".repeat(len);
        let request = golioth.start_read(TOKEN, LightDBType::State, &path).unwrap();
        let packet = coap_lite::Packet::from_bytes(&request.bytes).unwrap();
        let values: Vec<(u16, Vec<u8>)> = packet
            .options()
            .flat_map(|(number, values)| values.iter().map(move |value| (*number, value.clone())))
            .collect();
        assert_eq!(values, options(&request.packet));
        assert_eq!(packet.get_token(), TOKEN);
        assert_eq!(packet.header.message_id, request.packet.message_id);
        assert!(packet.payload.is_empty());
    }
}

#[test]
fn packet_of_the_largest_size_is_sent() {
    let mut golioth = Golioth::new();
    // 12 bytes of header and token, 3 + 2 of the path, 2 of the format, 1 of the marker.
    let request = write(&mut golioth, vec![0; 1260]).unwrap();
    assert_eq!(request.bytes.len(), 1280);
}

#[test]
fn longer_packet_is_refused() {
    let mut golioth = Golioth::new();
    assert_eq!(
        write(&mut golioth, vec![0; 1261]),
        Err(WriteError::Message(Error::InvalidPacketLength))
    );
}

#[test]
fn value_without_a_serialized_form_is_refused_and_takes_an_id() {
    let mut golioth = Golioth::new();
    let payload: Result<Vec<u8>, u8> = Err(3);
    assert_eq!(
        golioth.start_write(TOKEN, LightDBType::State, "led", payload),
        Err(WriteError::Payload(3))
    );
    assert_eq!(golioth.message_id_counter, 1);
}

#[test]
fn read_and_observe_that_do_not_fit_are_refused() {
    let mut golioth = Golioth::new();
    let path = "x".repeat(1300);
    assert_eq!(
        golioth.start_read(TOKEN, LightDBType::State, &path),
        Err(Error::InvalidPacketLength)
    );
    assert_eq!(golioth.start_observing(TOKEN, &path), Err(Error::InvalidPacketLength));
    assert_eq!(golioth.message_id_counter, 2);
}

#[test]
fn message_ids_count_up_and_wrap() {
    let mut golioth = Golioth::new();
    assert_eq!(golioth.next_message_id(), 0);
    assert_eq!(golioth.next_message_id(), 1);
    golioth.message_id_counter = u16::MAX;
    assert_eq!(golioth.next_message_id(), u16::MAX);
    assert_eq!(golioth.next_message_id(), 0);
}

#[test]
fn message_ids_of_one_round_differ() {
    let mut golioth = Golioth::new();
    let mut seen = vec![false; 65536];
    for _ in 0..65536 {
        let id = golioth.next_message_id() as usize;
        assert!(!seen[id]);
        seen[id] = true;
    }
}

#[test]
fn requests_with_a_token_of_the_clock() {
    let mut golioth = Golioth::new();
    let read = golioth.lightdb_read(LightDBType::State, "led").unwrap();
    let payload: Result<Vec<u8>, ()> = Ok(vec![b'1']);
    let write = golioth.lightdb_write(LightDBType::State, "led", payload).unwrap();
    let observe = golioth.register_observer("led").unwrap();
    assert_eq!(read.packet, read_message(0, read.token, ".d/led"));
    assert_eq!(write.packet, write_message(1, write.token, ".d/led", vec![b'1']));
    assert_eq!(observe.packet, observe_message(2, observe.token, ".d/led"));
    assert_eq!(read.bytes[4..12], read.token);
}

#[test]
fn clone_of_a_packet_is_equal() {
    let packet = write_message(9, TOKEN, ".d/a/b", b"[1]".to_vec());
    assert_eq!(packet.clone(), packet);
}
