use fake_vice_bin::command::{encode_command, frame};
use fake_vice_bin::{Command, EngineError, Response, ResponseHeader};

fn header_bytes(response_type: u8, body_len: u32, error_code: u8, request_id: u32) -> Vec<u8> {
    let mut b = vec![0x02, 0x02];
    b.extend_from_slice(&body_len.to_le_bytes());
    b.push(response_type);
    b.push(error_code);
    b.extend_from_slice(&request_id.to_le_bytes());
    b
}

#[test]
fn header_reads_every_field() {
    let b = [0x02, 0x02, 0x04, 0x03, 0x02, 0x01, 0x62, 0x80, 0x78, 0x56, 0x34, 0x12];
    let h = ResponseHeader::decode(&b);
    assert!(h.valid());
    assert_eq!(h.stx(), 0x02);
    assert_eq!(h.version(), 0x02);
    assert_eq!(h.body_len(), 0x0102_0304);
    assert_eq!(h.response_type(), 0x62);
    assert_eq!(h.error_code(), 0x80);
    assert_eq!(h.request_id(), 0x1234_5678);
}

#[test]
fn header_from_array_matches_decode() {
    let b: [u8; 12] = [0x02, 0x02, 0x10, 0x00, 0x00, 0x00, 0x31, 0x00, 0x01, 0x00, 0x00, 0x00];
    let h = ResponseHeader::from(&b);
    assert_eq!(h, ResponseHeader::decode(&b));
    assert_eq!(h.body_len(), 16);
    assert_eq!(h.request_id(), 1);
}

#[test]
fn header_with_wrong_marker_is_invalid() {
    let b = [0x03, 0x02, 0, 0, 0, 0, 0x81, 0, 0, 0, 0, 0];
    assert!(!ResponseHeader::decode(&b).valid());
}

#[test]
fn header_with_wrong_version_is_invalid() {
    let b = [0x02, 0x01, 0, 0, 0, 0, 0x81, 0, 0, 0, 0, 0];
    assert!(!ResponseHeader::decode(&b).valid());
}

#[test]
fn header_body_len_uses_all_four_bytes() {
    let b = [0x02, 0x02, 0xff, 0xff, 0xff, 0xff, 0x81, 0, 0, 0, 0, 0];
    assert_eq!(ResponseHeader::decode(&b).body_len(), u32::MAX);
}

#[test]
fn reset_frame_bytes() {
    let f = encode_command(&Command::Reset, 7).unwrap();
    assert_eq!(f, vec![0x02, 0x02, 0x01, 0, 0, 0, 0xcc, 0x00, 0x07, 0, 0, 0, 0x01]);
}

#[test]
fn request_id_is_little_endian() {
    let f = encode_command(&Command::Ping, 0x0a0b_0c0d).unwrap();
    assert_eq!(&f[8..12], &[0x0d, 0x0c, 0x0b, 0x0a]);
    assert_eq!(f.len(), 12);
}

#[test]
fn advance_instructions_count_is_little_endian() {
    let f = encode_command(&Command::AdvanceInstructions { count: 1000 }, 0).unwrap();
    assert_eq!(f[6], 0x71);
    assert_eq!(&f[12..], &[0x00, 0xe8, 0x03]);
}

#[test]
fn registers_available_command_body() {
    let f = encode_command(&Command::RegistersAvailable { memspace: 1 }, 0).unwrap();
    assert_eq!(f[6], 0x83);
    assert_eq!(f[2], 1);
    assert_eq!(&f[12..], &[0x01]);
}

#[test]
fn exit_and_ping_have_empty_bodies() {
    let e = encode_command(&Command::Exit, 0).unwrap();
    let p = encode_command(&Command::Ping, 0).unwrap();
    assert_eq!(e.len(), 12);
    assert_eq!(e[6], 0xaa);
    assert_eq!(p[6], 0x81);
    assert_eq!(&e[2..6], &[0, 0, 0, 0]);
}

#[test]
fn load_frame_body() {
    let cmd = Command::Load { filename: "main.prg".to_string(), autostart: false };
    let f = encode_command(&cmd, 0).unwrap();
    assert_eq!(f[6], 0xdd);
    assert_eq!(f[2], 12);
    assert_eq!(&f[12..], &[0x00, 0x00, 0x00, 0x08, b'm', b'a', b'i', b'n', b'.', b'p', b'r', b'g']);
}

#[test]
fn load_with_255_byte_name_is_encoded() {
    let name = "a".repeat(255);
    let f = encode_command(&Command::Load { filename: name, autostart: true }, 0).unwrap();
    assert_eq!(f.len(), 12 + 4 + 255);
    assert_eq!(&f[2..6], &[0x03, 0x01, 0x00, 0x00]);
    assert_eq!(f[15], 255);
}

#[test]
fn load_with_long_name_fails() {
    let name = "a".repeat(256);
    let r = encode_command(&Command::Load { filename: name, autostart: true }, 0);
    assert_eq!(r, Err(EngineError::Encoding));
}

#[test]
fn frame_puts_header_before_body() {
    let f = frame(0x31, 2, &vec![9, 8, 7]);
    assert_eq!(f, vec![0x02, 0x02, 3, 0, 0, 0, 0x31, 0, 2, 0, 0, 0, 9, 8, 7]);
}

#[test]
fn every_command_round_trips_through_the_header_decoder() {
    let cmds = vec![
        (Command::Reset, 0xcc, vec![0x01]),
        (Command::Exit, 0xaa, vec![]),
        (Command::Load { filename: "x.prg".to_string(), autostart: true }, 0xdd, vec![1, 0, 0, 5, b'x', b'.', b'p', b'r', b'g']),
        (Command::RegistersAvailable { memspace: 0 }, 0x83, vec![0]),
        (Command::RegistersGet, 0x31, vec![]),
        (Command::AdvanceInstructions { count: 0x1234 }, 0x71, vec![0, 0x34, 0x12]),
        (Command::Ping, 0x81, vec![]),
    ];
    for (i, (cmd, type_id, body)) in cmds.into_iter().enumerate() {
        let id = 1000 + i as u32;
        let f = encode_command(&cmd, id).unwrap();
        let h = ResponseHeader::decode(&f[..12]);
        assert!(h.valid());
        assert_eq!(h.response_type(), type_id);
        assert_eq!(h.request_id(), id);
        assert_eq!(h.error_code(), 0);
        assert_eq!(h.body_len() as usize, body.len());
        assert_eq!(&f[12..], &body[..]);
    }
}

fn decode(response_type: u8, error_code: u8, body: &[u8]) -> Option<Response> {
    let h = ResponseHeader::decode(&header_bytes(response_type, body.len() as u32, error_code, 0));
    Response::decode(&h, body)
}

#[test]
fn registers_available_with_two_entries() {
    // count = 2; each entry: size, id, bits, name length L, then L + 1 name bytes
    let body = [
        0x02, 0x00, //
        0x05, 0x03, 0x10, 0x01, b'P', b'C', //
        0x04, 0x00, 0x08, 0x00, b'A',
    ];
    match decode(0x83, 0, &body) {
        Some(Response::RegistersAvailable { descriptions }) => {
            assert_eq!(descriptions.len(), 2);
            assert_eq!(descriptions.get(&0x03), Some(&(0x10, "PC".to_string())));
            assert_eq!(descriptions.get(&0x00), Some(&(0x08, "A".to_string())));
        },
        other => panic!("unexpected {:?}", other),
    }
}

#[test]
fn registers_available_with_invalid_name_gets_placeholder() {
    let body = [0x01, 0x00, 0x04, 0x07, 0x08, 0x00, 0xff];
    match decode(0x83, 0, &body) {
        Some(Response::RegistersAvailable { descriptions }) => {
            assert_eq!(descriptions.get(&0x07), Some(&(0x08, "[INVALID]".to_string())));
        },
        other => panic!("unexpected {:?}", other),
    }
}

#[test]
fn registers_available_short_body_is_none() {
    let body = [0x02, 0x00, 0x05, 0x03, 0x10, 0x01, b'P', b'C'];
    assert!(decode(0x83, 0, &body).is_none());
    assert!(decode(0x83, 0, &[0x01]).is_none());
}

#[test]
fn registers_get_values() {
    let body = [0x02, 0x00, 0x03, 0x01, 0x34, 0x12, 0x03, 0x02, 0xff, 0x00];
    match decode(0x31, 0, &body) {
        Some(Response::RegistersGet { values }) => {
            assert_eq!(values.len(), 2);
            assert_eq!(values.get(&1), Some(&0x1234));
            assert_eq!(values.get(&2), Some(&0x00ff));
        },
        other => panic!("unexpected {:?}", other),
    }
}

#[test]
fn registers_get_later_entry_wins() {
    let body = [0x02, 0x00, 0x03, 0x01, 0x01, 0x00, 0x03, 0x01, 0x02, 0x00];
    match decode(0x31, 0, &body) {
        Some(Response::RegistersGet { values }) => {
            assert_eq!(values.len(), 1);
            assert_eq!(values.get(&1), Some(&2));
        },
        other => panic!("unexpected {:?}", other),
    }
}

#[test]
fn registers_get_short_body_is_none() {
    assert!(decode(0x31, 0, &[0x01, 0x00, 0x03, 0x01]).is_none());
}

#[test]
fn stopped_and_resumed_carry_pc() {
    assert!(matches!(decode(0x62, 0, &[0x00, 0xc0]), Some(Response::Stopped { pc: 0xc000 })));
    assert!(matches!(decode(0x63, 0, &[0x34, 0x12]), Some(Response::Resumed { pc: 0x1234 })));
    assert!(decode(0x62, 0, &[0x00]).is_none());
}

#[test]
fn empty_responses() {
    assert!(matches!(decode(0x71, 0, &[]), Some(Response::AdvanceInstructions)));
    assert!(matches!(decode(0x81, 0, &[]), Some(Response::Ping)));
    assert!(matches!(decode(0xcc, 0, &[]), Some(Response::Reset)));
    assert!(matches!(decode(0xaa, 0, &[]), Some(Response::Exit)));
    assert!(matches!(decode(0xdd, 0, &[]), Some(Response::Load)));
}

#[test]
fn unknown_type_is_invalid_not_a_failure() {
    assert!(matches!(
        decode(0x42, 0x80, &[1, 2, 3]),
        Some(Response::Invalid { response_type: 0x42, error_code: 0x80 })
    ));
}

#[test]
fn load_name_is_sent_as_utf8_bytes() {
    let cmd = Command::Load { filename: "é.prg".to_string(), autostart: true };
    let f = encode_command(&cmd, 0).unwrap();
    assert_eq!(&f[12..], &[0x01, 0x00, 0x00, 0x06, 0xc3, 0xa9, b'.', b'p', b'r', b'g']);
}
