use fake_vice_bin::transport::{link, Endpoint};
use fake_vice_bin::{EngineError, FakeViceBin, Register};

fn frame(response_type: u8, error_code: u8, request_id: u32, body: &[u8]) -> Vec<u8> {
    let mut b = vec![0x02, 0x02];
    b.extend_from_slice(&(body.len() as u32).to_le_bytes());
    b.push(response_type);
    b.push(error_code);
    b.extend_from_slice(&request_id.to_le_bytes());
    b.extend_from_slice(body);
    b
}

fn connected() -> (FakeViceBin, Endpoint) {
    let mut fvb = FakeViceBin::new("127.0.0.1", 6502);
    let (engine_end, peer) = link(64 * 1024);
    assert_eq!(fvb.connect(engine_end), Ok(()));
    (fvb, peer)
}

#[test]
fn send_reset_before_connect_fails() {
    let mut fvb = FakeViceBin::new("127.0.0.1", 6502);
    assert!(!fvb.is_connected());
    assert_eq!(fvb.send_reset(), Err(EngineError::NotConnected));
    assert!(!fvb.is_reset_pending());
}

#[test]
fn every_send_needs_a_connection() {
    let mut fvb = FakeViceBin::new("127.0.0.1", 6502);
    assert_eq!(fvb.send_exit(), Err(EngineError::NotConnected));
    assert_eq!(fvb.send_ping(), Err(EngineError::NotConnected));
    assert_eq!(fvb.send_load("main.prg", true), Err(EngineError::NotConnected));
    assert!(!fvb.is_load_pending());
    assert_eq!(fvb.send_registers_available(0), Err(EngineError::NotConnected));
    assert_eq!(fvb.send_advance_instructions(1), Err(EngineError::NotConnected));
    assert_eq!(fvb.update(), Err(EngineError::NotConnected));
}

#[test]
fn connecting_twice_fails() {
    let (mut fvb, _peer) = connected();
    let (second, _other) = link(16);
    assert_eq!(fvb.connect(second), Err(EngineError::AlreadyConnected));
    assert!(fvb.is_connected());
}

#[test]
fn reconnect_after_disconnect() {
    let (mut fvb, _peer) = connected();
    fvb.send_reset().unwrap();
    assert_eq!(fvb.disconnect(), Ok(()));
    assert!(!fvb.is_connected());
    assert!(!fvb.is_reset_pending());
    let (again, _other) = link(16);
    assert_eq!(fvb.connect(again), Ok(()));
    assert_eq!(fvb.session().next_request_id(), 0);
}

#[test]
fn host_and_port_are_kept() {
    let fvb = FakeViceBin::new("10.0.0.2", 6510);
    assert_eq!(fvb.host(), "10.0.0.2");
    assert_eq!(fvb.port(), 6510);
}

#[test]
fn send_load_encodes_body_and_marks_load_pending() {
    let (mut fvb, mut peer) = connected();
    assert_eq!(fvb.send_load("main.prg", true), Ok(()));
    assert!(fvb.is_load_pending());
    let out = peer.receive();
    assert_eq!(out.len(), 12 + 12);
    assert_eq!(out[6], 0xdd);
    assert_eq!(
        &out[12..],
        &[0x01, 0x00, 0x00, 0x08, b'm', b'a', b'i', b'n', b'.', b'p', b'r', b'g']
    );
}

#[test]
fn send_load_with_long_name_fails_without_side_effects() {
    let (mut fvb, mut peer) = connected();
    let name = "b".repeat(300);
    assert_eq!(fvb.send_load(&name, false), Err(EngineError::Encoding));
    assert!(!fvb.is_load_pending());
    assert_eq!(fvb.session().next_request_id(), 0);
    assert!(peer.receive().is_empty());
}

#[test]
fn load_response_clears_load_pending() {
    let (mut fvb, mut peer) = connected();
    fvb.send_load("a.prg", false).unwrap();
    peer.send(&frame(0xdd, 0, 0, &[]));
    assert_eq!(fvb.update(), Ok(vec![]));
    assert!(!fvb.is_load_pending());
}

#[test]
fn request_ids_count_up() {
    let (mut fvb, mut peer) = connected();
    fvb.send_ping().unwrap();
    fvb.send_exit().unwrap();
    fvb.send_advance_instructions(0x0102).unwrap();
    let out = peer.receive();
    assert_eq!(out.len(), 12 + 12 + 15);
    assert_eq!(&out[8..12], &[0, 0, 0, 0]);
    assert_eq!(&out[20..24], &[1, 0, 0, 0]);
    assert_eq!(&out[32..36], &[2, 0, 0, 0]);
    assert_eq!(&out[36..], &[0x00, 0x02, 0x01]);
    assert_eq!(fvb.session().next_request_id(), 3);
}

#[test]
fn reset_is_counted_until_acknowledged() {
    let (mut fvb, mut peer) = connected();
    fvb.send_reset().unwrap();
    assert!(fvb.is_reset_pending());
    assert_eq!(fvb.session().resets_pending(), 1);
    fvb.send_reset().unwrap();
    assert_eq!(fvb.session().resets_pending(), 2);
    peer.send(&frame(0xcc, 0, 0, &[]));
    fvb.update().unwrap();
    assert_eq!(fvb.session().resets_pending(), 1);
    assert!(fvb.is_reset_pending());
    peer.send(&frame(0xcc, 0, 1, &[]));
    fvb.update().unwrap();
    assert_eq!(fvb.session().resets_pending(), 0);
    assert!(!fvb.is_reset_pending());
}

#[test]
fn duplicate_reset_response_never_goes_below_zero() {
    let (mut fvb, mut peer) = connected();
    fvb.send_reset().unwrap();
    peer.send(&frame(0xcc, 0, 0, &[]));
    peer.send(&frame(0xcc, 0, 0, &[]));
    peer.send(&frame(0xcc, 0, 0, &[]));
    fvb.update().unwrap();
    assert_eq!(fvb.session().resets_pending(), 0);
    assert!(!fvb.is_reset_pending());
}

#[test]
fn frame_split_into_chunks_decodes_once() {
    let (mut fvb, mut peer) = connected();
    let f = frame(0x62, 0, 0, &[0x00, 0xc0]);
    assert!(fvb.is_running());
    for chunk in [&f[0..1], &f[1..7], &f[7..12], &f[12..13]] {
        peer.send(chunk);
        assert_eq!(fvb.update(), Ok(vec![]));
        assert!(fvb.is_running());
        assert_eq!(fvb.program_counter(), 0);
    }
    peer.send(&f[13..]);
    fvb.update().unwrap();
    assert!(!fvb.is_running());
    assert_eq!(fvb.program_counter(), 0xc000);
}

#[test]
fn process_bytes_in_single_byte_pieces() {
    let mut fvb = FakeViceBin::new("127.0.0.1", 6502);
    let f = frame(0x63, 0, 0, &[0x34, 0x12]);
    for b in &f[..f.len() - 1] {
        assert_eq!(fvb.process_bytes(&[*b]), Ok(vec![]));
        assert_eq!(fvb.program_counter(), 0);
    }
    fvb.process_bytes(&f[f.len() - 1..]).unwrap();
    assert!(fvb.is_running());
    assert_eq!(fvb.program_counter(), 0x1234);
}

#[test]
fn two_frames_in_one_push() {
    let mut fvb = FakeViceBin::new("127.0.0.1", 6502);
    let mut bytes = frame(0x62, 0, 0, &[0x01, 0x00]);
    bytes.extend(frame(0x63, 0, 0, &[0x02, 0x00]));
    fvb.process_bytes(&bytes).unwrap();
    assert!(fvb.is_running());
    assert_eq!(fvb.program_counter(), 2);
}

#[test]
fn registers_are_created_then_updated() {
    let (mut fvb, mut peer) = connected();
    fvb.send_registers_available(0).unwrap();
    let body = [0x01, 0x00, 0x05, 0x03, 0x10, 0x01, b'P', b'C'];
    peer.send(&frame(0x83, 0, 0, &body));
    fvb.update().unwrap();
    let pc: &Register = fvb.register(3).unwrap();
    assert_eq!(pc.name(), "PC");
    assert_eq!(pc.size(), 16);
    assert_eq!(pc.value(), 0);
    peer.send(&frame(0x31, 0, 0, &[0x02, 0x00, 0x03, 0x03, 0x00, 0xc0, 0x03, 0x09, 0x07, 0x00]));
    fvb.update().unwrap();
    let pc = fvb.register(3).unwrap();
    assert_eq!(pc.name(), "PC");
    assert_eq!(pc.value(), 0xc000);
    let other = fvb.register(9).unwrap();
    assert_eq!(other.name(), "");
    assert_eq!(other.value(), 7);
    assert!(fvb.register(4).is_none());
}

#[test]
fn unhandled_response_is_reported_not_fatal() {
    let mut fvb = FakeViceBin::new("127.0.0.1", 6502);
    let bytes = frame(0x42, 0x80, 0x0102_0304, &[9]);
    assert_eq!(
        fvb.process_bytes(&bytes),
        Ok(vec![EngineError::UnhandledResponse {
            response_type: 0x42,
            error_code: 0x80,
            request_id: 0x0102_0304
        }])
    );
}

#[test]
fn bad_header_is_a_protocol_error() {
    let mut fvb = FakeViceBin::new("127.0.0.1", 6502);
    let mut bytes = frame(0x62, 0, 0, &[0x00, 0x10]);
    bytes[0] = 0x07;
    assert_eq!(fvb.process_bytes(&bytes), Err(EngineError::Protocol));
    assert_eq!(fvb.program_counter(), 0);
}

#[test]
fn body_shorter_than_its_count_is_a_short_body_error() {
    let mut fvb = FakeViceBin::new("127.0.0.1", 6502);
    let bytes = frame(0x31, 0, 0, &[0x05, 0x00, 0x03, 0x01]);
    assert_eq!(fvb.process_bytes(&bytes), Err(EngineError::ShortBody));
}

#[test]
fn link_carries_bytes_both_ways_in_order() {
    let (mut a, mut b) = link(8);
    a.send(&[1, 2, 3, 4, 5, 6, 7, 8, 9, 10]);
    assert_eq!(a.backlog_len(), 2);
    assert_eq!(b.receive(), vec![1, 2, 3, 4, 5, 6, 7, 8]);
    a.flush();
    assert_eq!(a.backlog_len(), 0);
    assert_eq!(b.receive(), vec![9, 10]);
    b.send(&[42]);
    assert_eq!(a.receive(), vec![42]);
    assert!(a.receive().is_empty());
}

#[test]
fn register_setters_and_getters() {
    let mut r = Register::default();
    assert_eq!(r.name(), "");
    r.set_name("X");
    r.set_value(0xbeef);
    r.set_size(16);
    assert_eq!(r.name(), "X");
    assert_eq!(r.value(), 0xbeef);
    assert_eq!(r.size(), 16);
}
