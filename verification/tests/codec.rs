use hqm_server::hqm_game::{HQMMessage, HQMTeam};
use hqm_server::hqm_parse::{HQMMessageReader, HQMMessageWriter};
use hqm_server::protocol::write_message;
use hqm_server::updates::write_info;

#[test]
fn write_bits_low_first() {
    let mut w = HQMMessageWriter::new(vec![0u8; 4]);
    w.write_bits(3, 5);
    w.write_bits(6, 0x21);
    assert_eq!(w.get_bytes_written(), 2);
    assert_eq!(w.buf, vec![0x0d, 0x01, 0, 0]);
}

#[test]
fn bits_are_read_as_they_were_written() {
    let mut w = HQMMessageWriter::new(vec![0u8; 16]);
    w.write_bits(5, 19);
    w.write_bits(32, 0xdead_beef);
    w.write_bits(1, 1);
    w.write_bits(11, 0x7fff);
    let n = w.get_bytes_written();
    assert_eq!(n, 7);
    let mut r = HQMMessageReader::new(&w.buf);
    assert_eq!(r.read_bits(5), 19);
    assert_eq!(r.read_bits(32), 0xdead_beef);
    assert_eq!(r.read_bits(1), 1);
    assert_eq!(r.read_bits(11), 0x7ff);
}

#[test]
fn aligned_values_start_at_byte_boundaries() {
    let mut w = HQMMessageWriter::new(vec![0u8; 16]);
    w.write_bits(3, 7);
    w.write_u32_aligned(0x0403_0201);
    w.write_bits(1, 1);
    w.write_byte_aligned(0xaa);
    w.write_bytes_aligned(&[1, 2]);
    assert_eq!(w.get_bytes_written(), 9);
    assert_eq!(&w.buf[0..9], &[7, 1, 2, 3, 4, 1, 0xaa, 1, 2]);
    let mut r = HQMMessageReader::new(&w.buf);
    assert_eq!(r.read_bits(3), 7);
    assert_eq!(r.read_u32_aligned(), 0x0403_0201);
    assert_eq!(r.read_bits(1), 1);
    assert_eq!(r.read_byte_aligned(), 0xaa);
    assert_eq!(r.read_bytes_aligned(2), vec![1, 2]);
}

#[test]
fn written_bytes_are_padded_or_cut() {
    let mut w = HQMMessageWriter::new(vec![9u8; 8]);
    w.write_bytes_aligned_padded(4, b"ab");
    w.write_bytes_aligned_padded(2, b"xyz");
    assert_eq!(w.buf, vec![b'a', b'b', 0, 0, b'x', b'y', 9, 9]);
    assert_eq!(w.get_pos(), 6);
    assert_eq!(w.get_bytes_written(), 6);
}

#[test]
fn old_bits_of_the_buffer_do_not_show() {
    let mut w = HQMMessageWriter::new(vec![0xff; 3]);
    w.write_bits(4, 0);
    assert_eq!(w.get_pos(), 0);
    assert_eq!(w.get_bytes_written(), 1);
    assert_eq!(w.buf, vec![0, 0xff, 0xff]);
}

#[test]
fn past_the_end_there_are_zeros() {
    let mut r = HQMMessageReader::new(&[0xff]);
    assert_eq!(r.read_bits(12), 0xff);
    assert_eq!(r.read_u32_aligned(), 0);
    assert_eq!(r.read_u16_aligned(), 0);
    assert_eq!(r.read_bytes_aligned(3), vec![0, 0, 0]);
}

#[test]
fn words_come_lowest_byte_first() {
    let bytes = [0x34, 0x12, 0, 0, 0x80, 0x3f];
    let mut r = HQMMessageReader::new(&bytes);
    assert_eq!(r.read_u16_aligned(), 0x1234);
    assert_eq!(r.read_f32_aligned(), 1.0f32.to_bits());
}

fn coordinate(n: u8, v: u32, old_v: Option<u32>) -> (u32, u32, usize) {
    let mut w = HQMMessageWriter::new(vec![0u8; 8]);
    w.write_pos(n, v, old_v);
    let bits = 8 * w.pos + w.bit_pos as usize;
    let mut r = HQMMessageReader::new(&w.buf);
    let tag = r.read_bits(2);
    let field = r.read_bits((bits - 2) as u8);
    (tag, field, bits)
}

#[test]
fn coordinates_are_sent_as_differences() {
    assert_eq!(coordinate(17, 100, None), (3, 100, 19));
    assert_eq!(coordinate(17, 100, Some(100)), (0, 0, 5));
    assert_eq!(coordinate(17, 103, Some(100)), (0, 3, 5));
    assert_eq!(coordinate(17, 96, Some(100)), (0, 4, 5));
    assert_eq!(coordinate(17, 104, Some(100)), (1, 4, 8));
    assert_eq!(coordinate(17, 95, Some(100)), (1, 59, 8));
    assert_eq!(coordinate(17, 68, Some(100)), (1, 32, 8));
    assert_eq!(coordinate(17, 132, Some(100)), (2, 32, 14));
    assert_eq!(coordinate(17, 2147, Some(100)), (2, 2047, 14));
    assert_eq!(coordinate(17, 2148, Some(100)), (3, 2148, 19));
    assert_eq!(coordinate(31, 0, Some(2048)), (2, 2048, 14));
    assert_eq!(coordinate(31, 0, Some(2049)), (3, 0, 33));
    assert_eq!(coordinate(31, 0x7fff_ffff, Some(0)), (3, 0x7fff_ffff, 33));
}

fn message_bytes(message: &HQMMessage) -> Vec<u8> {
    let mut w = HQMMessageWriter::new(vec![0u8; 128]);
    write_message(&mut w, message);
    let n = w.get_bytes_written();
    w.buf[0..n].to_vec()
}

#[test]
fn chat_message_on_the_wire() {
    let m = HQMMessage::Chat { player_index: Some(3), message: String::from("hi") };
    assert_eq!(message_bytes(&m), vec![194, 32, 160, 211]);
}

#[test]
fn long_chat_message_is_cut() {
    let m = HQMMessage::Chat { player_index: None, message: "x".repeat(70) };
    let bytes = message_bytes(&m);
    assert_eq!(bytes.len(), 58);
    assert_eq!(&bytes[0..4], &[194, 255, 227, 241]);
}

#[test]
fn chat_message_keeps_seven_bits_of_each_byte() {
    let m = HQMMessage::Chat { player_index: None, message: String::from("\u{e9}") };
    let bytes = message_bytes(&m);
    let mut r = HQMMessageReader::new(&bytes);
    assert_eq!(r.read_bits(6), 2);
    assert_eq!(r.read_bits(6), 63);
    assert_eq!(r.read_bits(6), 2);
    assert_eq!(r.read_bits(7), 0x43);
    assert_eq!(r.read_bits(7), 0x29);
}

#[test]
fn goal_message_on_the_wire() {
    let m = HQMMessage::Goal {
        team: HQMTeam::Blue,
        goal_player_index: Some(7),
        assist_player_index: None,
    };
    assert_eq!(message_bytes(&m), vec![65, 199, 15]);
}

#[test]
fn player_message_on_the_wire() {
    let on_ice = HQMMessage::PlayerUpdate {
        player_name: String::from("Al"),
        object: Some((20, HQMTeam::Red)),
        player_index: 5,
        in_server: true,
    };
    let bytes = message_bytes(&on_ice);
    assert_eq!(bytes.len(), 30);
    assert_eq!(&bytes[0..6], &[64, 17, 42, 200, 6, 0]);
    let gone = HQMMessage::PlayerUpdate {
        player_name: String::from("Al"),
        object: None,
        player_index: 5,
        in_server: false,
    };
    assert_eq!(&message_bytes(&gone)[0..6], &[64, 225, 63, 200, 6, 0]);
}

#[test]
fn server_info_on_the_wire() {
    let bytes = write_info(0xdead_beef, 2, 5, "Test");
    let mut expected = vec![72, 111, 99, 107, 1, 55, 239, 190, 173, 222, 2, 84, 84, 101, 115, 116];
    expected.extend_from_slice(&[0u8; 28]);
    assert_eq!(bytes, expected);
}

#[test]
fn long_server_name_is_cut() {
    let bytes = write_info(0, 0, 3, "A server name that is longer than it may be");
    assert_eq!(bytes.len(), 44);
    assert_eq!(&bytes[12..44], b"A server name that is longer tha");
}
