use dns_message::name::MAX_JUMPS;
use dns_message::packet_buffer::{PacketBuffer, PacketError};

fn filled(data: &[u8]) -> PacketBuffer {
    let mut buffer = PacketBuffer::new();
    buffer.write(data).unwrap();
    buffer.seek(0);
    buffer
}

const WWW_EXAMPLE_COM: [u8; 17] = [
    3, b'w', b'w', b'w', 7, b'e', b'x', b'a', b'm', b'p', b'l', b'e', 3, b'c', b'o', b'm', 0,
];

#[test]
fn uncompressed_name_decodes() {
    let mut buffer = filled(&WWW_EXAMPLE_COM);
    assert_eq!(buffer.qname().unwrap(), "www.example.com");
    assert_eq!(buffer.pos(), 17);
}

#[test]
fn uncompressed_name_decodes_from_any_offset() {
    let mut buffer = PacketBuffer::new();
    buffer.seek(100);
    buffer.write(&WWW_EXAMPLE_COM).unwrap();
    buffer.seek(100);
    assert_eq!(buffer.qname().unwrap(), "www.example.com");
    assert_eq!(buffer.pos(), 117);
}

#[test]
fn root_name_is_empty() {
    let mut buffer = filled(&[0, 5, b'a']);
    assert_eq!(buffer.qname().unwrap(), "");
    assert_eq!(buffer.pos(), 1);
}

#[test]
fn single_label_has_no_dot() {
    let mut buffer = filled(&[3, b'c', b'o', b'm', 0]);
    assert_eq!(buffer.qname().unwrap(), "com");
    assert_eq!(buffer.pos(), 5);
}

#[test]
fn capital_letters_are_folded() {
    let mut upper = filled(&[
        3, b'W', b'w', b'W', 7, b'E', b'X', b'A', b'M', b'P', b'L', b'E', 3, b'C', b'o', b'M', 0,
    ]);
    let mut lower = filled(&WWW_EXAMPLE_COM);
    let from_upper = upper.qname().unwrap();
    assert_eq!(from_upper, "www.example.com");
    assert_eq!(from_upper, lower.qname().unwrap());
    assert_eq!(upper.pos(), lower.pos());
}

#[test]
fn only_ascii_capitals_are_folded() {
    let mut buffer = filled(&[6, b'A', b'Z', b'@', b'[', b'0', b'-', 0]);
    assert_eq!(buffer.qname().unwrap(), "az@[0-");
}

#[test]
fn high_bytes_become_single_characters() {
    let mut buffer = filled(&[3, 0xE9, 0xC9, 0x7F, 0]);
    assert_eq!(buffer.qname().unwrap(), "\u{e9}\u{c9}\u{7f}");
    assert_eq!(buffer.pos(), 5);
}

#[test]
fn long_length_byte_is_an_ordinary_label() {
    let mut data = vec![0x40];
    data.extend(std::iter::repeat(b'x').take(64));
    data.push(0);
    let mut buffer = filled(&data);
    let name = buffer.qname().unwrap();
    assert_eq!(name.len(), 64);
    assert!(name.chars().all(|c| c == 'x'));
    assert_eq!(buffer.pos(), 66);
}

#[test]
fn self_referential_pointer_is_refused() {
    let mut buffer = filled(&[0xC0, 0x00]);
    assert_eq!(buffer.qname(), Err(PacketError::CompressionLoopExceeded(0)));
}

#[test]
fn self_referential_pointer_reports_where_the_name_began() {
    let mut buffer = PacketBuffer::new();
    buffer.seek(10);
    buffer.write(&[1, b'a', 0xC0, 12]).unwrap();
    buffer.seek(10);
    assert_eq!(buffer.qname(), Err(PacketError::CompressionLoopExceeded(10)));
    assert_eq!(buffer.pos(), 14);
}

#[test]
fn two_pointers_in_a_cycle_are_refused() {
    let mut buffer = filled(&[0xC0, 0x02, 0xC0, 0x00]);
    assert_eq!(buffer.qname(), Err(PacketError::CompressionLoopExceeded(0)));
    assert_eq!(buffer.pos(), 2);
}

#[test]
fn pointer_resumes_behind_its_two_bytes() {
    let mut data = WWW_EXAMPLE_COM.to_vec();
    data.extend_from_slice(&[4, b'm', b'a', b'i', b'l', 0xC0, 0x04, 0x12, 0x34]);
    let mut buffer = filled(&data);
    buffer.seek(17);
    assert_eq!(buffer.qname().unwrap(), "mail.example.com");
    assert_eq!(buffer.pos(), 24);
    assert_eq!(buffer.read_u16(), Ok(0x1234));
}

#[test]
fn pointer_alone_resumes_behind_its_two_bytes() {
    let mut data = WWW_EXAMPLE_COM.to_vec();
    data.extend_from_slice(&[0xC0, 0x00, 0xAB]);
    let mut buffer = filled(&data);
    buffer.seek(17);
    assert_eq!(buffer.qname().unwrap(), "www.example.com");
    assert_eq!(buffer.pos(), 19);
    assert_eq!(buffer.read_byte(), Ok(0xAB));
}

#[test]
fn pointer_offset_uses_fourteen_bits() {
    let mut buffer = PacketBuffer::new();
    buffer.seek(0x0123);
    buffer.write(&[2, b'o', b'k', 0]).unwrap();
    buffer.seek(0);
    buffer.write(&[0xC1, 0x23]).unwrap();
    buffer.seek(0);
    assert_eq!(buffer.qname().unwrap(), "ok");
    assert_eq!(buffer.pos(), 2);
}

#[test]
fn pointer_forward_is_followed() {
    let mut buffer = filled(&[1, b'a', 0xC0, 0x06, 0xFF, 0xFF, 1, b'b', 0]);
    assert_eq!(buffer.qname().unwrap(), "a.b");
    assert_eq!(buffer.pos(), 4);
}

#[test]
fn chain_of_eight_pointers_is_followed() {
    assert_eq!(MAX_JUMPS, 8);
    let mut data = vec![1, b'z', 0];
    for hop in 0..8u8 {
        let target = if hop == 0 { 0 } else { 3 + 2 * (hop - 1) };
        data.extend_from_slice(&[0xC0, target]);
    }
    let mut buffer = filled(&data);
    buffer.seek(3 + 2 * 7);
    assert_eq!(buffer.qname().unwrap(), "z");
    assert_eq!(buffer.pos(), 3 + 2 * 7 + 2);
}

#[test]
fn chain_of_nine_pointers_is_refused() {
    let mut data = vec![1, b'z', 0];
    for hop in 0..9u8 {
        let target = if hop == 0 { 0 } else { 3 + 2 * (hop - 1) };
        data.extend_from_slice(&[0xC0, target]);
    }
    let mut buffer = filled(&data);
    buffer.seek(3 + 2 * 8);
    assert_eq!(buffer.qname(), Err(PacketError::CompressionLoopExceeded(19)));
    assert_eq!(buffer.pos(), 21);
}

#[test]
fn pointer_out_of_the_buffer_is_out_of_bounds() {
    let mut buffer = filled(&[0xFF, 0xFF]);
    assert_eq!(buffer.qname(), Err(PacketError::OutOfBounds(0x3FFF)));
    assert_eq!(buffer.pos(), 2);
    let mut buffer = filled(&[0xC2, 0x00]);
    assert_eq!(buffer.qname(), Err(PacketError::OutOfBounds(512)));
}

#[test]
fn pointer_cut_short_is_out_of_bounds() {
    let mut buffer = PacketBuffer::new();
    buffer.seek(511);
    buffer.write(&[0xC0]).unwrap();
    buffer.seek(511);
    assert_eq!(buffer.qname(), Err(PacketError::OutOfBounds(512)));
    assert_eq!(buffer.pos(), 511);
}

#[test]
fn label_cut_short_is_out_of_bounds() {
    let mut buffer = PacketBuffer::new();
    buffer.seek(508);
    buffer.write(&[5, b'a', b'b', b'c']).unwrap();
    buffer.seek(508);
    assert_eq!(buffer.qname(), Err(PacketError::OutOfBounds(512)));
    assert_eq!(buffer.pos(), 508);
}

#[test]
fn name_without_end_is_out_of_bounds() {
    let data = vec![1u8; 512];
    let mut buffer = filled(&data);
    assert_eq!(buffer.qname(), Err(PacketError::OutOfBounds(512)));
    assert_eq!(buffer.pos(), 0);
}

#[test]
fn name_at_the_end_of_the_buffer_decodes() {
    let mut buffer = PacketBuffer::new();
    buffer.seek(509);
    buffer.write(&[1, b'q', 0]).unwrap();
    buffer.seek(509);
    assert_eq!(buffer.qname().unwrap(), "q");
    assert_eq!(buffer.pos(), 512);
    assert_eq!(buffer.qname(), Err(PacketError::OutOfBounds(512)));
}
