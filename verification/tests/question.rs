use dns_message::packet_buffer::{PacketBuffer, PacketError};
use dns_message::question::{QueryType, Question, ADDRESS_CODE};

fn filled(data: &[u8]) -> PacketBuffer {
    let mut buffer = PacketBuffer::new();
    buffer.write(data).unwrap();
    buffer.seek(0);
    buffer
}

#[test]
fn query_type_from_u16() {
    assert_eq!(ADDRESS_CODE, 1);
    assert_eq!(QueryType::from_u16(1), QueryType::A);
    assert_eq!(QueryType::from_u16(0), QueryType::Unknown(0));
    assert_eq!(QueryType::from_u16(2), QueryType::Unknown(2));
    assert_eq!(QueryType::from_u16(28), QueryType::Unknown(28));
    assert_eq!(QueryType::from_u16(0xFFFF), QueryType::Unknown(0xFFFF));
}

#[test]
fn query_type_to_u16() {
    assert_eq!(QueryType::A.to_u16(), 1);
    assert_eq!(QueryType::Unknown(0).to_u16(), 0);
    assert_eq!(QueryType::Unknown(15).to_u16(), 15);
    assert_eq!(QueryType::Unknown(1).to_u16(), 1);
}

#[test]
fn query_type_codes_round_trip() {
    for code in [0u16, 1, 2, 5, 16, 28, 255, 256, 0x7FFF, 0xFFFF] {
        assert_eq!(QueryType::from_u16(code).to_u16(), code);
    }
    assert_eq!(QueryType::from_u16(QueryType::A.to_u16()), QueryType::A);
    assert_eq!(
        QueryType::from_u16(QueryType::Unknown(33).to_u16()),
        QueryType::Unknown(33)
    );
}

#[test]
fn question_new_keeps_its_arguments() {
    let question = Question::new(String::from("example.com"), QueryType::Unknown(16));
    assert_eq!(question.name, "example.com");
    assert_eq!(question.query_type, QueryType::Unknown(16));
}

#[test]
fn question_from_buffer_reads_name_and_type() {
    let mut buffer = filled(&[
        6, b'G', b'o', b'o', b'g', b'l', b'e', 3, b'c', b'o', b'm', 0, 0x00, 0x01, 0x00, 0x01,
    ]);
    let question = Question::from_buffer(&mut buffer).unwrap();
    assert_eq!(question.name, "google.com");
    assert_eq!(question.query_type, QueryType::A);
    assert_eq!(buffer.pos(), 14);
}

#[test]
fn question_from_buffer_keeps_unknown_type_code() {
    let mut buffer = filled(&[0, 0x00, 0x1C]);
    let question = Question::from_buffer(&mut buffer).unwrap();
    assert_eq!(question.name, "");
    assert_eq!(question.query_type, QueryType::Unknown(28));
    assert_eq!(buffer.pos(), 3);
}

#[test]
fn question_after_pointer_reads_type_behind_pointer() {
    let mut buffer = filled(&[
        3, b'o', b'r', b'g', 0, 3, b'w', b'w', b'w', 0xC0, 0x00, 0x00, 0x01,
    ]);
    buffer.seek(5);
    let question = Question::from_buffer(&mut buffer).unwrap();
    assert_eq!(question.name, "www.org");
    assert_eq!(question.query_type, QueryType::A);
    assert_eq!(buffer.pos(), 13);
}

#[test]
fn question_propagates_name_errors() {
    let mut buffer = filled(&[0xC0, 0x00, 0x00, 0x01]);
    assert_eq!(
        Question::from_buffer(&mut buffer).unwrap_err(),
        PacketError::CompressionLoopExceeded(0)
    );
}

#[test]
fn question_without_type_is_out_of_bounds() {
    let mut buffer = PacketBuffer::new();
    buffer.seek(509);
    buffer.write(&[1, b'a', 0]).unwrap();
    buffer.seek(509);
    assert_eq!(
        Question::from_buffer(&mut buffer).unwrap_err(),
        PacketError::OutOfBounds(512)
    );
    assert_eq!(buffer.pos(), 512);
}
