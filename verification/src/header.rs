//! The fixed twelve-byte header of a message.

use crate::packet_buffer::{be16, fixed_at, Decoded, PacketBuffer, PacketError};
use vstd::prelude::*;

verus! {

/// Number of bytes in a header.
pub const HEADER_LEN: usize = 12;

/// First flag byte: set in a response, clear in a query.
pub const QUERY_RESPONSE_MASK: u8 = 0b1000_0000;

/// First flag byte: the four bits of the operation code.
pub const OPERATION_CODE_MASK: u8 = 0b0111_1000;

/// First flag byte: how far the operation code stands from the lowest bit.
pub const OPERATION_CODE_SHIFT: u8 = 3;

/// First flag byte: the answer comes from an authority for the name.
pub const AUTHORITATIVE_ANSWER_MASK: u8 = 0b0000_0100;

/// First flag byte: the message was cut short.
pub const TRUNCATED_MESSAGE_MASK: u8 = 0b0000_0010;

/// First flag byte: the sender asks for recursion.
pub const RECURSION_DESIRED_MASK: u8 = 0b0000_0001;

/// Second flag byte: the server offers recursion.
pub const RECURSION_AVAILABLE_MASK: u8 = 0b1000_0000;

/// Second flag byte: checking is disabled.
pub const CHECKING_DISABLED_MASK: u8 = 0b0100_0000;

/// Second flag byte: the data was authenticated.
pub const AUTHED_DATA_MASK: u8 = 0b0010_0000;

/// Second flag byte: the reserved bit.
pub const Z_MASK: u8 = 0b0001_0000;

/// Second flag byte: the four bits of the response code.
pub const RESPONSE_CODE_MASK: u8 = 0b0000_1111;

/// How a server answered.
#[derive(Debug, Clone, Copy, PartialEq, Eq, Structural)]
pub enum ResponseCode {
    NOERROR,
    FORMERR,
    SERVFAIL,
    NXDOMAIN,
    NOTIMPLEMENTED,
    REFUSED,
}

impl ResponseCode {
    /// The number that stands for this code on the wire.
    pub open spec fn number(self) -> int {
        match self {
            ResponseCode::NOERROR => 0,
            ResponseCode::FORMERR => 1,
            ResponseCode::SERVFAIL => 2,
            ResponseCode::NXDOMAIN => 3,
            ResponseCode::NOTIMPLEMENTED => 4,
            ResponseCode::REFUSED => 5,
        }
    }

    /// The code that a number found on the wire stands for. A number that
    /// stands for no code is read as `NOERROR`.
    pub open spec fn of_number(n: int) -> ResponseCode {
        if n == 1 {
            ResponseCode::FORMERR
        } else if n == 2 {
            ResponseCode::SERVFAIL
        } else if n == 3 {
            ResponseCode::NXDOMAIN
        } else if n == 4 {
            ResponseCode::NOTIMPLEMENTED
        } else if n == 5 {
            ResponseCode::REFUSED
        } else {
            ResponseCode::NOERROR
        }
    }

    /// Every code is found again from its number, and the numbers 0 to 5 are
    /// the numbers of the codes they are read as.
    pub proof fn lemma_number_round_trip(code: ResponseCode, n: int)
        ensures
            Self::of_number(code.number()) == code,
            0 <= n <= 5 ==> Self::of_number(n).number() == n,
            !(0 <= n <= 5) ==> Self::of_number(n) == ResponseCode::NOERROR,
    {
    }

    /// The code that `b` stands for; `NOERROR` where it stands for none.
    pub fn from_byte(b: u8) -> (code: ResponseCode)
        ensures
            code == Self::of_number(b as int),
    {
        match b {
            1 => ResponseCode::FORMERR,
            2 => ResponseCode::SERVFAIL,
            3 => ResponseCode::NXDOMAIN,
            4 => ResponseCode::NOTIMPLEMENTED,
            5 => ResponseCode::REFUSED,
            _ => ResponseCode::NOERROR,
        }
    }
}

/// The header of a message: its identifier, its flags and the number of
/// entries in each of its four sections.
#[derive(Debug)]
pub struct Header {
    pub id: u16,
    pub query_response: bool,
    pub operation_code: u8,
    pub authoritative_answer: bool,
    pub truncated_message: bool,
    pub recursion_desired: bool,
    pub recursion_available: bool,
    pub checking_disabled: bool,
    pub authed_data: bool,
    pub z: bool,
    pub response_code: ResponseCode,
    pub questions: u16,
    pub answers: u16,
    pub authoritative_entries: u16,
    pub resource_entries: u16,
}

/// Whether `b` has the bit set that `mask` holds; `mask` is a power of two.
pub open spec fn has_bit(b: u8, mask: u8) -> bool {
    (b as int / mask as int) % 2 == 1
}

/// The masks of the flags pick out single bits, and the masks of the two
/// four-bit fields pick out the numbers that those bits spell.
proof fn lemma_flag_masks(b: u8)
    by (bit_vector)
    ensures
        (b & 0x80 > 0) == ((b / 0x80) % 2 == 1),
        (b & 0x40 > 0) == ((b / 0x40) % 2 == 1),
        (b & 0x20 > 0) == ((b / 0x20) % 2 == 1),
        (b & 0x10 > 0) == ((b / 0x10) % 2 == 1),
        (b & 0x04 > 0) == ((b / 0x04) % 2 == 1),
        (b & 0x02 > 0) == ((b / 0x02) % 2 == 1),
        (b & 0x01 > 0) == ((b / 0x01) % 2 == 1),
        (b & 0x78) >> 3u8 == (b / 8) % 16,
        b & 0x0F == b % 16,
{
}

/// The header that twelve bytes encode. The flags are bits of the third and
/// fourth byte. The operation code is the number spelled by bits 6 to 3 of
/// the third byte, the response code the one spelled by bits 3 to 0 of the
/// fourth, where bit 7 is the highest of a byte.
pub open spec fn header_of(bytes: Seq<u8>) -> Header {
    Header {
        id: be16(bytes[0], bytes[1]),
        query_response: has_bit(bytes[2], QUERY_RESPONSE_MASK),
        operation_code: ((bytes[2] as int / 8) % 16) as u8,
        authoritative_answer: has_bit(bytes[2], AUTHORITATIVE_ANSWER_MASK),
        truncated_message: has_bit(bytes[2], TRUNCATED_MESSAGE_MASK),
        recursion_desired: has_bit(bytes[2], RECURSION_DESIRED_MASK),
        recursion_available: has_bit(bytes[3], RECURSION_AVAILABLE_MASK),
        checking_disabled: has_bit(bytes[3], CHECKING_DISABLED_MASK),
        authed_data: has_bit(bytes[3], AUTHED_DATA_MASK),
        z: has_bit(bytes[3], Z_MASK),
        response_code: ResponseCode::of_number(bytes[3] as int % 16),
        questions: be16(bytes[4], bytes[5]),
        answers: be16(bytes[6], bytes[7]),
        authoritative_entries: be16(bytes[8], bytes[9]),
        resource_entries: be16(bytes[10], bytes[11]),
    }
}

/// The header read at offset `at`.
pub open spec fn header_at(data: Seq<u8>, at: int) -> Decoded<Header> {
    fixed_at(data, at, HEADER_LEN as nat, header_of(data.subrange(at, at + HEADER_LEN)))
}

impl Header {
    /// The header with identifier 0, no flag set, and empty sections.
    pub open spec fn empty() -> Header {
        Header {
            id: 0,
            query_response: false,
            operation_code: 0,
            authoritative_answer: false,
            truncated_message: false,
            recursion_desired: false,
            recursion_available: false,
            checking_disabled: false,
            authed_data: false,
            z: false,
            response_code: ResponseCode::NOERROR,
            questions: 0,
            answers: 0,
            authoritative_entries: 0,
            resource_entries: 0,
        }
    }

    /// A header with identifier 0, no flag set, and empty sections: the
    /// header that twelve zero bytes encode.
    #[verifier::when_used_as_spec(empty)]
    pub fn new() -> (header: Header)
        ensures
            header == Self::empty(),
            header == header_of(Seq::new(HEADER_LEN as nat, |i: int| 0u8)),
    {
        Header {
            id: 0,
            query_response: false,
            operation_code: 0,
            authoritative_answer: false,
            truncated_message: false,
            recursion_desired: false,
            recursion_available: false,
            checking_disabled: false,
            authed_data: false,
            z: false,
            response_code: ResponseCode::NOERROR,
            questions: 0,
            answers: 0,
            authoritative_entries: 0,
            resource_entries: 0,
        }
    }

    /// Reads the header under the cursor and moves the cursor past it. The
    /// flags are taken as they are found: no combination is refused.
    pub fn from_buffer(buffer: &mut PacketBuffer) -> (r: Result<Header, PacketError>)
        ensures
            final(buffer).bytes() == old(buffer).bytes(),
            r == header_at(old(buffer).bytes(), old(buffer).cursor()).result,
            final(buffer).cursor() == header_at(old(buffer).bytes(), old(buffer).cursor()).cursor,
            r is Ok <==> old(buffer).cursor() + HEADER_LEN <= old(buffer).bytes().len(),
    {
        proof {
            buffer.lemma_bounds();
        }
        let mut header = Header::new();
        header.id = buffer.read_u16()?;

        let flags = buffer.read_byte()?;
        header.query_response = (flags & QUERY_RESPONSE_MASK) > 0;
        header.operation_code = (flags & OPERATION_CODE_MASK) >> OPERATION_CODE_SHIFT;
        header.authoritative_answer = (flags & AUTHORITATIVE_ANSWER_MASK) > 0;
        header.truncated_message = (flags & TRUNCATED_MESSAGE_MASK) > 0;
        header.recursion_desired = (flags & RECURSION_DESIRED_MASK) > 0;
        proof {
            lemma_flag_masks(flags);
        }

        let last_flags = buffer.read_byte()?;
        header.recursion_available = (last_flags & RECURSION_AVAILABLE_MASK) > 0;
        header.checking_disabled = (last_flags & CHECKING_DISABLED_MASK) > 0;
        header.authed_data = (last_flags & AUTHED_DATA_MASK) > 0;
        header.z = (last_flags & Z_MASK) > 0;
        header.response_code = ResponseCode::from_byte(last_flags & RESPONSE_CODE_MASK);
        proof {
            lemma_flag_masks(last_flags);
        }

        header.questions = buffer.read_u16()?;
        header.answers = buffer.read_u16()?;
        header.authoritative_entries = buffer.read_u16()?;
        header.resource_entries = buffer.read_u16()?;

        Ok(header)
    }
}

} // verus!
