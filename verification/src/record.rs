//! Resource records: a domain name, fixed fields, and data whose meaning
//! depends on the record's type.

use crate::name::name_at;
use crate::packet_buffer::{
    be16, be32, fixed_at, out_of_bounds, view_of, Decoded, PacketBuffer, PacketError, CAPACITY,
};
use crate::question::QueryType;
use vstd::prelude::*;

verus! {

/// Number of bytes between a record's name and its data: type, class, time
/// to live and data length.
pub const FIELDS_LEN: usize = 10;

/// Number of bytes in an IPv4 address.
pub const ADDRESS_LEN: usize = 4;

/// One resource record.
#[derive(Debug)]
pub enum Record {
    /// A record of a type that is not interpreted. Its data was passed over;
    /// the type's code and the length of the data are kept.
    Unknown { domain: String, query_type: u16, data_length: u16, ttl: u32 },
    /// An address record. `address` holds the four octets of an IPv4 address,
    /// the most significant first.
    A { domain: String, address: [u8; 4], ttl: u32 },
}

/// A record with its name as text and its address as a sequence of octets.
pub enum RecordView {
    Unknown { domain: Seq<char>, query_type: u16, data_length: u16, ttl: u32 },
    A { domain: Seq<char>, address: Seq<u8>, ttl: u32 },
}

impl View for Record {
    type V = RecordView;

    open spec fn view(&self) -> RecordView {
        match *self {
            Record::Unknown { domain, query_type, data_length, ttl } => RecordView::Unknown {
                domain: domain@,
                query_type,
                data_length,
                ttl,
            },
            Record::A { domain, address, ttl } => RecordView::A {
                domain: domain@,
                address: address@,
                ttl,
            },
        }
    }
}

/// The fixed fields that follow a record's name. The class is not among
/// them: it is read and dropped.
pub struct RecordFields {
    pub code: u16,
    pub ttl: u32,
    pub data_length: u16,
}

/// The fixed fields read at offset `at`: type, class, time to live and data
/// length, in that order.
pub open spec fn fields_at(data: Seq<u8>, at: int) -> Decoded<RecordFields> {
    fixed_at(
        data,
        at,
        FIELDS_LEN as nat,
        RecordFields {
            code: be16(data[at], data[at + 1]),
            ttl: be32(data[at + 4], data[at + 5], data[at + 6], data[at + 7]),
            data_length: be16(data[at + 8], data[at + 9]),
        },
    )
}

/// The data of a record read at offset `at`, given the record's name and
/// fixed fields. An address is read whatever the data length says. Data of
/// any other type is passed over by its length. It must end inside the
/// buffer: if it does not, the record is refused and the cursor stays at the
/// start of the data.
pub open spec fn rdata_at(data: Seq<u8>, at: int, domain: Seq<char>, fields: RecordFields) -> Decoded<
    RecordView,
> {
    match QueryType::of_code(fields.code) {
        QueryType::A => fixed_at(
            data,
            at,
            ADDRESS_LEN as nat,
            RecordView::A { domain, address: data.subrange(at, at + ADDRESS_LEN), ttl: fields.ttl },
        ),
        QueryType::Unknown(_) => if at + fields.data_length <= data.len() {
            Decoded {
                result: Ok(
                    RecordView::Unknown {
                        domain,
                        query_type: fields.code,
                        data_length: fields.data_length,
                        ttl: fields.ttl,
                    },
                ),
                cursor: at + fields.data_length,
            }
        } else {
            Decoded { result: Err(out_of_bounds(data.len() as int)), cursor: at }
        },
    }
}

/// The record read at offset `at`.
pub open spec fn record_at(data: Seq<u8>, at: int) -> Decoded<RecordView> {
    let name = name_at(data, at);
    match name.result {
        Ok(domain) => {
            let fields = fields_at(data, name.cursor);
            match fields.result {
                Ok(found) => rdata_at(data, fields.cursor, domain, found),
                Err(e) => Decoded { result: Err(e), cursor: fields.cursor },
            }
        },
        Err(e) => Decoded { result: Err(e), cursor: name.cursor },
    }
}

/// A record of a type that is not interpreted moves the cursor from the
/// start of its data exactly as far as its data length says, provided the
/// data ends inside the buffer. Otherwise the record is refused as out of
/// bounds.
pub proof fn lemma_unknown_record_skips(data: Seq<u8>, at: int)
    requires
        name_at(data, at).result is Ok,
        fields_at(data, name_at(data, at).cursor).result is Ok,
        QueryType::of_code(fields_at(data, name_at(data, at).cursor).result->Ok_0.code)
            is Unknown,
    ensures
        ({
            let rdata = fields_at(data, name_at(data, at).cursor).cursor;
            let length = fields_at(data, name_at(data, at).cursor).result->Ok_0.data_length;
            if rdata + length <= data.len() {
                &&& record_at(data, at).result is Ok
                &&& record_at(data, at).cursor == rdata + length
            } else {
                record_at(data, at).result == Err::<RecordView, PacketError>(
                    out_of_bounds(data.len() as int),
                )
            }
        }),
{
}

/// The octets of a 32-bit number, the most significant first, are the bytes
/// that it was read from in big-endian order.
proof fn lemma_octets(raw: u32, b0: u8, b1: u8, b2: u8, b3: u8)
    by (bit_vector)
    requires
        raw == b0 as u32 * 0x100_0000 + b1 as u32 * 0x1_0000 + b2 as u32 * 0x100 + b3 as u32,
    ensures
        ((raw >> 24) & 0xFF) as u8 == b0,
        ((raw >> 16) & 0xFF) as u8 == b1,
        ((raw >> 8) & 0xFF) as u8 == b2,
        (raw & 0xFF) as u8 == b3,
{
}

impl Record {
    /// Reads the record under the cursor and moves the cursor past it. The
    /// class is read and dropped. The data of an address record is read as an
    /// address; the data of any other record is passed over.
    pub fn from_buffer(buffer: &mut PacketBuffer) -> (r: Result<Record, PacketError>)
        ensures
            final(buffer).bytes() == old(buffer).bytes(),
            view_of(r) == record_at(old(buffer).bytes(), old(buffer).cursor()).result,
            final(buffer).cursor() == record_at(old(buffer).bytes(), old(buffer).cursor()).cursor,
    {
        proof {
            buffer.lemma_bounds();
        }
        let domain = buffer.qname()?;
        proof {
            buffer.lemma_bounds();
        }

        let query_type_u16 = buffer.read_u16()?;
        let query_type = QueryType::from_u16(query_type_u16);
        let _ = buffer.read_u16()?;
        let ttl = buffer.read_u32()?;
        let data_length = buffer.read_u16()?;

        let record = match query_type {
            QueryType::A => {
                let raw_addr = buffer.read_u32()?;
                let address = [
                    ((raw_addr >> 24) & 0xFF) as u8,
                    ((raw_addr >> 16) & 0xFF) as u8,
                    ((raw_addr >> 8) & 0xFF) as u8,
                    (raw_addr & 0xFF) as u8,
                ];
                proof {
                    let data = buffer.bytes();
                    let at = buffer.cursor() - ADDRESS_LEN;
                    lemma_octets(raw_addr, data[at], data[at + 1], data[at + 2], data[at + 3]);
                    assert(address@ =~= data.subrange(at, at + ADDRESS_LEN));
                }

                Record::A { domain, address, ttl }
            },
            QueryType::Unknown(_) => {
                let rdata = buffer.pos();
                if data_length as usize > CAPACITY - rdata {
                    return Err(PacketError::OutOfBounds(CAPACITY));
                }
                buffer.walk(data_length as usize);

                Record::Unknown { domain, query_type: query_type_u16, data_length, ttl }
            },
        };

        Ok(record)
    }
}

} // verus!
