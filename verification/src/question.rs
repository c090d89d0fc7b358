//! Question entries: a domain name and the type of record asked for.

use crate::name::name_at;
use crate::packet_buffer::{u16_at, view_of, Decoded, PacketBuffer, PacketError};
use vstd::prelude::*;

verus! {

/// The code that stands for an address record.
pub const ADDRESS_CODE: u16 = 1;

/// The type of a record. A type that this library does not interpret keeps
/// the code it was found with.
#[derive(Debug, Clone, Copy, PartialEq, Eq, Structural)]
pub enum QueryType {
    Unknown(u16),
    A,
}

impl QueryType {
    /// The type that the code `value` stands for.
    pub open spec fn of_code(value: u16) -> QueryType {
        if value == ADDRESS_CODE {
            QueryType::A
        } else {
            QueryType::Unknown(value)
        }
    }

    /// The code that stands for this type.
    pub open spec fn code(self) -> u16 {
        match self {
            QueryType::A => ADDRESS_CODE,
            QueryType::Unknown(value) => value,
        }
    }

    /// No code is lost: the type read from a code gives that code back.
    pub proof fn lemma_code_round_trip(value: u16)
        ensures
            Self::of_code(value).code() == value,
            value != ADDRESS_CODE ==> Self::of_code(value) == QueryType::Unknown(value),
    {
    }

    /// A type is read back from its own code. The one value left out is an
    /// `Unknown` that holds the code of an address record.
    pub proof fn lemma_type_round_trip(query_type: QueryType)
        requires
            query_type != QueryType::Unknown(ADDRESS_CODE),
        ensures
            Self::of_code(query_type.code()) == query_type,
    {
    }

    /// The type that the code `value` stands for.
    pub fn from_u16(value: u16) -> (query_type: QueryType)
        ensures
            query_type == Self::of_code(value),
    {
        match value {
            1 => QueryType::A,
            _ => QueryType::Unknown(value),
        }
    }

    /// The code that stands for this type.
    pub fn to_u16(&self) -> (value: u16)
        ensures
            value == self.code(),
    {
        match self {
            QueryType::A => 1,
            QueryType::Unknown(value) => *value,
        }
    }
}

/// One entry of the question section.
#[derive(Debug)]
pub struct Question {
    pub name: String,
    pub query_type: QueryType,
}

/// A question with its name as text.
pub struct QuestionView {
    pub name: Seq<char>,
    pub query_type: QueryType,
}

impl View for Question {
    type V = QuestionView;

    open spec fn view(&self) -> QuestionView {
        QuestionView { name: self.name@, query_type: self.query_type }
    }
}

/// The question read at offset `at`: a name, then the 16-bit code of a type.
/// The entry ends there: no class follows the type.
pub open spec fn question_at(data: Seq<u8>, at: int) -> Decoded<QuestionView> {
    let name = name_at(data, at);
    match name.result {
        Ok(text) => {
            let code = u16_at(data, name.cursor);
            Decoded {
                result: match code.result {
                    Ok(value) => Ok(
                        QuestionView { name: text, query_type: QueryType::of_code(value) },
                    ),
                    Err(e) => Err(e),
                },
                cursor: code.cursor,
            }
        },
        Err(e) => Decoded { result: Err(e), cursor: name.cursor },
    }
}

impl Question {
    /// A question for records of type `query_type` about `name`.
    pub fn new(name: String, query_type: QueryType) -> (question: Question)
        ensures
            question.name == name,
            question.query_type == query_type,
    {
        Question { name, query_type }
    }

    /// Reads the question under the cursor, a name and a type, and moves the
    /// cursor past it. No class is read.
    pub fn from_buffer(buffer: &mut PacketBuffer) -> (r: Result<Question, PacketError>)
        ensures
            final(buffer).bytes() == old(buffer).bytes(),
            view_of(r) == question_at(old(buffer).bytes(), old(buffer).cursor()).result,
            final(buffer).cursor() == question_at(
                old(buffer).bytes(),
                old(buffer).cursor(),
            ).cursor,
    {
        let qname = buffer.qname()?;
        let query_type = QueryType::from_u16(buffer.read_u16()?);
        let question = Question::new(qname, query_type);
        Ok(question)
    }
}

} // verus!
