//! Whole messages: a header and the four sections it announces.

use crate::header::{header_at, Header};
use crate::packet_buffer::{view_of, Decoded, PacketBuffer, PacketError};
use crate::question::{question_at, Question, QuestionView};
use crate::record::{record_at, Record, RecordView};
use vstd::prelude::*;

verus! {

/// A decoded message.
pub struct Packet {
    pub header: Header,
    pub questions: Vec<Question>,
    pub answers: Vec<Record>,
    pub authorities: Vec<Record>,
    pub resources: Vec<Record>,
}

/// A message with the entries of its sections taken by their views.
pub struct PacketView {
    pub header: Header,
    pub questions: Seq<QuestionView>,
    pub answers: Seq<RecordView>,
    pub authorities: Seq<RecordView>,
    pub resources: Seq<RecordView>,
}

/// The questions of a section, each by its view.
pub open spec fn question_views(questions: Seq<Question>) -> Seq<QuestionView> {
    Seq::new(questions.len(), |i: int| questions[i]@)
}

/// The records of a section, each by its view.
pub open spec fn record_views(records: Seq<Record>) -> Seq<RecordView> {
    Seq::new(records.len(), |i: int| records[i]@)
}

impl View for Packet {
    type V = PacketView;

    open spec fn view(&self) -> PacketView {
        PacketView {
            header: self.header,
            questions: question_views(self.questions@),
            answers: record_views(self.answers@),
            authorities: record_views(self.authorities@),
            resources: record_views(self.resources@),
        }
    }
}

/// `count` questions read one after another from offset `at`. The first one
/// that fails ends the reading with its error.
pub open spec fn questions_at(data: Seq<u8>, at: int, count: nat) -> Decoded<Seq<QuestionView>>
    decreases count,
{
    if count == 0 {
        Decoded { result: Ok(Seq::empty()), cursor: at }
    } else {
        let before = questions_at(data, at, (count - 1) as nat);
        match before.result {
            Ok(questions) => {
                let last = question_at(data, before.cursor);
                Decoded {
                    result: match last.result {
                        Ok(question) => Ok(questions.push(question)),
                        Err(e) => Err(e),
                    },
                    cursor: last.cursor,
                }
            },
            Err(_) => before,
        }
    }
}

/// `count` records read one after another from offset `at`. The first one
/// that fails ends the reading with its error.
pub open spec fn records_at(data: Seq<u8>, at: int, count: nat) -> Decoded<Seq<RecordView>>
    decreases count,
{
    if count == 0 {
        Decoded { result: Ok(Seq::empty()), cursor: at }
    } else {
        let before = records_at(data, at, (count - 1) as nat);
        match before.result {
            Ok(records) => {
                let last = record_at(data, before.cursor);
                Decoded {
                    result: match last.result {
                        Ok(record) => Ok(records.push(record)),
                        Err(e) => Err(e),
                    },
                    cursor: last.cursor,
                }
            },
            Err(_) => before,
        }
    }
}

/// The message read at offset `at`: the header, then as many questions,
/// answers, authority records and additional records as the header
/// announces, in that order. The first part that fails ends the reading with
/// its error.
pub open spec fn packet_at(data: Seq<u8>, at: int) -> Decoded<PacketView> {
    let header = header_at(data, at);
    match header.result {
        Ok(found) => {
            let questions = questions_at(data, header.cursor, found.questions as nat);
            let answers = records_at(data, questions.cursor, found.answers as nat);
            let authorities = records_at(data, answers.cursor, found.authoritative_entries as nat);
            let resources = records_at(data, authorities.cursor, found.resource_entries as nat);
            match (questions.result, answers.result, authorities.result, resources.result) {
                (Ok(q), Ok(an), Ok(au), Ok(re)) => Decoded {
                    result: Ok(
                        PacketView {
                            header: found,
                            questions: q,
                            answers: an,
                            authorities: au,
                            resources: re,
                        },
                    ),
                    cursor: resources.cursor,
                },
                (Err(e), _, _, _) => Decoded { result: Err(e), cursor: questions.cursor },
                (_, Err(e), _, _) => Decoded { result: Err(e), cursor: answers.cursor },
                (_, _, Err(e), _) => Decoded { result: Err(e), cursor: authorities.cursor },
                (_, _, _, Err(e)) => Decoded { result: Err(e), cursor: resources.cursor },
            }
        },
        Err(e) => Decoded { result: Err(e), cursor: header.cursor },
    }
}

/// A section that decodes holds exactly as many questions as were asked for.
pub proof fn lemma_questions_len(data: Seq<u8>, at: int, count: nat)
    ensures
        questions_at(data, at, count).result matches Ok(questions) ==> questions.len() == count,
    decreases count,
{
    if count > 0 {
        lemma_questions_len(data, at, (count - 1) as nat);
    }
}

/// A section that decodes holds exactly as many records as were asked for.
pub proof fn lemma_records_len(data: Seq<u8>, at: int, count: nat)
    ensures
        records_at(data, at, count).result matches Ok(records) ==> records.len() == count,
    decreases count,
{
    if count > 0 {
        lemma_records_len(data, at, (count - 1) as nat);
    }
}

/// Once a question has failed, asking for more questions changes nothing.
proof fn lemma_questions_stay_failed(data: Seq<u8>, at: int, failed: nat, count: nat)
    requires
        questions_at(data, at, failed).result is Err,
        failed <= count,
    ensures
        questions_at(data, at, count) == questions_at(data, at, failed),
    decreases count,
{
    if failed < count {
        lemma_questions_stay_failed(data, at, failed, (count - 1) as nat);
    }
}

/// Once a record has failed, asking for more records changes nothing.
proof fn lemma_records_stay_failed(data: Seq<u8>, at: int, failed: nat, count: nat)
    requires
        records_at(data, at, failed).result is Err,
        failed <= count,
    ensures
        records_at(data, at, count) == records_at(data, at, failed),
    decreases count,
{
    if failed < count {
        lemma_records_stay_failed(data, at, failed, (count - 1) as nat);
    }
}

/// Reads `count` questions from the cursor on.
fn read_questions(buffer: &mut PacketBuffer, count: u16) -> (r: Result<Vec<Question>, PacketError>)
    ensures
        final(buffer).bytes() == old(buffer).bytes(),
        final(buffer).cursor() == questions_at(
            old(buffer).bytes(),
            old(buffer).cursor(),
            count as nat,
        ).cursor,
        match r {
            Ok(questions) => questions_at(
                old(buffer).bytes(),
                old(buffer).cursor(),
                count as nat,
            ).result == Ok::<Seq<QuestionView>, PacketError>(question_views(questions@)),
            Err(e) => questions_at(old(buffer).bytes(), old(buffer).cursor(), count as nat).result
                == Err::<Seq<QuestionView>, PacketError>(e),
        },
{
    let ghost data = buffer.bytes();
    let ghost at = buffer.cursor();
    let mut questions: Vec<Question> = Vec::new();
    let mut done: u16 = 0;
    assert(question_views(questions@) =~= Seq::empty());
    while done < count
        invariant
            done <= count,
            buffer.bytes() == data,
            data == old(buffer).bytes(),
            at == old(buffer).cursor(),
            questions_at(data, at, done as nat) == (Decoded {
                result: Ok::<Seq<QuestionView>, PacketError>(question_views(questions@)),
                cursor: buffer.cursor(),
            }),
        decreases count - done,
    {
        let ghost before = question_views(questions@);
        match Question::from_buffer(buffer) {
            Ok(question) => {
                questions.push(question);
                assert(question_views(questions@) =~= before.push(question@));
            },
            Err(e) => {
                proof {
                    lemma_questions_stay_failed(data, at, (done + 1) as nat, count as nat);
                }
                return Err(e);
            },
        }
        done = done + 1;
    }
    Ok(questions)
}

/// Reads `count` records from the cursor on.
fn read_records(buffer: &mut PacketBuffer, count: u16) -> (r: Result<Vec<Record>, PacketError>)
    ensures
        final(buffer).bytes() == old(buffer).bytes(),
        final(buffer).cursor() == records_at(
            old(buffer).bytes(),
            old(buffer).cursor(),
            count as nat,
        ).cursor,
        match r {
            Ok(records) => records_at(
                old(buffer).bytes(),
                old(buffer).cursor(),
                count as nat,
            ).result == Ok::<Seq<RecordView>, PacketError>(record_views(records@)),
            Err(e) => records_at(old(buffer).bytes(), old(buffer).cursor(), count as nat).result
                == Err::<Seq<RecordView>, PacketError>(e),
        },
{
    let ghost data = buffer.bytes();
    let ghost at = buffer.cursor();
    let mut records: Vec<Record> = Vec::new();
    let mut done: u16 = 0;
    assert(record_views(records@) =~= Seq::empty());
    while done < count
        invariant
            done <= count,
            buffer.bytes() == data,
            data == old(buffer).bytes(),
            at == old(buffer).cursor(),
            records_at(data, at, done as nat) == (Decoded {
                result: Ok::<Seq<RecordView>, PacketError>(record_views(records@)),
                cursor: buffer.cursor(),
            }),
        decreases count - done,
    {
        let ghost before = record_views(records@);
        match Record::from_buffer(buffer) {
            Ok(record) => {
                records.push(record);
                assert(record_views(records@) =~= before.push(record@));
            },
            Err(e) => {
                proof {
                    lemma_records_stay_failed(data, at, (done + 1) as nat, count as nat);
                }
                return Err(e);
            },
        }
        done = done + 1;
    }
    Ok(records)
}

impl Packet {
    /// A message with an empty header and empty sections.
    pub fn new() -> (packet: Packet)
        ensures
            packet.header == Header::empty(),
            packet.questions@.len() == 0,
            packet.answers@.len() == 0,
            packet.authorities@.len() == 0,
            packet.resources@.len() == 0,
    {
        Packet {
            header: Header::new(),
            questions: vec![],
            answers: vec![],
            authorities: vec![],
            resources: vec![],
        }
    }

    /// Reads the message under the cursor and moves the cursor past it. Each
    /// section of a message that decodes holds exactly as many entries as the
    /// header announces.
    pub fn from_buffer(buffer: &mut PacketBuffer) -> (r: Result<Packet, PacketError>)
        ensures
            final(buffer).bytes() == old(buffer).bytes(),
            view_of(r) == packet_at(old(buffer).bytes(), old(buffer).cursor()).result,
            final(buffer).cursor() == packet_at(old(buffer).bytes(), old(buffer).cursor()).cursor,
            r matches Ok(packet) ==> {
                &&& packet.questions@.len() == packet.header.questions
                &&& packet.answers@.len() == packet.header.answers
                &&& packet.authorities@.len() == packet.header.authoritative_entries
                &&& packet.resources@.len() == packet.header.resource_entries
            },
    {
        let mut packet = Packet::new();
        packet.header = Header::from_buffer(buffer)?;
        packet.questions = read_questions(buffer, packet.header.questions)?;
        packet.answers = read_records(buffer, packet.header.answers)?;
        packet.authorities = read_records(buffer, packet.header.authoritative_entries)?;
        packet.resources = read_records(buffer, packet.header.resource_entries)?;
        proof {
            let data = old(buffer).bytes();
            let header = header_at(data, old(buffer).cursor());
            let questions = questions_at(data, header.cursor, packet.header.questions as nat);
            let answers = records_at(data, questions.cursor, packet.header.answers as nat);
            let authorities = records_at(
                data,
                answers.cursor,
                packet.header.authoritative_entries as nat,
            );
            lemma_questions_len(data, header.cursor, packet.header.questions as nat);
            lemma_records_len(data, questions.cursor, packet.header.answers as nat);
            lemma_records_len(data, answers.cursor, packet.header.authoritative_entries as nat);
            lemma_records_len(data, authorities.cursor, packet.header.resource_entries as nat);
        }
        Ok(packet)
    }
}

} // verus!
