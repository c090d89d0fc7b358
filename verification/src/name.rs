//! Domain names in wire format.
//!
//! A name is a chain of length-prefixed labels that ends in a zero byte. In
//! place of a label length there may stand a two-byte compression pointer,
//! after which the name continues at the offset that the pointer holds. This
//! module defines what such an encoding denotes, states the laws that follow,
//! and decodes it.

use crate::packet_buffer::{
    first_outside, out_of_bounds, view_of, Decoded, PacketBuffer, PacketError, CAPACITY,
};
use vstd::prelude::*;

verus! {

/// Most compression pointers that one name may go through.
pub const MAX_JUMPS: usize = 8;

/// Both bits are set in the first byte of a compression pointer.
pub const POINTER_TAG: u8 = 0xC0;

/// The bits of a pointer's first byte that belong to its offset.
pub const POINTER_OFFSET_MASK: u8 = 0x3F;

/// Difference between an ASCII capital and its small letter.
pub const CASE_BIT: u8 = 0x20;

/// Whether `b`, found where a label length is expected, begins a pointer.
pub open spec fn is_pointer(b: u8) -> bool {
    b >= POINTER_TAG
}

/// The offset held by the pointer whose two bytes are `b0`, `b1`: the low six
/// bits of the first, then the eight of the second.
pub open spec fn pointer_target(b0: u8, b1: u8) -> int {
    (b0 as int % 0x40) * 0x100 + b1 as int
}

/// `b` with an ASCII capital letter, `A` to `Z`, replaced by its small
/// letter.
pub open spec fn fold_byte(b: u8) -> u8 {
    if 0x41 <= b <= 0x5A {
        (b + CASE_BIT) as u8
    } else {
        b
    }
}

/// The text of one label: each byte folded to lower case, as one character.
pub open spec fn label_text(label: Seq<u8>) -> Seq<char> {
    Seq::new(label.len(), |i: int| fold_byte(label[i]) as char)
}

/// The labels' texts joined by dots. No labels give the empty text, the root.
pub open spec fn join_labels(labels: Seq<Seq<u8>>) -> Seq<char>
    decreases labels.len(),
{
    if labels.len() == 0 {
        Seq::empty()
    } else if labels.len() == 1 {
        label_text(labels[0])
    } else {
        join_labels(labels.drop_last()) + seq!['.'] + label_text(labels.last())
    }
}

/// The labels `head` put in front of the labels that `rest` found, if any.
pub open spec fn with_prefix(head: Seq<Seq<u8>>, rest: Result<Seq<Seq<u8>>, PacketError>) -> Result<
    Seq<Seq<u8>>,
    PacketError,
> {
    match rest {
        Ok(labels) => Ok(head + labels),
        Err(e) => Err(e),
    }
}

/// The labels of the name whose decoding began at `start`, has reached offset
/// `at`, and has gone through `jumps` pointers so far; and the offset at which
/// the decoding leaves the cursor of a buffer that it found at `start`.
///
/// The cursor is moved when the first pointer is followed, to just behind that
/// pointer, and never again. A name without a pointer moves it behind its
/// final zero byte. A decoding that fails before it follows a pointer leaves
/// it at `start`.
pub open spec fn labels_at(data: Seq<u8>, start: int, at: int, jumps: nat) -> Decoded<
    Seq<Seq<u8>>,
>
    decreases MAX_JUMPS - jumps, data.len() - at,
{
    if at < 0 || at >= data.len() {
        Decoded { result: Err(out_of_bounds(at)), cursor: start }
    } else if data[at] == 0 {
        Decoded { result: Ok(Seq::empty()), cursor: at + 1 }
    } else if is_pointer(data[at]) {
        if at + 1 >= data.len() {
            Decoded { result: Err(out_of_bounds(at + 1)), cursor: start }
        } else if jumps >= MAX_JUMPS {
            Decoded {
                result: Err(PacketError::CompressionLoopExceeded(start as usize)),
                cursor: start,
            }
        } else {
            let rest = labels_at(data, start, pointer_target(data[at], data[at + 1]), jumps + 1);
            Decoded {
                result: rest.result,
                cursor: if jumps == 0 {
                    at + 2
                } else {
                    rest.cursor
                },
            }
        }
    } else {
        let end = at + 1 + data[at];
        if end > data.len() {
            Decoded {
                result: Err(out_of_bounds(first_outside(data.len(), at + 1))),
                cursor: start,
            }
        } else {
            let rest = labels_at(data, start, end, jumps);
            Decoded {
                result: with_prefix(seq![data.subrange(at + 1, end)], rest.result),
                cursor: rest.cursor,
            }
        }
    }
}

/// The name encoded at `start`, as dotted lower-case text, and the offset at
/// which decoding it leaves the cursor.
pub open spec fn name_at(data: Seq<u8>, start: int) -> Decoded<Seq<char>> {
    let found = labels_at(data, start, start, 0);
    Decoded {
        result: match found.result {
            Ok(labels) => Ok(join_labels(labels)),
            Err(e) => Err(e),
        },
        cursor: found.cursor,
    }
}

/// Whether offset `to` is reached from offset `from` by passing over whole
/// labels only: no zero byte, no pointer, no label that runs out of the data.
pub open spec fn label_path(data: Seq<u8>, from: int, to: int) -> bool
    decreases to - from,
{
    if from >= to {
        from == to
    } else {
        &&& 0 <= from < data.len()
        &&& data[from] != 0
        &&& !is_pointer(data[from])
        &&& from + 1 + data[from] <= data.len()
        &&& from + 1 + data[from] <= to
        &&& label_path(data, from + 1 + data[from], to)
    }
}

/// The labels with every byte folded to lower case.
pub open spec fn lowered(labels: Seq<Seq<u8>>) -> Seq<Seq<u8>> {
    Seq::new(labels.len(), |i: int| Seq::new(labels[i].len(), |j: int| fold_byte(labels[i][j])))
}

/// The encoding of `labels` without compression: each label behind a byte
/// that holds its length, then a zero byte.
pub open spec fn wire_form(labels: Seq<Seq<u8>>) -> Seq<u8>
    decreases labels.len(),
{
    if labels.len() == 0 {
        seq![0u8]
    } else {
        seq![labels.first().len() as u8] + labels.first() + wire_form(labels.drop_first())
    }
}

/// Whether every label can be encoded: it is not empty, and the byte that
/// holds its length is not taken for the start of a pointer.
pub open spec fn encodable(labels: Seq<Seq<u8>>) -> bool {
    forall|i: int| 0 <= i < labels.len() ==> 0 < #[trigger] labels[i].len() < POINTER_TAG
}

/// The name encoded by a lone zero byte is the root: its text is empty, and
/// decoding it moves the cursor past that one byte.
pub proof fn lemma_root_name(data: Seq<u8>, start: int)
    requires
        0 <= start < data.len(),
        data[start] == 0,
    ensures
        name_at(data, start).result == Ok::<Seq<char>, PacketError>(Seq::empty()),
        name_at(data, start).cursor == start + 1,
{
}

/// Labels that lead from `at` to a zero byte decode, whatever `start` was,
/// and leave the cursor behind that byte.
proof fn lemma_terminator_from(data: Seq<u8>, start: int, at: int, end: int)
    requires
        label_path(data, at, end),
        0 <= end < data.len(),
        data[end] == 0,
    ensures
        labels_at(data, start, at, 0).result is Ok,
        labels_at(data, start, at, 0).cursor == end + 1,
    decreases end - at,
{
    if at < end {
        lemma_terminator_from(data, start, at + 1 + data[at], end);
    }
}

/// A name written without pointers decodes, and leaves the cursor just behind
/// its final zero byte.
pub proof fn lemma_resume_after_terminator(data: Seq<u8>, start: int, end: int)
    requires
        label_path(data, start, end),
        0 <= end < data.len(),
        data[end] == 0,
    ensures
        name_at(data, start).result is Ok,
        name_at(data, start).cursor == end + 1,
{
    lemma_terminator_from(data, start, start, end);
}

/// Labels that lead from `at` to a pointer leave the cursor behind that
/// pointer, whatever `start` was.
proof fn lemma_pointer_from(data: Seq<u8>, start: int, at: int, pointer: int)
    requires
        label_path(data, at, pointer),
        0 <= pointer,
        pointer + 1 < data.len(),
        is_pointer(data[pointer]),
    ensures
        labels_at(data, start, at, 0).cursor == pointer + 2,
    decreases pointer - at,
{
    if at < pointer {
        lemma_pointer_from(data, start, at + 1 + data[at], pointer);
    }
}

/// A name whose labels lead up to a pointer leaves the cursor just behind the
/// two bytes of that pointer, wherever the pointer leads, and whether or not
/// the bytes it leads to decode.
pub proof fn lemma_resume_after_pointer(data: Seq<u8>, start: int, pointer: int)
    requires
        label_path(data, start, pointer),
        0 <= pointer,
        pointer + 1 < data.len(),
        is_pointer(data[pointer]),
    ensures
        name_at(data, start).cursor == pointer + 2,
{
    lemma_pointer_from(data, start, start, pointer);
}

/// A pointer that points at itself fails however many pointers were followed
/// before it.
proof fn lemma_self_pointer_from(data: Seq<u8>, start: int, jumps: nat)
    requires
        0 <= start,
        start + 1 < data.len(),
        is_pointer(data[start]),
        pointer_target(data[start], data[start + 1]) == start,
        jumps <= MAX_JUMPS,
    ensures
        labels_at(data, start, start, jumps).result == Err::<Seq<Seq<u8>>, PacketError>(
            PacketError::CompressionLoopExceeded(start as usize),
        ),
    decreases MAX_JUMPS - jumps,
{
    if jumps < MAX_JUMPS {
        lemma_self_pointer_from(data, start, jumps + 1);
    }
}

/// A pointer that points at itself is not followed forever: decoding it fails
/// because the name goes through too many pointers.
pub proof fn lemma_self_pointer_fails(data: Seq<u8>, start: int)
    requires
        0 <= start,
        start + 1 < data.len(),
        is_pointer(data[start]),
        pointer_target(data[start], data[start + 1]) == start,
    ensures
        name_at(data, start).result == Err::<Seq<char>, PacketError>(
            PacketError::CompressionLoopExceeded(start as usize),
        ),
{
    lemma_self_pointer_from(data, start, 0);
}

/// The uncompressed encoding of labels, found at `at`, decodes to those
/// labels, whatever `start` was.
proof fn lemma_wire_form_from(data: Seq<u8>, start: int, at: int, labels: Seq<Seq<u8>>)
    requires
        encodable(labels),
        0 <= at,
        at + wire_form(labels).len() <= data.len(),
        data.subrange(at, at + wire_form(labels).len()) == wire_form(labels),
    ensures
        labels_at(data, start, at, 0) == (Decoded {
            result: Ok::<Seq<Seq<u8>>, PacketError>(labels),
            cursor: at + wire_form(labels).len(),
        }),
    decreases labels.len(),
{
    let form = wire_form(labels);
    let piece = data.subrange(at, at + form.len());
    if labels.len() == 0 {
        assert(data[at] == piece[0]);
        assert(labels =~= Seq::empty());
    } else {
        let label = labels.first();
        let rest = labels.drop_first();
        let end = at + 1 + label.len();
        assert(encodable(rest)) by {
            assert forall|i: int| 0 <= i < rest.len() implies 0 < #[trigger] rest[i].len()
                < POINTER_TAG by {
                assert(rest[i] == labels[i + 1]);
            }
        }
        assert(data[at] == piece[0]);
        assert(data.subrange(at + 1, end) =~= label) by {
            assert forall|j: int| 0 <= j < label.len() implies data[at + 1 + j] == label[j] by {
                assert(data[at + 1 + j] == piece[1 + j]);
            }
        }
        assert(data.subrange(end, end + wire_form(rest).len()) =~= wire_form(rest)) by {
            assert forall|j: int| 0 <= j < wire_form(rest).len() implies data[end + j]
                == wire_form(rest)[j] by {
                assert(data[end + j] == piece[1 + label.len() + j]);
            }
        }
        lemma_wire_form_from(data, start, end, rest);
        assert(seq![label] + rest =~= labels);
    }
}

/// Decoding undoes encoding: where the data holds the uncompressed encoding
/// of some labels, the name decoded there is those labels joined by dots, in
/// lower case, and the cursor is left just behind the encoding.
pub proof fn lemma_decodes_wire_form(data: Seq<u8>, start: int, labels: Seq<Seq<u8>>)
    requires
        encodable(labels),
        0 <= start,
        start + wire_form(labels).len() <= data.len(),
        data.subrange(start, start + wire_form(labels).len()) == wire_form(labels),
    ensures
        name_at(data, start).result == Ok::<Seq<char>, PacketError>(join_labels(labels)),
        name_at(data, start).cursor == start + wire_form(labels).len(),
{
    lemma_wire_form_from(data, start, start, labels);
}

/// Folding to lower case twice is folding once.
pub proof fn lemma_fold_idempotent(b: u8)
    ensures
        fold_byte(fold_byte(b)) == fold_byte(b),
{
}

/// Labels give the same text as their lower-case form.
pub proof fn lemma_join_lowered(labels: Seq<Seq<u8>>)
    ensures
        join_labels(lowered(labels)) == join_labels(labels),
    decreases labels.len(),
{
    if labels.len() > 0 {
        assert(label_text(lowered(labels).last()) =~= label_text(labels.last()));
        assert(lowered(labels).drop_last() =~= lowered(labels.drop_last()));
        lemma_join_lowered(labels.drop_last());
    }
}

/// Case does not matter: a name with capital letters in its labels decodes to
/// the same text as the name whose labels are its labels in lower case.
pub proof fn lemma_case_folding(upper: Seq<u8>, at_upper: int, lower: Seq<u8>, at_lower: int)
    requires
        labels_at(upper, at_upper, at_upper, 0).result is Ok,
        labels_at(lower, at_lower, at_lower, 0).result == Ok::<Seq<Seq<u8>>, PacketError>(
            lowered(labels_at(upper, at_upper, at_upper, 0).result->Ok_0),
        ),
    ensures
        name_at(lower, at_lower).result == name_at(upper, at_upper).result,
{
    lemma_join_lowered(labels_at(upper, at_upper, at_upper, 0).result->Ok_0);
}

/// Case does not matter in an encoded name: the encoding of labels and the
/// encoding of the same labels in lower case decode to the same text.
pub proof fn lemma_wire_form_case_folding(labels: Seq<Seq<u8>>)
    requires
        encodable(labels),
    ensures
        name_at(wire_form(lowered(labels)), 0).result == name_at(wire_form(labels), 0).result,
{
    let upper = wire_form(labels);
    let lower = wire_form(lowered(labels));
    assert(upper.subrange(0, upper.len() as int) =~= upper);
    assert(lower.subrange(0, lower.len() as int) =~= lower);
    lemma_decodes_wire_form(upper, 0, labels);
    lemma_decodes_wire_form(lower, 0, lowered(labels));
    lemma_join_lowered(labels);
}

/// Taken on trust, not proved: `String::push` of the standard library puts
/// the character at the end of the string and leaves the characters before it
/// as they were.
pub assume_specification[ String::push ](s: &mut String, c: char)
    ensures
        final(s)@ == old(s)@.push(c),
;

/// Putting a label behind others is putting it before what follows them.
proof fn lemma_prefix_push(
    head: Seq<Seq<u8>>,
    label: Seq<u8>,
    rest: Result<Seq<Seq<u8>>, PacketError>,
)
    ensures
        with_prefix(head, with_prefix(seq![label], rest)) == with_prefix(head.push(label), rest),
{
    if let Ok(labels) = rest {
        assert(head + (seq![label] + labels) =~= head.push(label) + labels);
    }
}

/// Joining one more label appends a dot, unless it is the first, and its text.
proof fn lemma_join_push(labels: Seq<Seq<u8>>, label: Seq<u8>)
    ensures
        join_labels(labels.push(label)) == if labels.len() == 0 {
            label_text(label)
        } else {
            join_labels(labels) + seq!['.'] + label_text(label)
        },
{
    assert(labels.push(label).drop_last() =~= labels);
}

/// Folds an ASCII capital letter to its small letter.
fn fold_case(b: u8) -> (folded: u8)
    ensures
        folded == fold_byte(b),
{
    if 0x41 <= b && b <= 0x5A {
        b + CASE_BIT
    } else {
        b
    }
}

/// Appends the text of `label` to `name`, after a dot if `name` already holds
/// a label.
fn push_label(name: &mut String, label: &[u8], first: bool)
    ensures
        final(name)@ == if first {
            old(name)@ + label_text(label@)
        } else {
            old(name)@ + seq!['.'] + label_text(label@)
        },
{
    if !first {
        name.push('.');
    }
    let ghost base = name@;
    let mut i: usize = 0;
    while i < label.len()
        invariant
            i <= label@.len(),
            name@ == base + label_text(label@).subrange(0, i as int),
        decreases label@.len() - i,
    {
        let folded = fold_case(label[i]);
        name.push(folded as char);
        assert(name@ =~= base + label_text(label@).subrange(0, i + 1));
        i = i + 1;
    }
    assert(label_text(label@).subrange(0, label@.len() as int) =~= label_text(label@));
    assert(old(name)@.push('.') =~= old(name)@ + seq!['.']);
}

impl PacketBuffer {
    /// Decodes the domain name under the cursor into dotted lower-case text.
    ///
    /// On success the cursor stands behind the name as it is written at the
    /// cursor: behind its zero byte, or behind the first pointer if it has
    /// one. Bytes reached through pointers do not move it.
    pub fn qname(&mut self) -> (r: Result<String, PacketError>)
        ensures
            final(self).bytes() == old(self).bytes(),
            view_of(r) == name_at(old(self).bytes(), old(self).cursor()).result,
            final(self).cursor() == name_at(old(self).bytes(), old(self).cursor()).cursor,
    {
        let start = self.pos();
        let mut position = start;
        let mut jumped = false;
        let mut jump_count: usize = 0;
        let mut name = String::new();
        let mut first = true;
        let ghost data = self.bytes();
        let ghost mut labels: Seq<Seq<u8>> = Seq::empty();
        proof {
            self.lemma_bounds();
        }
        loop
            invariant
                self.bytes() == data,
                data == old(self).bytes(),
                start == old(self).cursor(),
                data.len() == CAPACITY,
                start <= CAPACITY,
                first <==> labels.len() == 0,
                position < 0x4000,
                jump_count <= MAX_JUMPS,
                jumped <==> jump_count > 0,
                !jumped ==> self.cursor() == start,
                name@ == join_labels(labels),
                labels_at(data, start as int, start as int, 0).result == with_prefix(
                    labels,
                    labels_at(data, start as int, position as int, jump_count as nat).result,
                ),
                labels_at(data, start as int, start as int, 0).cursor == if jumped {
                    self.cursor()
                } else {
                    labels_at(data, start as int, position as int, jump_count as nat).cursor
                },
            ensures
                self.bytes() == data,
                name@ == join_labels(labels),
                labels_at(data, start as int, start as int, 0).result == Ok::<
                    Seq<Seq<u8>>,
                    PacketError,
                >(labels),
                jumped ==> labels_at(data, start as int, start as int, 0).cursor == self.cursor(),
                !jumped ==> labels_at(data, start as int, start as int, 0).cursor == position + 1
                    && position < CAPACITY,
            decreases MAX_JUMPS - jump_count, 0x4000 - position,
        {
            let length = self.peek_byte(position)?;
            if length == 0 {
                assert(labels + Seq::<Seq<u8>>::empty() =~= labels);
                break;
            }
            assert((length & 0xC0) == 0xC0 <==> length >= 0xC0) by (bit_vector);
            if (length & POINTER_TAG) == POINTER_TAG {
                let next = self.peek_byte(position + 1)?;
                if jump_count >= MAX_JUMPS {
                    return Err(PacketError::CompressionLoopExceeded(start));
                }
                if !jumped {
                    self.seek(position + 2);
                }
                let offset: u16 = (((length & POINTER_OFFSET_MASK) as u16) << 8) | (next as u16);
                assert((((length & 0x3F) as u16) << 8) | (next as u16) == (length as u16 % 0x40)
                    * 0x100 + (next as u16)) by (bit_vector);
                position = offset as usize;
                jumped = true;
                jump_count = jump_count + 1;
                continue;
            }
            let label = self.read_range(position + 1, length as usize)?;
            push_label(&mut name, label, first);
            proof {
                lemma_prefix_push(
                    labels,
                    label@,
                    labels_at(
                        data,
                        start as int,
                        position + 1 + length,
                        jump_count as nat,
                    ).result,
                );
                lemma_join_push(labels, label@);
                labels = labels.push(label@);
            }
            first = false;
            position = position + 1 + length as usize;
        }
        if !jumped {
            self.seek(position + 1);
        }
        Ok(name)
    }
}

} // verus!
