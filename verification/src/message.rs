//! The message type produced by the record decoder and consumed by the
//! classification client, together with the decoder itself.

use vstd::prelude::*;

verus! {

/// The classification tag a message can carry. A message is an
/// `Advertisement` until the matching service assigns a more specific tag.
#[derive(Clone, Copy, Debug, PartialEq, Eq, Structural)]
pub enum SMKind {
    Transaction,
    Service,
    Advertisement,
}

/// One decoded input message. `kind`, `template_id` and `weight` start at
/// their defaults and are filled in by the classification client.
#[derive(Clone, Debug)]
pub struct ShortMessage {
    pub received_at: String,
    pub to: String,
    pub sender: String,
    pub text: String,
    pub kind: SMKind,
    pub template_id: Option<usize>,
    pub weight: Option<usize>,
}

/// Why a raw row could not be decoded: a required positional field was
/// missing, at the given index.
#[derive(Clone, Copy, Debug, PartialEq, Eq, Structural)]
pub enum DecodeError {
    MissingField(usize),
}

/// The positional field indices a raw row must provide.
pub open spec fn required_indices() -> Seq<int> {
    seq![1int, 2int, 3int, 8int]
}

/// The smallest required field index that a row of length `n` is missing.
pub open spec fn first_missing_index(n: int) -> int {
    if n <= 1 {
        1
    } else if n <= 2 {
        2
    } else if n <= 3 {
        3
    } else {
        8
    }
}

/// A row is decodable exactly when it reaches past the largest required
/// field index.
pub open spec fn row_decodable(row: Seq<String>) -> bool {
    row.len() > 8
}

/// What a freshly decoded message looks like, given its raw row.
pub open spec fn is_decoded_from(m: ShortMessage, row: Seq<String>) -> bool {
    &&& m.received_at@ == row[1]@
    &&& m.sender@ == row[2]@
    &&& m.to@ == row[3]@
    &&& m.text@ == row[8]@
    &&& m.kind == SMKind::Advertisement
    &&& m.template_id is None
    &&& m.weight is None
}

/// Decodes one raw row at the fixed field positions
/// (1 = receivedAt, 2 = sender, 3 = recipientAddress, 8 = body).
/// Field contents pass through untouched; a row shorter than the largest
/// required index is a `MissingField` error naming the smallest index it
/// lacks.
pub fn decode_row(row: &Vec<String>) -> (r: Result<ShortMessage, DecodeError>)
    ensures
        row_decodable(row@) ==> (r matches Ok(m) && is_decoded_from(m, row@)),
        !row_decodable(row@) ==> r == Result::<ShortMessage, DecodeError>::Err(
            DecodeError::MissingField(first_missing_index(row@.len() as int) as usize),
        ),
{
    if row.len() <= 1 {
        Err(DecodeError::MissingField(1))
    } else if row.len() <= 2 {
        Err(DecodeError::MissingField(2))
    } else if row.len() <= 3 {
        Err(DecodeError::MissingField(3))
    } else if row.len() <= 8 {
        Err(DecodeError::MissingField(8))
    } else {
        Ok(ShortMessage {
            received_at: row[1].clone(),
            to: row[3].clone(),
            sender: row[2].clone(),
            text: row[8].clone(),
            kind: SMKind::Advertisement,
            template_id: None,
            weight: None,
        })
    }
}

/// Whether every row of a batch is decodable.
pub open spec fn all_rows_decodable(rows: Seq<Vec<String>>) -> bool {
    forall|i: int| 0 <= i < rows.len() ==> row_decodable(#[trigger] rows[i]@)
}

/// The first row of a batch that is not decodable.
pub open spec fn first_bad_row(rows: Seq<Vec<String>>) -> int {
    choose|i: int|
        0 <= i < rows.len() && !row_decodable(rows[i]@) && forall|j: int|
            0 <= j < i ==> row_decodable(#[trigger] rows[j]@)
}

/// Decodes a whole batch of raw rows, in order. The first undecodable row
/// aborts the batch with its error; otherwise every row yields one message,
/// at the same position.
pub fn make_messages_vec(rows: &Vec<Vec<String>>) -> (r: Result<
    Vec<ShortMessage>,
    DecodeError,
>)
    ensures
        all_rows_decodable(rows@) ==> (r matches Ok(msgs) && msgs@.len() == rows@.len()
            && forall|i: int|
            0 <= i < rows@.len() ==> is_decoded_from(#[trigger] msgs@[i], rows@[i]@)),
        !all_rows_decodable(rows@) ==> (r matches Err(e) && {
            let b = first_bad_row(rows@);
            &&& 0 <= b < rows@.len()
            &&& !row_decodable(rows@[b]@)
            &&& forall|j: int| 0 <= j < b ==> row_decodable(#[trigger] rows@[j]@)
            &&& e == DecodeError::MissingField(
                first_missing_index(rows@[b]@.len() as int) as usize,
            )
        }),
{
    let mut msgs: Vec<ShortMessage> = Vec::new();
    let mut i: usize = 0;
    while i < rows.len()
        invariant
            0 <= i <= rows@.len(),
            msgs@.len() == i,
            forall|j: int| 0 <= j < i ==> row_decodable(#[trigger] rows@[j]@),
            forall|j: int| 0 <= j < i ==> is_decoded_from(#[trigger] msgs@[j], rows@[j]@),
        decreases rows@.len() - i,
    {
        match decode_row(&rows[i]) {
            Ok(m) => {
                msgs.push(m);
            },
            Err(e) => {
                proof {
                    assert(!row_decodable(rows@[i as int]@));
                    assert(!all_rows_decodable(rows@));
                    let b = first_bad_row(rows@);
                    assert(0 <= b < rows@.len() && !row_decodable(rows@[b]@) && forall|j: int|
                        0 <= j < b ==> row_decodable(#[trigger] rows@[j]@)) by {
                        assert(0 <= i < rows@.len() && !row_decodable(rows@[i as int]@)
                            && forall|j: int|
                            0 <= j < i ==> row_decodable(#[trigger] rows@[j]@));
                    }
                    assert(b == i as int) by {
                        if b < i as int {
                            assert(row_decodable(rows@[b]@));
                        }
                        if b > i as int {
                            assert(row_decodable(rows@[i as int]@));
                        }
                    }
                }
                return Err(e);
            },
        }
        i = i + 1;
    }
    Ok(msgs)
}

} // verus!
