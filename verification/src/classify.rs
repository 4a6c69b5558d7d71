//! The classification client: builds the request payload for a batch of
//! messages, reads the matching service's answer, and aligns the answer
//! entries with the batch by position.

use vstd::prelude::*;
use crate::message::SMKind;
use crate::message::ShortMessage;

verus! {

/// One entry of the service's answer, reduced to plain values: the
/// template-purpose tag, the template identifier and the weight, each of
/// which the service may leave out.
#[derive(Clone, Debug)]
pub struct RawMatch {
    pub purpose: Option<String>,
    pub template_id: Option<usize>,
    pub weight: Option<usize>,
}

/// The mathematical content of one answer entry.
pub open spec fn raw_match_view(m: RawMatch) -> (Option<Seq<char>>, Option<usize>, Option<
    usize,
>) {
    (
        match m.purpose {
            Some(p) => Some(p@),
            None => None,
        },
        m.template_id,
        m.weight,
    )
}

/// The serialised request object sent for one message: a function of the
/// party identifier and the message's sender and body alone.
pub uninterp spec fn msg_json_of(mp_id: int, number: Seq<char>, text: Seq<char>) -> Seq<char>;

/// The answer entries found at `result.matches` of a response text, or
/// nothing when the text is not a JSON document: a function of the text
/// alone. A parsed document without that path yields the empty sequence.
pub uninterp spec fn response_matches_of(body: Seq<char>) -> Option<
    Seq<(Option<Seq<char>>, Option<usize>, Option<usize>)>,
>;

/// Relies on `json::stringify`, `JsonValue::new_object` and the crate's
/// `IndexMut` insertion: serialises the one request object
/// `{mp_id, number, text}` built from the arguments, and depends on the
/// arguments alone.
#[verifier::external_body]
fn encode_one(mp_id: u16, number: &str, text: &str) -> (r: String)
    ensures
        r@ == msg_json_of(mp_id as int, number@, text@),
{
    let mut o = json::JsonValue::new_object();
    o["mp_id"] = mp_id.into();
    o["number"] = number.into();
    o["text"] = text.into();
    json::stringify(o)
}

/// Relies on `json::parse` and the `JsonValue` accessors `members`,
/// `as_str` and `as_usize`: hands back the entries at `result.matches` as
/// plain values, or nothing when the text does not parse, and depends on
/// the text alone.
#[verifier::external_body]
fn extract_matches(body: &str) -> (r: Option<Vec<RawMatch>>)
    ensures
        match r {
            Some(v) => response_matches_of(body@) == Some(
                v@.map_values(|m: RawMatch| raw_match_view(m)),
            ),
            None => response_matches_of(body@) is None,
        },
{
    let parsed = match json::parse(body) {
        Ok(v) => v,
        Err(_) => return None,
    };
    let mut out = Vec::new();
    for m in parsed["result"]["matches"].members() {
        out.push(RawMatch {
            purpose: m["template_purpose"].as_str().map(|p| p.to_string()),
            template_id: m["template_id"].as_usize(),
            weight: m["weight"].as_usize(),
        });
    }
    Some(out)
}

/// The request entries of a batch, one per message, in batch order.
pub open spec fn request_parts(mp_id: int, msgs: Seq<ShortMessage>) -> Seq<Seq<char>> {
    msgs.map_values(|m: ShortMessage| msg_json_of(mp_id, m.sender@, m.text@))
}

/// The parts joined by single commas, in order.
pub open spec fn joined_with_commas(parts: Seq<Seq<char>>) -> Seq<char>
    decreases parts.len(),
{
    if parts.len() == 0 {
        Seq::empty()
    } else if parts.len() == 1 {
        parts[0]
    } else {
        joined_with_commas(parts.drop_last()) + seq![','] + parts.last()
    }
}

/// The whole request body for a batch: the per-message request objects,
/// comma-joined, in one JSON array, in batch order.
pub open spec fn request_body_of(mp_id: int, msgs: Seq<ShortMessage>) -> Seq<char> {
    seq!['['] + joined_with_commas(request_parts(mp_id, msgs)) + seq![']']
}

/// Builds the request payload for one batch: one `{mp_id, number, text}`
/// object per message, in batch order, wrapped in a JSON array.
pub fn build_request(mp_id: u16, msgs: &Vec<ShortMessage>) -> (r: String)
    ensures
        r@ == request_body_of(mp_id as int, msgs@),
{
    let ghost parts = request_parts(mp_id as int, msgs@);
    let mut out = String::new();
    out.append("[");
    proof {
        reveal_strlit("[");
        assert(out@ =~= seq!['['] + joined_with_commas(parts.take(0)));
    }
    let mut i: usize = 0;
    while i < msgs.len()
        invariant
            0 <= i <= msgs@.len(),
            parts == request_parts(mp_id as int, msgs@),
            parts.len() == msgs@.len(),
            out@ == seq!['['] + joined_with_commas(parts.take(i as int)),
        decreases msgs@.len() - i,
    {
        if i > 0 {
            out.append(",");
            proof {
                reveal_strlit(",");
            }
        }
        let part = encode_one(mp_id, msgs[i].sender.as_str(), msgs[i].text.as_str());
        out.append(part.as_str());
        proof {
            assert(parts[i as int] == msg_json_of(mp_id as int, msgs@[i as int].sender@, msgs@[i as int].text@));
            assert(parts.take(i + 1).drop_last() =~= parts.take(i as int));
            assert(parts.take(i + 1).last() == parts[i as int]);
            if i == 0 {
                assert(joined_with_commas(parts.take(1)) == parts[0]);
                assert(out@ =~= seq!['['] + joined_with_commas(parts.take(1)));
            } else {
                assert(joined_with_commas(parts.take(i + 1)) == joined_with_commas(
                    parts.take(i as int),
                ) + seq![','] + parts[i as int]);
                assert(out@ =~= seq!['['] + joined_with_commas(parts.take(i + 1)));
            }
        }
        i = i + 1;
    }
    out.append("]");
    proof {
        reveal_strlit("]");
        assert(parts.take(parts.len() as int) =~= parts);
        assert(out@ =~= request_body_of(mp_id as int, msgs@));
    }
    out
}

/// The classification a purpose tag names: `transaction` and `service` are
/// recognised; anything else, or no tag at all, is an advertisement.
pub open spec fn kind_of_purpose(p: Option<Seq<char>>) -> SMKind {
    if p == Some("transaction"@) {
        SMKind::Transaction
    } else if p == Some("service"@) {
        SMKind::Service
    } else {
        SMKind::Advertisement
    }
}

/// Positional alignment of a batch with the answer entries: message `i`
/// carries entry `i`'s classification; a message past the end of the
/// answer is left exactly as it came in (in particular unmatched, when it
/// came in unclassified); entries past the end of the batch answer no
/// message and are dropped.
pub open spec fn aligned(
    msgs: Seq<ShortMessage>,
    entries: Seq<(Option<Seq<char>>, Option<usize>, Option<usize>)>,
    out: Seq<ShortMessage>,
) -> bool {
    &&& out.len() == msgs.len()
    &&& forall|i: int|
        0 <= i < msgs.len() ==> (#[trigger] out[i]).sender@ == msgs[i].sender@ && out[i].text@
            == msgs[i].text@ && out[i].received_at@ == msgs[i].received_at@ && out[i].to@
            == msgs[i].to@
    &&& forall|i: int|
        0 <= i < msgs.len() && i < entries.len() ==> (#[trigger] out[i]).kind == kind_of_purpose(
            entries[i].0,
        ) && out[i].template_id == entries[i].1 && out[i].weight == entries[i].2
    &&& forall|i: int|
        entries.len() <= i < msgs.len() ==> (#[trigger] out[i]).kind == msgs[i].kind
            && out[i].template_id == msgs[i].template_id && out[i].weight == msgs[i].weight
}

/// Applies the answer entries to a batch positionally: message `i` takes
/// entry `i`'s tag, template identifier and weight; messages past the end
/// of the answer are left untouched; entries past the end of the batch are
/// dropped. This is the whole alignment policy: no message ever takes
/// another message's entry.
pub fn align_results(msgs: Vec<ShortMessage>, entries: &Vec<RawMatch>) -> (r: Vec<ShortMessage>)
    ensures
        aligned(msgs@, entries@.map_values(|m: RawMatch| raw_match_view(m)), r@),
{
    let ghost msgs0 = msgs@;
    let ghost es = entries@.map_values(|m: RawMatch| raw_match_view(m));
    let transaction_tag: String = "transaction".to_owned();
    let service_tag: String = "service".to_owned();
    proof {
        reveal_strlit("transaction");
        reveal_strlit("service");
    }
    let mut rest = msgs;
    let total = rest.len();
    proof {
        assert(total == msgs0.len());
    }
    let mut out: Vec<ShortMessage> = Vec::new();
    let mut i: usize = 0;
    while rest.len() > 0
        invariant
            es == entries@.map_values(|m: RawMatch| raw_match_view(m)),
            es.len() == entries@.len(),
            msgs0.len() <= usize::MAX,
            i + rest@.len() == msgs0.len(),
            i == out@.len(),
            rest@ =~= msgs0.skip(i as int),
            transaction_tag@ == "transaction"@,
            service_tag@ == "service"@,
            forall|j: int|
                0 <= j < i ==> (#[trigger] out@[j]).sender@ == msgs0[j].sender@ && out@[j].text@
                    == msgs0[j].text@ && out@[j].received_at@ == msgs0[j].received_at@
                    && out@[j].to@ == msgs0[j].to@,
            forall|j: int|
                0 <= j < i && j < es.len() ==> (#[trigger] out@[j]).kind == kind_of_purpose(
                    es[j].0,
                ) && out@[j].template_id == es[j].1 && out@[j].weight == es[j].2,
            forall|j: int|
                es.len() <= j < i ==> (#[trigger] out@[j]).kind == msgs0[j].kind
                    && out@[j].template_id == msgs0[j].template_id && out@[j].weight
                    == msgs0[j].weight,
        decreases rest@.len(),
    {
        let ghost old_rest = rest@;
        let m = rest.remove(0);
        proof {
            assert(old_rest.remove(0) =~= old_rest.drop_first());
            assert(m == msgs0[i as int]);
            assert(rest@ =~= msgs0.skip(i + 1));
        }
        if i < entries.len() {
            let kind = match &entries[i].purpose {
                Some(p) => {
                    if *p == transaction_tag {
                        SMKind::Transaction
                    } else if *p == service_tag {
                        SMKind::Service
                    } else {
                        SMKind::Advertisement
                    }
                },
                None => SMKind::Advertisement,
            };
            proof {
                assert(es[i as int] == raw_match_view(entries@[i as int]));
                assert(kind == kind_of_purpose(es[i as int].0));
            }
            let m2 = ShortMessage {
                received_at: m.received_at,
                to: m.to,
                sender: m.sender,
                text: m.text,
                kind,
                template_id: entries[i].template_id,
                weight: entries[i].weight,
            };
            out.push(m2);
        } else {
            out.push(m);
        }
        i = i + 1;
    }
    proof {
        assert(msgs0.skip(msgs0.len() as int) =~= Seq::<ShortMessage>::empty());
        assert(out@.len() == msgs0.len());
    }
    out
}

/// What went wrong while classifying a batch: the transport failed, the
/// service answered with a non-success status, the response text did not
/// parse, or the answer held fewer entries than the batch had messages
/// (reported by clients that refuse short answers; the baseline pipeline
/// instead treats the trailing messages as unmatched).
#[derive(Clone, Copy, Debug, PartialEq, Eq, Structural)]
pub enum ClassificationError {
    Transport,
    BadStatus(u16),
    UnparseableResponse,
    ShortResponse,
}

/// Resolves the classification of every message in a batch from the
/// service's response text: parses the text, then aligns the entries at
/// `result.matches` with the batch by position. A text that does not parse
/// is an `UnparseableResponse` error and classifies nothing.
pub fn resolve_message_kind(msgs: Vec<ShortMessage>, response_body: &str) -> (r: Result<
    Vec<ShortMessage>,
    ClassificationError,
>)
    ensures
        response_matches_of(response_body@) is None ==> r == Result::<
            Vec<ShortMessage>,
            ClassificationError,
        >::Err(ClassificationError::UnparseableResponse),
        response_matches_of(response_body@) matches Some(es) ==> (r matches Ok(out) && aligned(
            msgs@,
            es,
            out@,
        )),
{
    match extract_matches(response_body) {
        None => Err(ClassificationError::UnparseableResponse),
        Some(entries) => Ok(align_results(msgs, &entries)),
    }
}

} // verus!
