//! The pipeline driver: a state machine that takes one chunk at a time
//! through decode, classification and routing, keeps the run-level
//! counters, and preserves partial results when a step fails.

use vstd::prelude::*;
use crate::classify::aligned;
use crate::classify::build_request;
use crate::classify::request_body_of;
use crate::classify::resolve_message_kind;
use crate::classify::response_matches_of;
use crate::classify::ClassificationError;
use crate::message::all_rows_decodable;
use crate::message::first_bad_row;
use crate::message::first_missing_index;
use crate::message::is_decoded_from;
use crate::message::make_messages_vec;
use crate::message::DecodeError;
use crate::message::ShortMessage;
use crate::stats::count_of;
use crate::stats::weight_of;
use crate::stats::StatsTable;

verus! {

/// The driver's phases: a run is built `Idle`, processes chunks while
/// `Running`, drains to its outputs once the input is exhausted or the
/// chunk cap is reached, and ends `Done`; any unrecoverable error while
/// processing sends it to `Failed` with all partial results kept.
#[derive(Clone, Copy, Debug, PartialEq, Eq, Structural)]
pub enum RunState {
    Idle,
    Running,
    Draining,
    Done,
    Failed,
}

/// One row of the residual output: the fields written for a message the
/// service did not match, in arrival order.
#[derive(Clone, Debug)]
pub struct ResidualRow {
    pub received_at: String,
    pub to: String,
    pub text: String,
}

/// The mathematical content of one residual row.
pub open spec fn residual_row_view(r: ResidualRow) -> (Seq<char>, Seq<char>, Seq<char>) {
    (r.received_at@, r.to@, r.text@)
}

/// What one attempt to reach the service came back with: a response, of
/// some status and body text, or no response at all.
#[derive(Clone, Debug)]
pub enum HttpOutcome {
    Response { status: u16, body: String },
    TransportFailed,
}

/// Among the first `n` batch positions, how many carry an answer entry
/// with a template identifier for template `t`.
pub open spec fn matched_count_pfx(
    es: Seq<(Option<Seq<char>>, Option<usize>, Option<usize>)>,
    t: usize,
    n: int,
) -> int
    decreases n,
{
    if n <= 0 {
        0
    } else {
        matched_count_pfx(es, t, n - 1) + if 0 <= n - 1 < es.len() && es[n - 1].1 == Some(t) {
            1int
        } else {
            0int
        }
    }
}

/// The weight an answer entry contributes: its weight value, or 0 when the
/// service left the weight out.
pub open spec fn entry_weight_val(w: Option<usize>) -> usize {
    match w {
        Some(x) => x,
        None => 0,
    }
}

/// Among the first `n` batch positions, the total weight recorded for
/// template `t`.
pub open spec fn matched_weight_pfx(
    es: Seq<(Option<Seq<char>>, Option<usize>, Option<usize>)>,
    t: usize,
    n: int,
) -> int
    decreases n,
{
    if n <= 0 {
        0
    } else {
        matched_weight_pfx(es, t, n - 1) + if 0 <= n - 1 < es.len() && es[n - 1].1 == Some(t) {
            entry_weight_val(es[n - 1].2) as int
        } else {
            0int
        }
    }
}

/// Among the first `n` batch positions, how many carry any template
/// identifier at all.
pub open spec fn matched_total_pfx(
    es: Seq<(Option<Seq<char>>, Option<usize>, Option<usize>)>,
    n: int,
) -> int
    decreases n,
{
    if n <= 0 {
        0
    } else {
        matched_total_pfx(es, n - 1) + if 0 <= n - 1 < es.len() && es[n - 1].1 is Some {
            1int
        } else {
            0int
        }
    }
}

/// The residual rows of the first `n` batch positions: one row, of the
/// message's receivedAt, recipient and body, for each position without a
/// template identifier, in batch order.
pub open spec fn residual_views_pfx(
    msgs: Seq<ShortMessage>,
    es: Seq<(Option<Seq<char>>, Option<usize>, Option<usize>)>,
    n: int,
) -> Seq<(Seq<char>, Seq<char>, Seq<char>)>
    decreases n,
{
    if n <= 0 {
        Seq::empty()
    } else {
        residual_views_pfx(msgs, es, n - 1) + if 0 <= n - 1 < es.len() && es[n - 1].1 is Some {
            Seq::empty()
        } else {
            seq![(msgs[n - 1].received_at@, msgs[n - 1].to@, msgs[n - 1].text@)]
        }
    }
}

/// The matched tally over a prefix never exceeds the prefix length.
pub proof fn lemma_matched_total_bounds(
    es: Seq<(Option<Seq<char>>, Option<usize>, Option<usize>)>,
    n: int,
)
    ensures
        0 <= matched_total_pfx(es, n) <= if n <= 0 {
            0int
        } else {
            n
        },
    decreases n,
{
    if n > 0 {
        lemma_matched_total_bounds(es, n - 1);
    }
}

/// A batch of messages not yet touched by the classification client.
pub open spec fn all_unclassified(msgs: Seq<ShortMessage>) -> bool {
    forall|i: int|
        0 <= i < msgs.len() ==> (#[trigger] msgs[i]).template_id is None && msgs[i].weight is None
}

/// Two runs that agree on everything but the phase.
pub open spec fn same_but_state(a: Run, b: Run, st: RunState) -> bool {
    &&& b.state == st
    &&& b.stats == a.stats
    &&& b.unmatched_msgs == a.unmatched_msgs
    &&& b.messages_in == a.messages_in
    &&& b.batches_done == a.batches_done
    &&& b.mp_id == a.mp_id
    &&& b.batch_size == a.batch_size
    &&& b.max_batches == a.max_batches
}

/// One run of the pipeline: its phase, the statistics table, the residual
/// counter, and the chunk bookkeeping against the configured caps.
pub struct Run {
    pub state: RunState,
    pub stats: StatsTable,
    pub unmatched_msgs: usize,
    pub messages_in: usize,
    pub batches_done: usize,
    pub mp_id: u16,
    pub batch_size: usize,
    pub max_batches: usize,
}

impl Run {
    /// The run's invariant: the table is well formed, chunks never outrun
    /// the configured cap, the whole run fits the machine's counters, and
    /// every message that entered is on exactly one side of the ledger:
    /// matched in the table or counted unmatched.
    pub open spec fn inv(self) -> bool {
        &&& self.stats.wf()
        &&& self.batch_size >= 1
        &&& self.max_batches * self.batch_size <= usize::MAX as int
        &&& self.batches_done <= self.max_batches
        &&& self.stats.total_msgs + self.unmatched_msgs == self.messages_in
        &&& self.messages_in <= self.batches_done * self.batch_size
    }

    /// A fresh run over the given configuration, not yet started.
    pub fn new(mp_id: u16, batch_size: usize, max_batches: usize) -> (r: Run)
        requires
            batch_size >= 1,
            max_batches * batch_size <= usize::MAX as int,
        ensures
            r.inv(),
            r.state == RunState::Idle,
            r.stats.templates@.len() == 0,
            r.stats.total_msgs == 0,
            r.unmatched_msgs == 0,
            r.messages_in == 0,
            r.batches_done == 0,
            r.mp_id == mp_id,
            r.batch_size == batch_size,
            r.max_batches == max_batches,
    {
        let r = Run {
            state: RunState::Idle,
            stats: StatsTable::new(),
            unmatched_msgs: 0,
            messages_in: 0,
            batches_done: 0,
            mp_id,
            batch_size,
            max_batches,
        };
        proof {
            assert(0int * r.batch_size == 0) by (nonlinear_arith);
        }
        r
    }

    /// Starts the run: the inputs are in hand, chunks may now flow.
    pub fn start(&mut self)
        requires
            old(self).inv(),
            old(self).state == RunState::Idle,
        ensures
            final(self).inv(),
            same_but_state(*old(self), *final(self), RunState::Running),
    {
        self.state = RunState::Running;
    }

    /// Whether the driver will accept another chunk: only while running,
    /// and only below the configured chunk cap.
    pub fn wants_next_chunk(&self) -> (r: bool)
        ensures
            r == (self.state == RunState::Running && self.batches_done < self.max_batches),
    {
        match self.state {
            RunState::Running => self.batches_done < self.max_batches,
            _ => false,
        }
    }

    /// Decodes one chunk of raw rows and builds its request payload. A
    /// decode failure is unrecoverable: it fails the run on the spot and
    /// hands back the offending row's error, with all partial results
    /// kept.
    pub fn begin_chunk(&mut self, rows: &Vec<Vec<String>>) -> (r: Result<
        (Vec<ShortMessage>, String),
        DecodeError,
    >)
        requires
            old(self).inv(),
            old(self).state == RunState::Running,
        ensures
            final(self).inv(),
            all_rows_decodable(rows@) ==> (r matches Ok(p) && same_but_state(
                *old(self),
                *final(self),
                RunState::Running,
            ) && p.0@.len() == rows@.len() && (forall|i: int|
                0 <= i < rows@.len() ==> is_decoded_from(#[trigger] p.0@[i], rows@[i]@))
                && all_unclassified(p.0@) && p.1@ == request_body_of(
                old(self).mp_id as int,
                p.0@,
            )),
            !all_rows_decodable(rows@) ==> (r matches Err(e) && same_but_state(
                *old(self),
                *final(self),
                RunState::Failed,
            ) && e == DecodeError::MissingField(
                first_missing_index(rows@[first_bad_row(rows@)]@.len() as int) as usize,
            )),
    {
        match make_messages_vec(rows) {
            Ok(msgs) => {
                let req = build_request(self.mp_id, &msgs);
                Ok((msgs, req))
            },
            Err(e) => {
                self.state = RunState::Failed;
                Err(e)
            },
        }
    }

    /// Takes one decoded chunk through classification and routing, given
    /// what came back over the wire. A transport failure, a non-success
    /// status or an unparseable body fails the run with everything
    /// gathered so far kept. Otherwise every message of the chunk is
    /// routed by the presence of its template identifier: matched messages
    /// are recorded in the table (an absent weight counts 0), unmatched
    /// messages become residual rows, in batch order, and the chunk is
    /// accounted against the cap.
    pub fn finish_chunk(&mut self, msgs: Vec<ShortMessage>, outcome: HttpOutcome) -> (r: Result<
        Vec<ResidualRow>,
        ClassificationError,
    >)
        requires
            old(self).inv(),
            old(self).state == RunState::Running,
            old(self).batches_done < old(self).max_batches,
            msgs@.len() <= old(self).batch_size,
            all_unclassified(msgs@),
        ensures
            final(self).inv(),
            outcome is TransportFailed ==> (r == Result::<
                Vec<ResidualRow>,
                ClassificationError,
            >::Err(ClassificationError::Transport) && same_but_state(
                *old(self),
                *final(self),
                RunState::Failed,
            )),
            outcome matches HttpOutcome::Response { status, body } ==> !(200 <= status < 300)
                ==> (r == Result::<Vec<ResidualRow>, ClassificationError>::Err(
                ClassificationError::BadStatus(status),
            ) && same_but_state(*old(self), *final(self), RunState::Failed)),
            outcome matches HttpOutcome::Response { status, body } ==> (200 <= status < 300
                && response_matches_of(body@) is None) ==> (r == Result::<
                Vec<ResidualRow>,
                ClassificationError,
            >::Err(ClassificationError::UnparseableResponse) && same_but_state(
                *old(self),
                *final(self),
                RunState::Failed,
            )),
            outcome matches HttpOutcome::Response { status, body } ==> (200 <= status < 300
                ==> (response_matches_of(body@) matches Some(es) ==> (r matches Ok(rows) && {
                let k = msgs@.len() as int;
                &&& final(self).state == RunState::Running
                &&& final(self).batches_done == old(self).batches_done + 1
                &&& final(self).messages_in == old(self).messages_in + k
                &&& final(self).mp_id == old(self).mp_id
                &&& final(self).batch_size == old(self).batch_size
                &&& final(self).max_batches == old(self).max_batches
                &&& final(self).stats.total_msgs == old(self).stats.total_msgs
                    + matched_total_pfx(es, k)
                &&& final(self).unmatched_msgs == old(self).unmatched_msgs + k
                    - matched_total_pfx(es, k)
                &&& forall|t: usize|
                    #[trigger] count_of(final(self).stats.templates@, t) == count_of(
                        old(self).stats.templates@,
                        t,
                    ) + matched_count_pfx(es, t, k)
                &&& forall|t: usize|
                    #[trigger] weight_of(final(self).stats.templates@, t) == weight_of(
                        old(self).stats.templates@,
                        t,
                    ) + matched_weight_pfx(es, t, k)
                &&& rows@.map_values(|x: ResidualRow| residual_row_view(x))
                    == residual_views_pfx(msgs@, es, k)
            }))),
    {
        match outcome {
            HttpOutcome::TransportFailed => {
                self.state = RunState::Failed;
                Err(ClassificationError::Transport)
            },
            HttpOutcome::Response { status, body } => {
                if !(200 <= status && status < 300) {
                    self.state = RunState::Failed;
                    Err(ClassificationError::BadStatus(status))
                } else {
                    let ghost msgs0 = msgs@;
                    let k = msgs.len();
                    match resolve_message_kind(msgs, body.as_str()) {
                        Err(_) => {
                            self.state = RunState::Failed;
                            Err(ClassificationError::UnparseableResponse)
                        },
                        Ok(classified) => {
                            let ghost es = response_matches_of(body@)->Some_0;
                            let ghost cls = classified@;
                            let ghost pre = *self;
                            let mut rows: Vec<ResidualRow> = Vec::new();
                            let mut rest = classified;
                            let mut i: usize = 0;
                            while rest.len() > 0
                                invariant
                                    aligned(msgs0, es, cls),
                                    all_unclassified(msgs0),
                                    cls.len() == msgs0.len(),
                                    k == msgs0.len(),
                                    i + rest@.len() == k,
                                    rest@ =~= cls.skip(i as int),
                                    pre == *old(self),
                                    pre.inv(),
                                    pre.state == RunState::Running,
                                    pre.batches_done < pre.max_batches,
                                    k <= pre.batch_size,
                                    self.state == pre.state,
                                    self.mp_id == pre.mp_id,
                                    self.batch_size == pre.batch_size,
                                    self.max_batches == pre.max_batches,
                                    self.batches_done == pre.batches_done,
                                    self.messages_in == pre.messages_in,
                                    self.stats.wf(),
                                    self.stats.total_msgs == pre.stats.total_msgs
                                        + matched_total_pfx(es, i as int),
                                    self.unmatched_msgs == pre.unmatched_msgs + i
                                        - matched_total_pfx(es, i as int),
                                    forall|t: usize|
                                        #[trigger] count_of(self.stats.templates@, t) == count_of(
                                            pre.stats.templates@,
                                            t,
                                        ) + matched_count_pfx(es, t, i as int),
                                    forall|t: usize|
                                        #[trigger] weight_of(self.stats.templates@, t)
                                            == weight_of(pre.stats.templates@, t)
                                            + matched_weight_pfx(es, t, i as int),
                                    rows@.map_values(|x: ResidualRow| residual_row_view(x))
                                        == residual_views_pfx(msgs0, es, i as int),
                                decreases rest@.len(),
                            {
                                proof {
                                    lemma_matched_total_bounds(es, i as int);
                                    assert(pre.batches_done * pre.batch_size + pre.batch_size == (
                                    pre.batches_done + 1) * pre.batch_size) by (nonlinear_arith);
                                    assert((pre.batches_done + 1) * pre.batch_size
                                        <= pre.max_batches * pre.batch_size) by (nonlinear_arith)
                                        requires
                                            pre.batches_done + 1 <= pre.max_batches,
                                            pre.batch_size >= 1,
                                    ;
                                    assert(self.stats.total_msgs + self.unmatched_msgs
                                        < usize::MAX);
                                }
                                let ghost old_rest = rest@;
                                let m = rest.remove(0);
                                proof {
                                    assert(old_rest.remove(0) =~= old_rest.drop_first());
                                    assert(m == cls[i as int]);
                                    assert(rest@ =~= cls.skip(i + 1));
                                }
                                match m.template_id {
                                    Some(t_id) => {
                                        proof {
                                            assert(i < es.len() && es[i as int].1 == Some(t_id));
                                            assert(m.weight == es[i as int].2);
                                        }
                                        let w = match m.weight {
                                            Some(w) => w,
                                            None => 0,
                                        };
                                        self.stats.append(t_id, w);
                                        proof {
                                            assert(residual_views_pfx(msgs0, es, i + 1)
                                                =~= residual_views_pfx(msgs0, es, i as int));
                                        }
                                    },
                                    None => {
                                        proof {
                                            assert(i >= es.len() || es[i as int].1 is None);
                                        }
                                        rows.push(
                                            ResidualRow {
                                                received_at: m.received_at,
                                                to: m.to,
                                                text: m.text,
                                            },
                                        );
                                        self.unmatched_msgs = self.unmatched_msgs + 1;
                                        proof {
                                            assert(rows@.map_values(
                                                |x: ResidualRow| residual_row_view(x),
                                            ) =~= residual_views_pfx(msgs0, es, i + 1));
                                        }
                                    },
                                }
                                i = i + 1;
                            }
                            proof {
                                assert(i == k);
                                lemma_matched_total_bounds(es, k as int);
                                assert(pre.batches_done * pre.batch_size + pre.batch_size == (
                                pre.batches_done + 1) * pre.batch_size) by (nonlinear_arith);
                                assert((pre.batches_done + 1) * pre.batch_size <= pre.max_batches
                                    * pre.batch_size) by (nonlinear_arith)
                                    requires
                                        pre.batches_done + 1 <= pre.max_batches,
                                        pre.batch_size >= 1,
                                ;
                            }
                            self.messages_in = self.messages_in + k;
                            self.batches_done = self.batches_done + 1;
                            Ok(rows)
                        },
                    }
                }
            },
        }
    }

    /// The input is exhausted or the chunk cap is reached: stop taking
    /// chunks and turn to persisting the outputs. Not an error.
    pub fn finish_input(&mut self)
        requires
            old(self).inv(),
            old(self).state == RunState::Running,
        ensures
            final(self).inv(),
            same_but_state(*old(self), *final(self), RunState::Draining),
    {
        self.state = RunState::Draining;
    }

    /// The outputs are persisted: the run is complete.
    pub fn complete(&mut self)
        requires
            old(self).inv(),
            old(self).state == RunState::Draining,
        ensures
            final(self).inv(),
            same_but_state(*old(self), *final(self), RunState::Done),
    {
        self.state = RunState::Done;
    }
}

/// Every message that entered a run sits on exactly one side of the
/// ledger: the matched total of the statistics table and the unmatched
/// counter add up to the number of messages taken in.
pub proof fn lemma_message_conservation(r: Run)
    requires
        r.inv(),
    ensures
        r.stats.total_msgs + r.unmatched_msgs == r.messages_in,
{
}

} // verus!
