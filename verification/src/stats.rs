//! The aggregator: a per-template statistics table that accumulates, for
//! each template identifier, how many messages matched it and their total
//! weight, in first-seen order.

use vstd::prelude::*;

verus! {

/// The running totals for one template identifier.
#[derive(Clone, Copy, Debug, PartialEq, Eq, Structural)]
pub struct TemplateStat {
    pub msg_count: usize,
    pub msg_weight: u128,
}

/// The statistics table of a run: one entry per template identifier, in the
/// order the identifiers were first recorded, plus the total number of
/// messages recorded.
#[derive(Clone, Debug)]
pub struct StatsTable {
    pub templates: Vec<(usize, TemplateStat)>,
    pub total_msgs: usize,
}

/// The template identifiers of the table's entries, in table order.
pub open spec fn keys(s: Seq<(usize, TemplateStat)>) -> Seq<usize> {
    s.map_values(|e: (usize, TemplateStat)| e.0)
}

/// No template identifier occurs twice.
pub open spec fn distinct_keys(s: Seq<(usize, TemplateStat)>) -> bool {
    forall|i: int, j: int| 0 <= i < j < s.len() ==> s[i].0 != s[j].0
}

/// Whether the table has an entry for template `t`.
pub open spec fn has_template(s: Seq<(usize, TemplateStat)>, t: usize) -> bool {
    exists|i: int| 0 <= i < s.len() && s[i].0 == t
}

/// The position of template `t`'s entry.
pub open spec fn template_index(s: Seq<(usize, TemplateStat)>, t: usize) -> int {
    choose|i: int| 0 <= i < s.len() && s[i].0 == t
}

/// How many messages have been recorded against template `t` (0 if none).
pub open spec fn count_of(s: Seq<(usize, TemplateStat)>, t: usize) -> int {
    if has_template(s, t) {
        s[template_index(s, t)].1.msg_count as int
    } else {
        0
    }
}

/// The total weight recorded against template `t` (0 if none).
pub open spec fn weight_of(s: Seq<(usize, TemplateStat)>, t: usize) -> int {
    if has_template(s, t) {
        s[template_index(s, t)].1.msg_weight as int
    } else {
        0
    }
}

/// The message counts of all entries added up.
pub open spec fn sum_counts(s: Seq<(usize, TemplateStat)>) -> int
    decreases s.len(),
{
    if s.len() == 0 {
        0
    } else {
        sum_counts(s.drop_last()) + s.last().1.msg_count
    }
}

/// With distinct keys, an entry holding `t` at position `i` is the entry
/// `template_index` finds.
pub proof fn lemma_index_unique(s: Seq<(usize, TemplateStat)>, t: usize, i: int)
    requires
        distinct_keys(s),
        0 <= i < s.len(),
        s[i].0 == t,
    ensures
        has_template(s, t),
        template_index(s, t) == i,
{
    assert(has_template(s, t));
    let j = template_index(s, t);
    if j != i {
        if j < i {
            assert(s[j].0 != s[i].0);
        } else {
            assert(s[i].0 != s[j].0);
        }
    }
}

/// Every entry's count is at most the sum of all counts.
proof fn lemma_count_le_sum(s: Seq<(usize, TemplateStat)>, i: int)
    requires
        0 <= i < s.len(),
    ensures
        s[i].1.msg_count <= sum_counts(s),
        sum_counts(s) >= 0,
    decreases s.len(),
{
    lemma_sum_counts_nonneg(s.drop_last());
    if i < s.len() - 1 {
        lemma_count_le_sum(s.drop_last(), i);
        assert(s.drop_last()[i] == s[i]);
    }
}

/// The sum of counts is never negative.
proof fn lemma_sum_counts_nonneg(s: Seq<(usize, TemplateStat)>)
    ensures
        sum_counts(s) >= 0,
    decreases s.len(),
{
    if s.len() > 0 {
        lemma_sum_counts_nonneg(s.drop_last());
    }
}

/// Replacing one entry shifts the sum of counts by the change at that entry.
proof fn lemma_sum_counts_update(
    s: Seq<(usize, TemplateStat)>,
    i: int,
    e: (usize, TemplateStat),
)
    requires
        0 <= i < s.len(),
    ensures
        sum_counts(s.update(i, e)) == sum_counts(s) - s[i].1.msg_count + e.1.msg_count,
    decreases s.len(),
{
    let s2 = s.update(i, e);
    if i == s.len() - 1 {
        assert(s2.drop_last() =~= s.drop_last());
        assert(s2.last() == e);
    } else {
        assert(s2.drop_last() =~= s.drop_last().update(i, e));
        lemma_sum_counts_update(s.drop_last(), i, e);
        assert(s2.last() == s.last());
        assert(s.drop_last()[i] == s[i]);
    }
}

/// Recording one pair twice: against a table that had no entry for the
/// template, two recordings of `(t, w)` (each raising the count by one and
/// the weight by `w`, as `StatsTable::append` promises) leave exactly a
/// count of 2 and a weight of `2 * w`.
pub proof fn lemma_record_twice(
    s0: Seq<(usize, TemplateStat)>,
    s1: Seq<(usize, TemplateStat)>,
    s2: Seq<(usize, TemplateStat)>,
    t: usize,
    w: usize,
)
    requires
        !has_template(s0, t),
        count_of(s1, t) == count_of(s0, t) + 1,
        weight_of(s1, t) == weight_of(s0, t) + w,
        count_of(s2, t) == count_of(s1, t) + 1,
        weight_of(s2, t) == weight_of(s1, t) + w,
    ensures
        count_of(s2, t) == 2,
        weight_of(s2, t) == 2 * w,
{
}

/// Recording two different templates yields two independent entries: after
/// recording `(t1, w1)` and then `(t2, w2)` against a table that had
/// neither, each template holds exactly its own count of 1 and its own
/// weight, untouched by the other recording.
pub proof fn lemma_record_independent(
    s0: Seq<(usize, TemplateStat)>,
    s1: Seq<(usize, TemplateStat)>,
    s2: Seq<(usize, TemplateStat)>,
    t1: usize,
    t2: usize,
    w1: usize,
    w2: usize,
)
    requires
        t1 != t2,
        !has_template(s0, t1),
        !has_template(s0, t2),
        count_of(s1, t1) == count_of(s0, t1) + 1,
        weight_of(s1, t1) == weight_of(s0, t1) + w1,
        count_of(s1, t2) == count_of(s0, t2),
        weight_of(s1, t2) == weight_of(s0, t2),
        count_of(s2, t2) == count_of(s1, t2) + 1,
        weight_of(s2, t2) == weight_of(s1, t2) + w2,
        count_of(s2, t1) == count_of(s1, t1),
        weight_of(s2, t1) == weight_of(s1, t1),
    ensures
        count_of(s2, t1) == 1,
        weight_of(s2, t1) == w1,
        count_of(s2, t2) == 1,
        weight_of(s2, t2) == w2,
{
}

impl StatsTable {
    /// The table's internal invariant: identifiers are unique, every entry
    /// has recorded at least one message, no entry's weight outruns what its
    /// count of single messages could have contributed, and the counts add
    /// up to the total.
    pub open spec fn wf(self) -> bool {
        &&& distinct_keys(self.templates@)
        &&& forall|i: int|
            0 <= i < self.templates@.len() ==> (#[trigger] self.templates@[i]).1.msg_count >= 1
        &&& forall|i: int|
            0 <= i < self.templates@.len() ==> (#[trigger] self.templates@[i]).1.msg_weight
                <= self.templates@[i].1.msg_count * (usize::MAX as int)
        &&& sum_counts(self.templates@) == self.total_msgs
    }

    /// A fresh, empty table.
    pub fn new() -> (r: StatsTable)
        ensures
            r.wf(),
            r.templates@.len() == 0,
            r.total_msgs == 0,
    {
        StatsTable { templates: Vec::new(), total_msgs: 0 }
    }

    /// Records one matched message for template `template_id` with the given
    /// weight: a first sighting starts a fresh entry of count 1 at the end
    /// of the table; a repeat raises the entry's count by one and its weight
    /// by `weight`. Every other entry, and the entry order, is untouched,
    /// and the total message count rises by one.
    pub fn append(&mut self, template_id: usize, weight: usize)
        requires
            old(self).wf(),
            old(self).total_msgs < usize::MAX,
        ensures
            final(self).wf(),
            final(self).total_msgs == old(self).total_msgs + 1,
            keys(final(self).templates@) == if has_template(old(self).templates@, template_id) {
                keys(old(self).templates@)
            } else {
                keys(old(self).templates@).push(template_id)
            },
            count_of(final(self).templates@, template_id) == count_of(
                old(self).templates@,
                template_id,
            ) + 1,
            weight_of(final(self).templates@, template_id) == weight_of(
                old(self).templates@,
                template_id,
            ) + weight,
            forall|t: usize|
                t != template_id ==> #[trigger] count_of(final(self).templates@, t) == count_of(
                    old(self).templates@,
                    t,
                ),
            forall|t: usize|
                t != template_id ==> #[trigger] weight_of(final(self).templates@, t) == weight_of(
                    old(self).templates@,
                    t,
                ),
    {
        let ghost s0 = self.templates@;
        let n = self.templates.len();
        let mut i: usize = 0;
        while i < n && self.templates[i].0 != template_id
            invariant
                n == self.templates@.len(),
                0 <= i <= n,
                forall|j: int| 0 <= j < i ==> (#[trigger] self.templates@[j]).0 != template_id,
                self.templates@ == s0,
                self.total_msgs == old(self).total_msgs,
            decreases n - i,
        {
            i = i + 1;
        }
        if i < n {
            proof {
                lemma_index_unique(s0, template_id, i as int);
                lemma_count_le_sum(s0, i as int);
            }
            let e = self.templates[i];
            let new_count = e.1.msg_count + 1;
            proof {
                assert(e.1.msg_weight + weight <= new_count * (usize::MAX as int))
                    by (nonlinear_arith)
                    requires
                        e.1.msg_weight <= e.1.msg_count * (usize::MAX as int),
                        weight <= usize::MAX,
                        new_count == e.1.msg_count + 1,
                ;
                assert(new_count * (usize::MAX as int) < u128::MAX as int) by (nonlinear_arith)
                    requires
                        1 <= new_count <= (usize::MAX as int),
                ;
            }
            let new_stat = TemplateStat {
                msg_count: new_count,
                msg_weight: e.1.msg_weight + weight as u128,
            };
            self.templates[i] = (template_id, new_stat);
            self.total_msgs = self.total_msgs + 1;
            proof {
                let s1 = self.templates@;
                assert(s1 == s0.update(i as int, (template_id, new_stat)));
                lemma_sum_counts_update(s0, i as int, (template_id, new_stat));
                assert(keys(s1) =~= keys(s0));
                assert(distinct_keys(s1)) by {
                    assert(forall|p: int| 0 <= p < s1.len() ==> s1[p].0 == s0[p].0);
                }
                lemma_index_unique(s1, template_id, i as int);
                assert forall|t: usize|
                    #![trigger count_of(s1, t)]
                    #![trigger weight_of(s1, t)]
                    t != template_id implies count_of(s1, t) == count_of(s0, t) && weight_of(
                    s1,
                    t,
                ) == weight_of(s0, t) by {
                    if has_template(s0, t) {
                        let j = template_index(s0, t);
                        assert(0 <= j < s0.len() && s0[j].0 == t);
                        assert(j != i as int);
                        assert(s1[j].0 == t);
                        lemma_index_unique(s1, t, j);
                        assert(s1[j] == s0[j]);
                    } else {
                        if has_template(s1, t) {
                            let j = template_index(s1, t);
                            assert(0 <= j < s1.len() && s1[j].0 == t);
                            assert(j != i as int);
                            assert(s0[j].0 == t);
                            assert(has_template(s0, t));
                        }
                    }
                }
            }
        } else {
            proof {
                assert(!has_template(s0, template_id)) by {
                    if has_template(s0, template_id) {
                        let j = template_index(s0, template_id);
                        assert(s0[j].0 == template_id);
                    }
                }
                assert(weight <= 1 * (usize::MAX as int));
            }
            let new_stat = TemplateStat { msg_count: 1, msg_weight: weight as u128 };
            self.templates.push((template_id, new_stat));
            self.total_msgs = self.total_msgs + 1;
            proof {
            let s1 = self.templates@;
            assert(s1 == s0.push((template_id, new_stat)));
            assert(s1.drop_last() =~= s0);
            assert(sum_counts(s1) == sum_counts(s0) + 1);
            assert(keys(s1) =~= keys(s0).push(template_id));
            assert(distinct_keys(s1)) by {
                assert(forall|p: int| 0 <= p < s0.len() ==> s1[p].0 == s0[p].0);
                assert(forall|p: int|
                    0 <= p < s0.len() ==> (#[trigger] s0[p]).0 != template_id);
            }
            lemma_index_unique(s1, template_id, s0.len() as int);
            assert forall|t: usize|
                #![trigger count_of(s1, t)]
                #![trigger weight_of(s1, t)]
                t != template_id implies count_of(s1, t) == count_of(s0, t) && weight_of(
                s1,
                t,
            ) == weight_of(s0, t) by {
                if has_template(s0, t) {
                    let j = template_index(s0, t);
                    assert(0 <= j < s0.len() && s0[j].0 == t);
                    assert(s1[j].0 == t);
                    lemma_index_unique(s1, t, j);
                    assert(s1[j] == s0[j]);
                } else {
                    if has_template(s1, t) {
                        let j = template_index(s1, t);
                        assert(0 <= j < s1.len() && s1[j].0 == t);
                        assert(j != s0.len() as int);
                        assert(s0[j].0 == t);
                        assert(has_template(s0, t));
                    }
                }
            }
            }
        }
    }
}

} // verus!
