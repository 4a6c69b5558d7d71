//! The statistics output format: rendering the statistics table as
//! delimited text, reading such text back, and the proof that reading what
//! was written restores the table's rows.

use vstd::prelude::*;
use crate::stats::StatsTable;
use crate::stats::TemplateStat;

verus! {

/// The decimal digit character for a value below ten.
pub open spec fn dec_digit(d: int) -> char {
    if d == 0 {
        '0'
    } else if d == 1 {
        '1'
    } else if d == 2 {
        '2'
    } else if d == 3 {
        '3'
    } else if d == 4 {
        '4'
    } else if d == 5 {
        '5'
    } else if d == 6 {
        '6'
    } else if d == 7 {
        '7'
    } else if d == 8 {
        '8'
    } else {
        '9'
    }
}

/// The decimal rendering of a non-negative number, most significant digit
/// first, without leading zeroes (a lone zero for 0).
pub open spec fn dec_str(n: int) -> Seq<char>
    decreases n,
{
    if n < 10 {
        seq![dec_digit(n)]
    } else {
        dec_str(n / 10).push(dec_digit(n % 10))
    }
}

/// One row of the statistics output: the three numbers, comma-separated,
/// closed by a newline.
pub open spec fn stat_line(t: int, c: int, w: int) -> Seq<char> {
    dec_str(t) + seq![','] + dec_str(c) + seq![','] + dec_str(w) + seq!['\n']
}

/// The whole statistics output: one row per table entry, in table order.
pub open spec fn stats_csv(s: Seq<(usize, TemplateStat)>) -> Seq<char>
    decreases s.len(),
{
    if s.len() == 0 {
        Seq::empty()
    } else {
        stats_csv(s.drop_last()) + stat_line(
            s.last().0 as int,
            s.last().1.msg_count as int,
            s.last().1.msg_weight as int,
        )
    }
}

/// The decimal digit character of a value below ten.
fn dec_digit_str(d: u128) -> (r: &'static str)
    requires
        d < 10,
    ensures
        r@ == seq![dec_digit(d as int)],
{
    proof {
        reveal_strlit("0");
        reveal_strlit("1");
        reveal_strlit("2");
        reveal_strlit("3");
        reveal_strlit("4");
        reveal_strlit("5");
        reveal_strlit("6");
        reveal_strlit("7");
        reveal_strlit("8");
        reveal_strlit("9");
    }
    let r = if d == 0 {
        "0"
    } else if d == 1 {
        "1"
    } else if d == 2 {
        "2"
    } else if d == 3 {
        "3"
    } else if d == 4 {
        "4"
    } else if d == 5 {
        "5"
    } else if d == 6 {
        "6"
    } else if d == 7 {
        "7"
    } else if d == 8 {
        "8"
    } else {
        "9"
    };
    proof {
        assert(r@ =~= seq![dec_digit(d as int)]);
    }
    r
}

/// Renders a number in decimal, most significant digit first.
pub fn fmt_u128(n: u128) -> (r: String)
    ensures
        r@ == dec_str(n as int),
    decreases n,
{
    if n < 10 {
        let mut s = String::new();
        s.append(dec_digit_str(n));
        proof {
            assert(s@ =~= dec_str(n as int));
        }
        s
    } else {
        let mut s = fmt_u128(n / 10);
        s.append(dec_digit_str(n % 10));
        proof {
            assert(s@ =~= dec_str(n as int));
        }
        s
    }
}

/// Renders a number in decimal, most significant digit first.
pub fn fmt_usize(n: usize) -> (r: String)
    ensures
        r@ == dec_str(n as int),
{
    fmt_u128(n as u128)
}

impl StatsTable {
    /// Renders the table as delimited text: one
    /// `templateId,messageCount,totalWeight` row per entry, in table
    /// order, which is the order the templates were first recorded.
    pub fn to_csv(&self) -> (r: String)
        ensures
            r@ == stats_csv(self.templates@),
    {
        let mut out = String::new();
        proof {
            assert(out@ =~= stats_csv(self.templates@.take(0)));
        }
        let mut i: usize = 0;
        while i < self.templates.len()
            invariant
                0 <= i <= self.templates@.len(),
                out@ == stats_csv(self.templates@.take(i as int)),
            decreases self.templates@.len() - i,
        {
            let e = self.templates[i];
            let t_str = fmt_usize(e.0);
            let c_str = fmt_usize(e.1.msg_count);
            let w_str = fmt_u128(e.1.msg_weight);
            out.append(t_str.as_str());
            out.append(",");
            out.append(c_str.as_str());
            out.append(",");
            out.append(w_str.as_str());
            out.append("\n");
            proof {
                reveal_strlit(",");
                reveal_strlit("\n");
                assert(self.templates@.take(i + 1).drop_last() =~= self.templates@.take(i as int));
                assert(self.templates@.take(i + 1).last() == self.templates@[i as int]);
                assert(out@ =~= stats_csv(self.templates@.take(i + 1)));
            }
            i = i + 1;
        }
        proof {
            assert(self.templates@.take(self.templates@.len() as int) =~= self.templates@);
        }
        out
    }
}

/// Whether a character is a decimal digit.
pub open spec fn is_dec_digit(c: char) -> bool {
    c == '0' || c == '1' || c == '2' || c == '3' || c == '4' || c == '5' || c == '6' || c == '7'
        || c == '8' || c == '9'
}

/// The value of a decimal digit character.
pub open spec fn digit_val(c: char) -> int {
    if c == '0' {
        0
    } else if c == '1' {
        1
    } else if c == '2' {
        2
    } else if c == '3' {
        3
    } else if c == '4' {
        4
    } else if c == '5' {
        5
    } else if c == '6' {
        6
    } else if c == '7' {
        7
    } else if c == '8' {
        8
    } else {
        9
    }
}

/// The largest value a field of the statistics output may carry: the
/// template identifier and the count are machine sizes, the weight is the
/// wider accumulator.
pub open spec fn bound_for(field: int) -> int {
    if field < 2 {
        usize::MAX as int
    } else {
        u128::MAX as int
    }
}

/// The state of reading the statistics output left to right: the finished
/// rows, which field of the current row is being read, the two finished
/// fields of the current row, the digits gathered for the current field,
/// and whether the text so far is still well-formed.
pub struct ParseState {
    pub rows: Seq<(int, int, int)>,
    pub field: int,
    pub cur0: int,
    pub cur1: int,
    pub acc: int,
    pub digits: int,
    pub ok: bool,
}

/// Reading starts with no rows, at the first field of the first row.
pub open spec fn parse_init() -> ParseState {
    ParseState { rows: Seq::empty(), field: 0, cur0: 0, cur1: 0, acc: 0, digits: 0, ok: true }
}

/// One character of the statistics output: a digit extends the current
/// field while it fits its bound, a comma closes a field, a newline closes
/// a row; anything else, an empty field, or a field out of place spoils
/// the text for good.
pub open spec fn parse_step(st: ParseState, c: char) -> ParseState {
    if !st.ok {
        st
    } else if is_dec_digit(c) {
        let a = st.acc * 10 + digit_val(c);
        if a > bound_for(st.field) {
            ParseState { ok: false, ..st }
        } else {
            ParseState { acc: a, digits: st.digits + 1, ..st }
        }
    } else if c == ',' {
        if st.digits == 0 || st.field >= 2 {
            ParseState { ok: false, ..st }
        } else if st.field == 0 {
            ParseState { field: 1, cur0: st.acc, acc: 0, digits: 0, ..st }
        } else {
            ParseState { field: 2, cur1: st.acc, acc: 0, digits: 0, ..st }
        }
    } else if c == '\n' {
        if st.digits == 0 || st.field != 2 {
            ParseState { ok: false, ..st }
        } else {
            ParseState {
                rows: st.rows.push((st.cur0, st.cur1, st.acc)),
                field: 0,
                cur0: 0,
                cur1: 0,
                acc: 0,
                digits: 0,
                ok: true,
            }
        }
    } else {
        ParseState { ok: false, ..st }
    }
}

/// Reads a text left to right from the given state.
pub open spec fn fold_on(st: ParseState, s: Seq<char>) -> ParseState
    decreases s.len(),
{
    if s.len() == 0 {
        st
    } else {
        fold_on(parse_step(st, s.first()), s.drop_first())
    }
}

/// What a statistics output text says: its rows, provided the whole text
/// is well-formed and ends at a row boundary.
pub open spec fn parse_stats(s: Seq<char>) -> Option<Seq<(int, int, int)>> {
    let st = fold_on(parse_init(), s);
    if st.ok && st.field == 0 && st.digits == 0 {
        Some(st.rows)
    } else {
        None
    }
}

/// Reading a concatenation is reading the first part, then the second.
pub proof fn lemma_fold_concat(st: ParseState, a: Seq<char>, b: Seq<char>)
    ensures
        fold_on(st, a + b) == fold_on(fold_on(st, a), b),
    decreases a.len(),
{
    if a.len() == 0 {
        assert(a + b =~= b);
    } else {
        assert((a + b).first() == a.first());
        assert((a + b).drop_first() =~= a.drop_first() + b);
        lemma_fold_concat(parse_step(st, a.first()), a.drop_first(), b);
    }
}

/// A spoiled state never recovers.
pub proof fn lemma_fold_stuck(st: ParseState, s: Seq<char>)
    requires
        !st.ok,
    ensures
        fold_on(st, s) == st,
    decreases s.len(),
{
    if s.len() > 0 {
        lemma_fold_stuck(parse_step(st, s.first()), s.drop_first());
    }
}

/// Reading one character is one step.
proof fn lemma_fold_one(st: ParseState, c: char)
    ensures
        fold_on(st, seq![c]) == parse_step(st, c),
{
    assert(seq![c].len() == 1);
    assert(seq![c].first() == c);
    assert(seq![c].drop_first() =~= Seq::<char>::empty());
    assert(fold_on(parse_step(st, c), Seq::<char>::empty()) == parse_step(st, c));
}

/// The digit characters read back as their values.
proof fn lemma_digit_inverse(d: int)
    requires
        0 <= d < 10,
    ensures
        is_dec_digit(dec_digit(d)),
        digit_val(dec_digit(d)) == d,
        dec_digit(d) != ',',
        dec_digit(d) != '\n',
{
}

/// A rendered number has at least one digit.
proof fn lemma_dec_str_len(v: int)
    ensures
        dec_str(v).len() >= 1,
{
}

/// Reading a rendered number from the start of a field accumulates
/// exactly that number.
proof fn lemma_dec_str_fold(st: ParseState, v: int)
    requires
        st.ok,
        st.acc == 0,
        st.digits == 0,
        0 <= v <= bound_for(st.field),
    ensures
        fold_on(st, dec_str(v)) == (ParseState {
            acc: v,
            digits: dec_str(v).len() as int,
            ..st
        }),
    decreases v,
{
    if v < 10 {
        lemma_digit_inverse(v);
        lemma_fold_one(st, dec_digit(v));
    } else {
        lemma_dec_str_fold(st, v / 10);
        lemma_fold_concat(st, dec_str(v / 10), seq![dec_digit(v % 10)]);
        assert(dec_str(v / 10) + seq![dec_digit(v % 10)] =~= dec_str(v));
        let st1 = fold_on(st, dec_str(v / 10));
        lemma_digit_inverse(v % 10);
        lemma_fold_one(st1, dec_digit(v % 10));
        assert(st1.acc * 10 + digit_val(dec_digit(v % 10)) == v);
    }
}

/// Reading a rendered row from a row boundary appends exactly that row.
proof fn lemma_line_fold(st: ParseState, t: int, c: int, w: int)
    requires
        st.ok,
        st.field == 0,
        st.digits == 0,
        st.acc == 0,
        0 <= t <= usize::MAX as int,
        0 <= c <= usize::MAX as int,
        0 <= w <= u128::MAX as int,
    ensures
        fold_on(st, stat_line(t, c, w)) == (ParseState {
            rows: st.rows.push((t, c, w)),
            field: 0,
            cur0: 0,
            cur1: 0,
            acc: 0,
            digits: 0,
            ok: true,
        }),
{
    let a1 = dec_str(t);
    let a2 = seq![','];
    let a3 = dec_str(c);
    let a4 = seq![','];
    let a5 = dec_str(w);
    let a6 = seq!['\n'];
    lemma_fold_concat(st, a1 + a2 + a3 + a4 + a5, a6);
    lemma_fold_concat(st, a1 + a2 + a3 + a4, a5);
    lemma_fold_concat(st, a1 + a2 + a3, a4);
    lemma_fold_concat(st, a1 + a2, a3);
    lemma_fold_concat(st, a1, a2);
    lemma_dec_str_fold(st, t);
    lemma_dec_str_len(t);
    let s1 = fold_on(st, a1);
    lemma_fold_one(s1, ',');
    let s2 = parse_step(s1, ',');
    assert(s2 == (ParseState { field: 1, cur0: t, acc: 0, digits: 0, ..st }));
    lemma_dec_str_fold(s2, c);
    lemma_dec_str_len(c);
    let s3 = fold_on(s2, a3);
    lemma_fold_one(s3, ',');
    let s4 = parse_step(s3, ',');
    assert(s4 == (ParseState { field: 2, cur0: t, cur1: c, acc: 0, digits: 0, ..st }));
    lemma_dec_str_fold(s4, w);
    lemma_dec_str_len(w);
    let s5 = fold_on(s4, a5);
    lemma_fold_one(s5, '\n');
}

/// The rows of a table, as plain numbers.
pub open spec fn rows_model(s: Seq<(usize, TemplateStat)>) -> Seq<(int, int, int)> {
    s.map_values(
        |e: (usize, TemplateStat)| (e.0 as int, e.1.msg_count as int, e.1.msg_weight as int),
    )
}

/// Reading a whole rendered table from a row boundary appends exactly its
/// rows.
proof fn lemma_csv_fold(st: ParseState, s: Seq<(usize, TemplateStat)>)
    requires
        st.ok,
        st.field == 0,
        st.digits == 0,
        st.acc == 0,
        st.cur0 == 0,
        st.cur1 == 0,
    ensures
        fold_on(st, stats_csv(s)) == (ParseState {
            rows: st.rows + rows_model(s),
            field: 0,
            cur0: 0,
            cur1: 0,
            acc: 0,
            digits: 0,
            ok: true,
        }),
    decreases s.len(),
{
    if s.len() == 0 {
        assert(st.rows + rows_model(s) =~= st.rows);
    } else {
        lemma_csv_fold(st, s.drop_last());
        lemma_fold_concat(
            st,
            stats_csv(s.drop_last()),
            stat_line(s.last().0 as int, s.last().1.msg_count as int, s.last().1.msg_weight as int),
        );
        let s1 = fold_on(st, stats_csv(s.drop_last()));
        lemma_line_fold(
            s1,
            s.last().0 as int,
            s.last().1.msg_count as int,
            s.last().1.msg_weight as int,
        );
        assert(st.rows + rows_model(s) =~= (st.rows + rows_model(s.drop_last())).push(
            (s.last().0 as int, s.last().1.msg_count as int, s.last().1.msg_weight as int),
        ));
    }
}

/// Round trip: reading a rendered statistics table back yields exactly the
/// rows of the table, in order.
pub proof fn lemma_stats_round_trip(s: Seq<(usize, TemplateStat)>)
    ensures
        parse_stats(stats_csv(s)) == Some(rows_model(s)),
{
    lemma_csv_fold(parse_init(), s);
    assert(Seq::<(int, int, int)>::empty() + rows_model(s) =~= rows_model(s));
}

/// The rows an exec reading yields, as plain numbers.
pub open spec fn vals_model(v: Seq<(usize, usize, u128)>) -> Seq<(int, int, int)> {
    v.map_values(|e: (usize, usize, u128)| (e.0 as int, e.1 as int, e.2 as int))
}

/// The value of a decimal digit character, or nothing.
fn digit_of(c: char) -> (r: Option<u8>)
    ensures
        r is Some <==> is_dec_digit(c),
        r matches Some(d) ==> d < 10 && d as int == digit_val(c),
{
    match c {
        '0' => Some(0),
        '1' => Some(1),
        '2' => Some(2),
        '3' => Some(3),
        '4' => Some(4),
        '5' => Some(5),
        '6' => Some(6),
        '7' => Some(7),
        '8' => Some(8),
        '9' => Some(9),
        _ => None,
    }
}

/// Rejecting a prefix rejects the whole text.
proof fn lemma_reject(s: Seq<char>, i: int)
    requires
        0 <= i < s.len(),
        !fold_on(parse_init(), s.take(i + 1)).ok,
    ensures
        parse_stats(s) is None,
{
    lemma_fold_concat(parse_init(), s.take(i + 1), s.skip(i + 1));
    assert(s.take(i + 1) + s.skip(i + 1) =~= s);
    lemma_fold_stuck(fold_on(parse_init(), s.take(i + 1)), s.skip(i + 1));
}

/// Reads a statistics output text back into its rows: exactly the rows
/// the text holds when it is well-formed and every value fits its machine
/// type, and nothing otherwise.
pub fn parse_stats_csv(s: &str) -> (r: Option<Vec<(usize, usize, u128)>>)
    ensures
        r matches Some(v) ==> parse_stats(s@) == Some(vals_model(v@)),
        r is None ==> parse_stats(s@) is None,
{
    let n = s.unicode_len();
    let mut rows: Vec<(usize, usize, u128)> = Vec::new();
    let mut field: u8 = 0;
    let mut cur0: usize = 0;
    let mut cur1: usize = 0;
    let mut acc: u128 = 0;
    let mut digits_seen: bool = false;
    let mut i: usize = 0;
    proof {
        assert(s@.take(0) =~= Seq::<char>::empty());
        assert(vals_model(rows@) =~= Seq::<(int, int, int)>::empty());
    }
    while i < n
        invariant
            n == s@.len(),
            0 <= i <= n,
            ({
                let st = fold_on(parse_init(), s@.take(i as int));
                &&& st.ok
                &&& st.field == field as int
                &&& st.cur0 == cur0 as int
                &&& st.cur1 == cur1 as int
                &&& st.acc == acc as int
                &&& st.digits >= 0
                &&& (st.digits == 0) == !digits_seen
                &&& st.rows == vals_model(rows@)
            }),
            field <= 2,
            field < 2 ==> acc <= usize::MAX as u128,
        decreases n - i,
    {
        let ghost st = fold_on(parse_init(), s@.take(i as int));
        let c = s.get_char(i);
        proof {
            lemma_fold_concat(parse_init(), s@.take(i as int), seq![c]);
            assert(s@.take(i + 1) =~= s@.take(i as int) + seq![c]);
            lemma_fold_one(st, c);
            assert(fold_on(parse_init(), s@.take(i + 1)) == parse_step(st, c));
        }
        match digit_of(c) {
            Some(d) => {
                let bound: u128 = if field < 2 {
                    usize::MAX as u128
                } else {
                    u128::MAX
                };
                proof {
                    assert(bound as int == bound_for(field as int));
                }
                if acc > (bound - d as u128) / 10 {
                    proof {
                        assert(st.acc * 10 + digit_val(c) > bound_for(st.field));
                        assert(!parse_step(st, c).ok);
                        lemma_reject(s@, i as int);
                    }
                    return None;
                }
                proof {
                    assert(st.acc * 10 + digit_val(c) <= bound_for(st.field));
                }
                acc = acc * 10 + d as u128;
                digits_seen = true;
            },
            None => {
                if c == ',' {
                    if !digits_seen || field >= 2 {
                        proof {
                            lemma_reject(s@, i as int);
                        }
                        return None;
                    }
                    if field == 0 {
                        cur0 = acc as usize;
                        field = 1;
                    } else {
                        cur1 = acc as usize;
                        field = 2;
                    }
                    acc = 0;
                    digits_seen = false;
                } else if c == '\n' {
                    if !digits_seen || field != 2 {
                        proof {
                            lemma_reject(s@, i as int);
                        }
                        return None;
                    }
                    rows.push((cur0, cur1, acc));
                    field = 0;
                    cur0 = 0;
                    cur1 = 0;
                    acc = 0;
                    digits_seen = false;
                    proof {
                        assert(vals_model(rows@) =~= parse_step(st, c).rows);
                    }
                } else {
                    proof {
                        lemma_reject(s@, i as int);
                    }
                    return None;
                }
            },
        }
        i = i + 1;
    }
    proof {
        assert(s@.take(n as int) =~= s@);
    }
    if field == 0 && !digits_seen {
        Some(rows)
    } else {
        None
    }
}

} // verus!

