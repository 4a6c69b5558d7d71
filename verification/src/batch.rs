//! The batcher: groups a finite stream of items into chunks of a fixed
//! maximum size, the final chunk possibly smaller, preserving order.

use vstd::prelude::*;

verus! {

/// All the chunks laid end to end, in order.
pub open spec fn concat_all<T>(chunks: Seq<Seq<T>>) -> Seq<T>
    decreases chunks.len(),
{
    if chunks.len() == 0 {
        Seq::empty()
    } else {
        chunks.first() + concat_all(chunks.drop_first())
    }
}

/// How many chunks a stream of `n` items yields at chunk size `b`:
/// the quotient of `n` by `b`, rounded up.
pub open spec fn chunk_count(n: int, b: int) -> int {
    (n + b - 1) / b
}

/// Appending one more chunk extends the concatenation by exactly that chunk.
pub proof fn lemma_concat_all_push<T>(chunks: Seq<Seq<T>>, c: Seq<T>)
    ensures
        concat_all(chunks.push(c)) == concat_all(chunks) + c,
    decreases chunks.len(),
{
    if chunks.len() == 0 {
        assert(chunks.push(c).drop_first() =~= Seq::<Seq<T>>::empty());
        assert(chunks.push(c).first() == c);
        assert(concat_all(Seq::<Seq<T>>::empty()) =~= Seq::<T>::empty());
        assert(concat_all(chunks.push(c)) =~= c + Seq::<T>::empty());
        assert(concat_all(chunks.push(c)) =~= concat_all(chunks) + c);
    } else {
        assert(chunks.push(c).drop_first() =~= chunks.drop_first().push(c));
        lemma_concat_all_push(chunks.drop_first(), c);
        assert(concat_all(chunks.push(c)) =~= concat_all(chunks) + c);
    }
}

/// Splits `v` into consecutive chunks of exactly `b` items, except that the
/// final chunk holds the remainder. The number of chunks is the length of
/// `v` divided by `b`, rounded up, and laying the chunks end to end, in
/// order, restores `v` exactly.
pub fn chunks<T>(v: Vec<T>, b: usize) -> (r: Vec<Vec<T>>)
    requires
        b >= 1,
    ensures
        r@.len() == chunk_count(v@.len() as int, b as int),
        concat_all(r@.map_values(|c: Vec<T>| c@)) == v@,
        forall|i: int| 0 <= i < r@.len() - 1 ==> (#[trigger] r@[i])@.len() == b,
        r@.len() > 0 ==> 0 < r@[r@.len() - 1]@.len() <= b,
{
    let ghost orig = v@;
    let mut v = v;
    let mut out: Vec<Vec<T>> = Vec::new();
    let mut cur: Vec<T> = Vec::new();
    while v.len() > 0
        invariant
            b >= 1,
            cur@.len() < b,
            concat_all(out@.map_values(|c: Vec<T>| c@)) + cur@ + v@ == orig,
            forall|i: int| 0 <= i < out@.len() ==> (#[trigger] out@[i])@.len() == b,
            out@.len() * b + cur@.len() + v@.len() == orig.len(),
        decreases v@.len(),
    {
        let ghost old_v = v@;
        let ghost old_cur = cur@;
        let ghost old_out = out@;
        let x = v.remove(0);
        cur.push(x);
        proof {
            assert(old_v.remove(0) =~= old_v.drop_first());
            assert(old_cur.push(old_v[0]) + old_v.drop_first() =~= old_cur + old_v);
            assert(concat_all(old_out.map_values(|c: Vec<T>| c@)) + cur@ + v@ =~= orig);
        }
        if cur.len() == b {
            proof {
                let m = |c: Vec<T>| c@;
                assert(old_out.push(cur).map_values(m) =~= old_out.map_values(m).push(cur@));
                lemma_concat_all_push(old_out.map_values(m), cur@);
                assert((old_out.len() + 1) * b == old_out.len() * b + b) by (nonlinear_arith);
            }
            out.push(cur);
            cur = Vec::new();
            proof {
                assert(concat_all(out@.map_values(|c: Vec<T>| c@)) + cur@ + v@ =~= orig);
            }
        }
    }
    let ghost q0 = out@.len() as int;
    let ghost last_len = cur@.len() as int;
    if cur.len() > 0 {
        proof {
            let m = |c: Vec<T>| c@;
            assert(out@.push(cur).map_values(m) =~= out@.map_values(m).push(cur@));
            lemma_concat_all_push(out@.map_values(m), cur@);
        }
        out.push(cur);
        proof {
            assert(concat_all(out@.map_values(|c: Vec<T>| c@)) =~= orig);
            assert((q0 + 1) * b == q0 * b + b) by (nonlinear_arith);
            vstd::arithmetic::div_mod::lemma_fundamental_div_mod_converse(
                orig.len() + b - 1,
                b as int,
                q0 + 1,
                last_len - 1,
            );
        }
    } else {
        proof {
            assert(concat_all(out@.map_values(|c: Vec<T>| c@)) + cur@ + v@ =~= orig);
            assert(concat_all(out@.map_values(|c: Vec<T>| c@)) =~= orig);
            if orig.len() == 0 {
                assert(q0 == 0) by (nonlinear_arith)
                    requires
                        q0 * b == 0,
                        b >= 1,
                        q0 >= 0,
                ;
                vstd::arithmetic::div_mod::lemma_fundamental_div_mod_converse(
                    orig.len() + b - 1,
                    b as int,
                    0,
                    b - 1,
                );
            } else {
                vstd::arithmetic::div_mod::lemma_fundamental_div_mod_converse(
                    orig.len() + b - 1,
                    b as int,
                    q0,
                    b - 1,
                );
            }
        }
    }
    out
}

} // verus!
