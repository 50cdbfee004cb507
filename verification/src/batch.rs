//! Partitioning of a track-id list into bounded batches for the upstream
//! playlist-write call, which accepts only a limited number of items at once.
use vstd::prelude::*;

verus! {

/// The concatenation, in order, of a sequence of batches.
pub open spec fn joined<T>(batches: Seq<Seq<T>>) -> Seq<T>
    decreases batches.len(),
{
    if batches.len() == 0 {
        Seq::empty()
    } else {
        batches[0] + joined(batches.drop_first())
    }
}

/// How many batches a list of `n` items yields under `limit` items per batch:
/// `n / limit`, rounded up; an empty list yields no batch at all.
pub open spec fn batch_count(n: nat, limit: nat) -> nat
    recommends
        limit >= 1,
{
    if n == 0 {
        0
    } else {
        (((n - 1) as int / limit as int) + 1) as nat
    }
}

proof fn lemma_joined_push<T>(batches: Seq<Seq<T>>, b: Seq<T>)
    ensures
        joined(batches.push(b)) == joined(batches) + b,
    decreases batches.len(),
{
    let p = batches.push(b);
    if batches.len() == 0 {
        assert(p[0] == b);
        assert(p.drop_first() =~= Seq::<Seq<T>>::empty());
        assert(joined(Seq::<Seq<T>>::empty()) == Seq::<T>::empty());
        assert(joined(p) == b + Seq::<T>::empty());
        assert(b + Seq::<T>::empty() =~= b);
        assert(joined(batches) + b =~= b);
    } else {
        assert(p.drop_first() =~= batches.drop_first().push(b));
        lemma_joined_push(batches.drop_first(), b);
        assert(p[0] == batches[0]);
        assert(joined(p) == batches[0] + (joined(batches.drop_first()) + b));
        assert(batches[0] + (joined(batches.drop_first()) + b) =~= (batches[0] + joined(
            batches.drop_first(),
        )) + b);
    }
}

/// Splits `tracks` into consecutive batches of at most `limit` ids each: every
/// batch but the last is exactly full, their concatenation in order is the
/// input list, and an empty input yields zero batches, so the number of
/// batches is the number of ids divided by `limit`, rounded up.
pub fn partition_batches(tracks: &Vec<String>, limit: usize) -> (batches: Vec<Vec<String>>)
    requires
        limit >= 1,
    ensures
        joined(batches.deep_view()) == tracks.deep_view(),
        batches.deep_view().len() == batch_count(tracks@.len(), limit as nat),
        forall|k: int|
            0 <= k < batches.deep_view().len() ==> #[trigger] batches.deep_view()[k].len()
                <= limit,
        forall|k: int|
            0 <= k < batches.deep_view().len() - 1 ==> #[trigger] batches.deep_view()[k].len()
                == limit,
{
    let ghost all = tracks.deep_view();
    let mut batches: Vec<Vec<String>> = Vec::new();
    let mut i: usize = 0;
    while i < tracks.len()
        invariant
            limit >= 1,
            i <= tracks.len(),
            all == tracks.deep_view(),
            all.len() == tracks@.len(),
            joined(batches.deep_view()) == all.subrange(0, i as int),
            forall|k: int|
                0 <= k < batches.deep_view().len() ==> #[trigger] batches.deep_view()[k].len()
                    <= limit,
            forall|k: int|
                0 <= k < batches.deep_view().len() - 1 ==> #[trigger] batches.deep_view()[k].len()
                    == limit,
            i < tracks.len() ==> i == batches.deep_view().len() * limit && (forall|k: int|
                0 <= k < batches.deep_view().len() ==> #[trigger] batches.deep_view()[k].len()
                    == limit),
            i == tracks.len() ==> batches.deep_view().len() == batch_count(
                tracks@.len(),
                limit as nat,
            ),
        decreases tracks.len() - i,
    {
        let remaining = tracks.len() - i;
        let step = if remaining < limit {
            remaining
        } else {
            limit
        };
        let ghost bs_old = batches.deep_view();
        let mut b: Vec<String> = Vec::new();
        let mut j: usize = 0;
        while j < step
            invariant
                j <= step,
                i + step <= tracks.len(),
                all == tracks.deep_view(),
                b@.len() == j,
                forall|k: int| 0 <= k < j ==> #[trigger] b@[k] == tracks@[i + k],
            decreases step - j,
        {
            let t = tracks[i + j].clone();
            b.push(t);
            j = j + 1;
        }
        proof {
            assert forall|k: int| 0 <= k < step implies #[trigger] b.deep_view()[k] == all.subrange(
                i as int,
                (i + step) as int,
            )[k] by {
                assert(b@[k] == tracks@[i + k]);
            }
            assert(b.deep_view() =~= all.subrange(i as int, (i + step) as int));
        }
        let ghost bv = b.deep_view();
        batches.push(b);
        proof {
            assert forall|k: int| 0 <= k < bs_old.len() + 1 implies #[trigger] batches.deep_view()[k]
                == bs_old.push(bv)[k] by {
                if k < bs_old.len() {
                    assert(batches@[k] == batches@[k]);
                }
            }
            assert(batches.deep_view() =~= bs_old.push(bv));
            lemma_joined_push(bs_old, bv);
            assert(all.subrange(0, i as int) + all.subrange(i as int, (i + step) as int)
                =~= all.subrange(0, (i + step) as int));
            let n = all.len() as int;
            let q = bs_old.len() as int;
            let l = limit as int;
            if i + step < tracks.len() {
                assert(step == limit);
                assert((q + 1) * l == q * l + l) by (nonlinear_arith);
            } else {
                assert(n == q * l + step);
                vstd::arithmetic::div_mod::lemma_div_multiples_vanish_fancy(q, step as int - 1, l);
                assert((l * q + (step - 1)) / l == q);
                assert(n - 1 == l * q + (step - 1)) by (nonlinear_arith)
                    requires
                        n == q * l + step,
                ;
                assert(batch_count(tracks@.len(), limit as nat) == q + 1);
            }
        }
        i = i + step;
    }
    proof {
        assert(all.subrange(0, all.len() as int) =~= all);
    }
    batches
}

} // verus!
