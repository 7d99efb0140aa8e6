//! Facts about walking a sequence from its start.
use vstd::prelude::*;

verus! {

/// The first `n + 1` items of a sequence are its first `n` items and the
/// item at `n`.
pub proof fn lemma_take_one_more<A>(s: Seq<A>, n: int)
    requires
        0 <= n < s.len(),
    ensures
        s.take(n + 1) == s.take(n).push(s[n]),
        s.take(n + 1).to_set() == s.take(n).to_set().insert(s[n]),
        forall|x: A| #[trigger] s.take(n + 1).contains(x) <==> s.take(n).contains(x) || x == s[n],
{
    let more = s.take(n + 1);
    let fewer = s.take(n);
    assert(more =~= fewer.push(s[n]));
    assert forall|x: A| #[trigger] more.contains(x) <==> fewer.contains(x) || x == s[n] by {
        if more.contains(x) {
            let i = choose|i: int| 0 <= i < more.len() && more[i] == x;
            if i < n {
                assert(fewer[i] == x);
            }
        }
        if fewer.contains(x) {
            let i = choose|i: int| 0 <= i < fewer.len() && fewer[i] == x;
            assert(more[i] == x);
        }
        if x == s[n] {
            assert(more[n] == x);
        }
    }
    assert(more.to_set() =~= fewer.to_set().insert(s[n]));
}

/// Taking all of a sequence, or none of it.
pub proof fn lemma_take_ends<A>(s: Seq<A>)
    ensures
        s.take(s.len() as int) == s,
        s.take(0).to_set() == Set::<A>::empty(),
{
    assert(s.take(s.len() as int) =~= s);
    assert(s.take(0).to_set() =~= Set::<A>::empty());
}

/// The items of a sequence with one more pushed are its items and that one.
pub proof fn lemma_push_to_set<A>(s: Seq<A>, x: A)
    ensures
        s.push(x).to_set() == s.to_set().insert(x),
{
    let longer = s.push(x);
    assert(longer.take(s.len() as int) =~= s);
    lemma_take_one_more(longer, s.len() as int);
    lemma_take_ends(longer);
}

/// The items of a sequence without its last are among its items, and with
/// the last they are all of them.
pub proof fn lemma_drop_last_to_set<A>(s: Seq<A>)
    requires
        s.len() > 0,
    ensures
        s.to_set() == s.drop_last().to_set().insert(s.last()),
{
    assert(s.drop_last() =~= s.take(s.len() - 1));
    lemma_take_one_more(s, s.len() - 1);
    lemma_take_ends(s);
}

} // verus!
