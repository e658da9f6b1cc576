use vstd::prelude::*;
use rand::rngs::StdRng;
use rand::seq::SliceRandom;

verus! {

/// The random number generator `rand::rngs::StdRng`, which callers seed and
/// hand in. Nothing is known of what is inside it.
#[verifier::external_type_specification]
#[verifier::external_body]
pub struct ExStdRng(rand::rngs::StdRng);

/// The indices `0, 1, ..., n - 1` in rising order.
pub open spec fn identity_order(n: nat) -> Seq<usize> {
    Seq::new(n, |i: int| i as usize)
}

/// Whether `order` holds each of the indices `0, 1, ..., n - 1` exactly
/// once.
pub open spec fn is_permutation(order: Seq<usize>, n: nat) -> bool {
    order.to_multiset() == identity_order(n).to_multiset()
}

/// Calls `rand::seq::SliceRandom::shuffle` on the elements of `order`, with
/// `rng` as the source of randomness. The contract is not proved; it states
/// what the method's source shows of every outcome: the method only
/// exchanges elements of the slice, so afterwards each value occurs as
/// often as before. Which arrangement comes out depends on `rng` and is
/// left open.
#[verifier::external_body]
fn shuffle(order: &mut Vec<usize>, rng: &mut StdRng)
    ensures
        final(order)@.to_multiset() == old(order)@.to_multiset(),
{
    order.shuffle(rng);
}

/// A permutation of `n` indices holds only indices below `n`, and holds
/// every one of them.
pub proof fn lemma_permutation_covers(order: Seq<usize>, n: nat)
    requires
        is_permutation(order, n),
        n <= usize::MAX,
    ensures
        forall|k: int| 0 <= k < order.len() ==> (#[trigger] order[k]) < n,
        forall|i: usize| i < n ==> #[trigger] order.contains(i),
{
    let identity = identity_order(n);
    assert forall|k: int| 0 <= k < order.len() implies (#[trigger] order[k]) < n by {
        assert(order.contains(order[k]));
        vstd::seq_lib::to_multiset_contains(order, order[k]);
        vstd::seq_lib::to_multiset_contains(identity, order[k]);
        let i = choose|i: int| 0 <= i < identity.len() && identity[i] == order[k];
        assert(identity[i] == i);
    }
    assert forall|i: usize| i < n implies #[trigger] order.contains(i) by {
        assert(identity[i as int] == i);
        assert(identity.contains(i));
        vstd::seq_lib::to_multiset_contains(identity, i);
        vstd::seq_lib::to_multiset_contains(order, i);
    }
}

/// The indices `0, 1, ..., n - 1` in rising order.
pub fn ascending(n: usize) -> (order: Vec<usize>)
    ensures
        order@ == identity_order(n as nat),
{
    let mut order: Vec<usize> = Vec::with_capacity(n);
    let mut i: usize = 0;
    while i < n
        invariant
            i <= n,
            order@ == identity_order(i as nat),
        decreases n - i,
    {
        order.push(i);
        proof {
            assert(order@ =~= identity_order((i + 1) as nat));
        }
        i = i + 1;
    }
    order
}

/// Brings the indices of `order` into a random arrangement drawn from
/// `rng`. Whatever the arrangement, a permutation of `n` indices stays one.
pub fn reshuffle(order: &mut Vec<usize>, rng: &mut StdRng)
    ensures
        final(order)@.to_multiset() == old(order)@.to_multiset(),
        final(order)@.len() == old(order)@.len(),
        forall|n: nat| is_permutation(old(order)@, n) ==> is_permutation(final(order)@, n),
{
    let ghost before = order@;
    shuffle(order, rng);
    proof {
        before.to_multiset_ensures();
        order@.to_multiset_ensures();
    }
}

} // verus!
