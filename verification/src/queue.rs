use vstd::prelude::*;
use vstd::seq_lib::{to_multiset_contains, to_multiset_len};
use soroban_sdk::Env;
use crate::circle::MAX_MEMBERS;
use crate::identity::Identity;

verus! {

/// The host environment of `soroban_sdk`, which holds the random number generator.
/// Nothing is known of what is inside a value of it.
#[verifier::external_type_specification]
#[verifier::external_body]
pub struct ExEnv(soroban_sdk::Env);

/// Whether `a` holds the items of `b`, each as often as `b` does, in any order.
pub open spec fn is_permutation(a: Seq<Identity>, b: Seq<Identity>) -> bool {
    a.to_multiset() =~= b.to_multiset()
}

/// The positions `0, 1, .., n - 1`, in rising order.
pub open spec fn positions(n: nat) -> Seq<u32> {
    Seq::new(n, |i: int| i as u32)
}

/// Whether `order` names each of the positions below `n` once, in any order.
pub open spec fn is_order(order: Seq<u32>, n: nat) -> bool {
    order.to_multiset() =~= positions(n).to_multiset()
}

/// The members taken in the given order: the item at place `i` is the member at
/// position `order[i]`.
pub open spec fn arranged(members: Seq<Identity>, order: Seq<u32>) -> Seq<Identity> {
    Seq::new(order.len(), |i: int| members[order[i] as int])
}

/// Hands `order` to `Prng::shuffle` of `soroban_sdk`, as a host vector made by
/// `Vec::from_slice`, and returns what the shuffle left, read back by `Vec::iter`.
/// The host's generator serves contract invocations only: where
/// `Env::in_contract` says that none is running, the shuffle is not asked for and
/// the result is `None`.
///
/// The claim: the shuffle moves items and neither adds, drops nor changes one, so
/// what comes back holds each item as often as `order` does. Which arrangement
/// comes out depends on the host's generator and is not stated, and nothing is
/// promised about when an arrangement comes back at all.
///
/// The host charges the invocation for every item it copies, and ends an
/// invocation that cannot pay. Only what a circle can hold is handed over, which
/// an invocation that has not spent its budget before can pay for.
#[verifier::external_body]
fn shuffled(env: &Env, order: &Vec<u32>) -> (out: Option<Vec<u32>>)
    requires
        order@.len() <= MAX_MEMBERS,
    ensures
        out matches Some(drawn) ==> drawn@.to_multiset() =~= order@.to_multiset(),
{
    if !env.in_contract() {
        return None;
    }
    let mut host = soroban_sdk::Vec::from_slice(env, order.as_slice());
    env.prng().shuffle(&mut host);
    Some(host.iter().collect())
}

/// What follows from an order over `n` positions: it has `n` places, each names a
/// position below `n`, none is named twice and none is missing.
pub proof fn lemma_order_facts(order: Seq<u32>, n: nat)
    requires
        is_order(order, n),
        n <= u32::MAX,
    ensures
        order.len() == n,
        forall|i: int| 0 <= i < order.len() ==> order[i] < n,
        order.no_duplicates(),
        forall|p: u32| p < n ==> order.contains(p),
{
    let line = positions(n);
    to_multiset_len(order);
    to_multiset_len(line);
    assert(line.no_duplicates());
    line.lemma_multiset_has_no_duplicates();
    order.lemma_multiset_has_no_duplicates_conv();
    assert forall|i: int| 0 <= i < order.len() implies order[i] < n by {
        to_multiset_contains(order, order[i]);
        to_multiset_contains(line, order[i]);
        assert(order.contains(order[i]));
        let k = choose|k: int| 0 <= k < line.len() && line[k] == order[i];
        assert(line[k] == k);
    }
    assert forall|p: u32| p < n implies order.contains(p) by {
        assert(line[p as int] == p);
        assert(line.contains(p));
        to_multiset_contains(order, p);
        to_multiset_contains(line, p);
    }
}

/// Two sequences without repeats that hold the same items are permutations of
/// each other.
pub proof fn lemma_same_items_permute(a: Seq<Identity>, b: Seq<Identity>)
    requires
        a.no_duplicates(),
        b.no_duplicates(),
        forall|x: Identity| a.contains(x) <==> b.contains(x),
    ensures
        is_permutation(a, b),
{
    a.lemma_multiset_has_no_duplicates();
    b.lemma_multiset_has_no_duplicates();
    assert forall|x: Identity| a.to_multiset().count(x) == b.to_multiset().count(x) by {
        to_multiset_contains(a, x);
        to_multiset_contains(b, x);
    }
}

/// Distinct members taken in an order over all their positions are the same
/// members, each once.
pub proof fn lemma_arranged_permutes(members: Seq<Identity>, order: Seq<u32>)
    requires
        members.no_duplicates(),
        members.len() <= u32::MAX,
        is_order(order, members.len()),
    ensures
        arranged(members, order).len() == members.len(),
        arranged(members, order).no_duplicates(),
        is_permutation(arranged(members, order), members),
{
    let queue = arranged(members, order);
    lemma_order_facts(order, members.len());
    assert forall|x: Identity| queue.contains(x) <==> members.contains(x) by {
        if queue.contains(x) {
            let i = choose|i: int| 0 <= i < queue.len() && queue[i] == x;
            assert(members[order[i] as int] == x);
        }
        if members.contains(x) {
            let j = choose|j: int| 0 <= j < members.len() && members[j] == x;
            let p = j as u32;
            assert(order.contains(p));
            let i = choose|i: int| 0 <= i < order.len() && order[i] == p;
            assert(queue[i] == x);
        }
    }
    lemma_same_items_permute(queue, members);
}

/// An order over the positions below `n`, drawn from the host's random number
/// generator, or `None` where the host does not serve the draw, as it does not
/// outside a contract invocation. What is handed to the host is `positions(n)`:
/// no more positions than a circle can hold members.
pub fn draw_order(env: &Env, n: u32) -> (order: Option<Vec<u32>>)
    requires
        n <= MAX_MEMBERS,
    ensures
        order matches Some(drawn) ==> is_order(drawn@, n as nat),
{
    let mut line: Vec<u32> = Vec::new();
    let mut i: u32 = 0;
    while i < n
        invariant
            i <= n,
            line@ == positions(i as nat),
        decreases n - i,
    {
        line.push(i);
        assert(line@ =~= positions((i + 1) as nat));
        i += 1;
    }
    shuffled(env, &line)
}

/// The members in the given order: place `i` of the result holds the member at
/// position `order[i]`.
pub fn arrange(members: &Vec<Identity>, order: &Vec<u32>) -> (queue: Vec<Identity>)
    requires
        forall|i: int| 0 <= i < order@.len() ==> order@[i] < members@.len(),
    ensures
        queue@ == arranged(members@, order@),
{
    let mut queue: Vec<Identity> = Vec::new();
    let mut i: usize = 0;
    while i < order.len()
        invariant
            i <= order@.len(),
            forall|k: int| 0 <= k < order@.len() ==> order@[k] < members@.len(),
            queue@ == arranged(members@, order@.subrange(0, i as int)),
        decreases order@.len() - i,
    {
        let at: usize = order[i] as usize;
        queue.push(members[at]);
        assert(queue@ =~= arranged(members@, order@.subrange(0, i + 1)));
        i += 1;
    }
    assert(order@.subrange(0, order@.len() as int) =~= order@);
    queue
}

} // verus!
