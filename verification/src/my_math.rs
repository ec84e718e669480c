//! Fibonacci numbers with a table of the values already computed.

use std::collections::HashMap;
use vstd::prelude::*;

verus! {

broadcast use vstd::std_specs::hash::group_hash_axioms;

/// The Fibonacci sequence: 0, 1, and from there the sum of the two before.
pub open spec fn fib(n: nat) -> nat
    decreases n,
{
    if n == 0 {
        0
    } else if n == 1 {
        1
    } else {
        fib((n - 1) as nat) + fib((n - 2) as nat)
    }
}

/// A table that holds Fibonacci numbers: what it holds for an index from 2
/// on is the Fibonacci number of that index.
pub open spec fn is_fib_memo(memo: Map<i32, i32>) -> bool {
    forall|k: i32| 2 <= k && #[trigger] memo.contains_key(k) ==> memo[k] == fib(k as nat)
}

/// What a computation with the table `memo` gives for the index `n`, and
/// the table after it. The indices 0 and 1 give themselves and are entered
/// unless the table has them. Any other index that the table has gives what
/// the table holds, and the table stays. An index from 2 on that the table
/// lacks gives the sum for the two indices before it, computed one after
/// the other with the growing table, and is entered with that sum.
pub open spec fn computed(memo: Map<i32, i32>, n: i32) -> (int, Map<i32, i32>)
    decreases n,
{
    if n == 0 || n == 1 {
        (
            n as int,
            if memo.contains_key(n) {
                memo
            } else {
                memo.insert(n, n)
            },
        )
    } else if memo.contains_key(n) {
        (memo[n] as int, memo)
    } else if n < 0 {
        (0, memo)
    } else {
        let left = computed(memo, (n - 1) as i32);
        let right = computed(left.1, (n - 2) as i32);
        (left.0 + right.0, right.1.insert(n, (left.0 + right.0) as i32))
    }
}

/// Every sum that the computation for `n` with the table `memo` forms is a
/// 32-bit number.
pub open spec fn sums_fit(memo: Map<i32, i32>, n: i32) -> bool
    decreases n,
{
    if n < 2 || memo.contains_key(n) {
        true
    } else {
        let left = computed(memo, (n - 1) as i32);
        let right = computed(left.1, (n - 2) as i32);
        &&& sums_fit(memo, (n - 1) as i32)
        &&& sums_fit(left.1, (n - 2) as i32)
        &&& i32::MIN <= left.0 + right.0 <= i32::MAX
    }
}

/// The Fibonacci sequence never falls.
pub proof fn lemma_fib_monotonic(i: nat, j: nat)
    requires
        i <= j,
    ensures
        fib(i) <= fib(j),
    decreases j - i,
{
    if j < 2 || i == j {
    } else if i + 1 == j {
    } else {
        lemma_fib_monotonic(i, (j - 1) as nat);
        lemma_fib_monotonic(i, (j - 2) as nat);
    }
}

/// A computation keeps what the table holds, adds only indices from 0 to
/// `n`, and leaves `n` in the table.
pub proof fn lemma_computed_extends(memo: Map<i32, i32>, n: i32)
    requires
        0 <= n || memo.contains_key(n),
    ensures
        memo.submap_of(computed(memo, n).1),
        computed(memo, n).1.contains_key(n),
        forall|k: i32| #[trigger]
            computed(memo, n).1.contains_key(k) && !memo.contains_key(k) ==> 0 <= k <= n,
    decreases n,
{
    let after = computed(memo, n).1;
    if n == 0 || n == 1 || memo.contains_key(n) {
        assert forall|k: i32| #[trigger] memo.contains_key(k) implies after.contains_key(k)
            && after[k] == memo[k] by {}
    } else {
        let left = computed(memo, (n - 1) as i32);
        let right = computed(left.1, (n - 2) as i32);
        lemma_computed_extends(memo, (n - 1) as i32);
        lemma_computed_extends(left.1, (n - 2) as i32);
        assert forall|k: i32| #[trigger] memo.contains_key(k) implies after.contains_key(k)
            && after[k] == memo[k] by {
            assert(left.1.contains_key(k));
            assert(right.1.contains_key(k));
        }
    }
}

/// With a table of Fibonacci numbers the computation for an index whose
/// Fibonacci number is a 32-bit number forms only such sums, gives that
/// number, and leaves a table of Fibonacci numbers.
pub proof fn lemma_fib_memo_computes(memo: Map<i32, i32>, n: i32)
    requires
        0 <= n,
        fib(n as nat) <= i32::MAX,
        is_fib_memo(memo),
    ensures
        sums_fit(memo, n),
        computed(memo, n).0 == fib(n as nat),
        is_fib_memo(computed(memo, n).1),
    decreases n,
{
    if n == 0 || n == 1 || memo.contains_key(n) {
    } else {
        lemma_fib_monotonic((n - 1) as nat, n as nat);
        lemma_fib_monotonic((n - 2) as nat, n as nat);
        let left = computed(memo, (n - 1) as i32);
        lemma_fib_memo_computes(memo, (n - 1) as i32);
        lemma_fib_memo_computes(left.1, (n - 2) as i32);
    }
}

/// The `n_count`-th Fibonacci number, computed with the table `h`: values
/// found in `h` are taken from there as they are, and every value computed
/// on the way is entered into it. With a table of Fibonacci numbers, the
/// empty one among them, the result is the Fibonacci number; see
/// `lemma_fib_memo_computes`.
pub fn calc_fib(n_count: i32, h: &mut HashMap<i32, i32>) -> (result: i32)
    requires
        0 <= n_count || old(h)@.contains_key(n_count),
        sums_fit(old(h)@, n_count),
    ensures
        result == computed(old(h)@, n_count).0,
        final(h)@ == computed(old(h)@, n_count).1,
        n_count != 0 && n_count != 1 && old(h)@.contains_key(n_count) ==> result == old(h)@[n_count]
            && final(h)@ == old(h)@,
        old(h)@.submap_of(final(h)@),
        final(h)@.contains_key(n_count),
        forall|k: i32| #[trigger]
            final(h)@.contains_key(k) && !old(h)@.contains_key(k) ==> 0 <= k <= n_count,
        0 <= n_count && fib(n_count as nat) <= i32::MAX && is_fib_memo(old(h)@) ==> result == fib(
            n_count as nat,
        ) && is_fib_memo(final(h)@),
    decreases n_count,
{
    proof {
        lemma_computed_extends(h@, n_count);
        if 0 <= n_count && fib(n_count as nat) <= i32::MAX && is_fib_memo(h@) {
            lemma_fib_memo_computes(h@, n_count);
        }
    }
    if n_count == 0 || n_count == 1 {
        h.entry(n_count).or_insert(n_count);
        n_count
    } else {
        match h.get(&n_count) {
            Some(known) => *known,
            None => {
                let left = calc_fib(n_count - 1, h);
                let right = calc_fib(n_count - 2, h);
                let result = left + right;
                assert(!h@.contains_key(n_count));
                h.entry(n_count).or_insert(result);
                result
            },
        }
    }
}

} // verus!
