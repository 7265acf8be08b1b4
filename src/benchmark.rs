//! Numeric benchmark kernels: an arithmetic series, a two-term recurrence
//! checksum, and prime counting by sieve and by parallel trial division.
use rayon::iter::{IntoParallelIterator, ParallelIterator};
use vstd::prelude::*;
use vstd::arithmetic::div_mod::{
    lemma_fundamental_div_mod, lemma_hoist_over_denominator, lemma_mod_multiples_basic,
    lemma_mod_multiples_vanish, lemma_small_mod,
};

verus! {

/// `1 + 2 + ... + n`, and 0 where `n <= 0`.
pub open spec fn series_sum(n: int) -> int
    decreases n,
{
    if n <= 0 {
        0
    } else {
        series_sum(n - 1) + n
    }
}

/// The remainder of `x` divided by 100, with the sign of `x`, as `%` on `i64`
/// gives it.
pub open spec fn rem_100(x: i64) -> i64 {
    if x >= 0 {
        (x % 100) as i64
    } else {
        (-((-x) % 100)) as i64
    }
}

/// The recurrence after `k` steps, as `(a, b, total)`: it starts at
/// `(0, 1, 0)`, and each step moves to `(b, a + b, total + rem_100(a + b))`.
/// Sums wrap around on `i64`.
pub open spec fn recurrence_state(k: nat) -> (i64, i64, i64)
    decreases k,
{
    if k == 0 {
        (0, 1, 0)
    } else {
        let (a, b, total) = recurrence_state((k - 1) as nat);
        let next = a.wrapping_add(b);
        (b, next, total.wrapping_add(rem_100(next)))
    }
}

/// The checksum that the two-term recurrence yields for `iterations`.
pub open spec fn recurrence_checksum(iterations: int) -> i64 {
    if iterations <= 0 {
        0
    } else if iterations == 1 {
        1
    } else {
        let (a, b, total) = recurrence_state((iterations - 1) as nat);
        a.wrapping_add(b).wrapping_add(total)
    }
}

/// `n` is prime: at least 2 and without a divisor strictly between 1 and itself.
pub open spec fn is_prime_spec(n: int) -> bool {
    n >= 2 && forall|d: int| 2 <= d < n ==> #[trigger] (n % d) != 0
}

/// The series `1 + ... + n` has the closed form `n * (n + 1) / 2`.
pub proof fn lemma_sum_closed_form(n: int)
    requires
        n >= 0,
    ensures
        series_sum(n) == n * (n + 1) / 2,
    decreases n,
{
    if n > 0 {
        lemma_sum_closed_form(n - 1);
        let x = (n - 1) * n;
        let y = n * (n + 1);
        assert(x + n * 2 == y) by (nonlinear_arith)
            requires
                x == (n - 1) * n,
                y == n * (n + 1),
        ;
        lemma_hoist_over_denominator(x, n, 2);
        assert((n - 1) * (n - 1 + 1) == x);
    } else {
        assert(n * (n + 1) == 0) by (nonlinear_arith)
            requires
                n == 0,
        ;
    }
}

/// The series grows with its bound.
proof fn lemma_sum_monotonic(i: int, n: int)
    requires
        i <= n,
    ensures
        series_sum(i) <= series_sum(n),
    decreases n - i,
{
    if i < n {
        lemma_sum_monotonic(i, n - 1);
    }
}

/// How many primes lie in `[2, n]`.
pub open spec fn prime_count(n: int) -> nat
    decreases n,
{
    if n < 2 {
        0
    } else {
        prime_count(n - 1) + if is_prime_spec(n) {
            1nat
        } else {
            0nat
        }
    }
}

/// The candidates `2, 3, ..., limit`, in order.
pub open spec fn candidates(limit: int) -> Seq<int> {
    Seq::new(if limit < 2 { 0nat } else { (limit - 1) as nat }, |k: int| k + 2)
}

/// How many of the candidates up to `limit` pass the primality test.
pub open spec fn trial_division_count(limit: int) -> nat {
    candidates(limit).filter(|n: int| is_prime_spec(n)).len()
}

/// `i` has no divisor `d` with `2 <= d < p` other than possibly itself.
pub open spec fn no_divisor_below(i: int, p: int) -> bool {
    forall|d: int| 2 <= d < p && d < i ==> #[trigger] (i % d) != 0
}

/// There are no more primes in `[2, n]` than numbers in `[1, n]`.
proof fn lemma_prime_count_bound(n: int)
    ensures
        prime_count(n) <= if n < 1 { 0 } else { n - 1 },
    decreases n,
{
    if n >= 2 {
        lemma_prime_count_bound(n - 1);
    }
}

/// Between a multiple `j` of `p` and the next one there is no multiple of `p`.
proof fn lemma_next_multiple(j: int, p: int)
    requires
        p > 0,
        j >= 0,
        j % p == 0,
    ensures
        (j + p) % p == 0,
        forall|i: int| j < i < j + p ==> #[trigger] (i % p) != 0,
{
    lemma_fundamental_div_mod(j, p);
    lemma_mod_multiples_vanish(j / p + 1, 0, p);
    assert(p * (j / p + 1) + 0 == j + p) by (nonlinear_arith)
        requires
            j == p * (j / p),
    ;
    assert forall|i: int| j < i < j + p implies #[trigger] (i % p) != 0 by {
        lemma_mod_multiples_vanish(j / p, i - j, p);
        lemma_small_mod((i - j) as nat, p as nat);
    }
}

/// If `b` divides `c` and `a` divides `b`, then `a` divides `c`.
proof fn lemma_divides_trans(a: int, b: int, c: int)
    requires
        a > 0,
        b > 0,
        b % a == 0,
        c % b == 0,
    ensures
        c % a == 0,
{
    lemma_fundamental_div_mod(b, a);
    lemma_fundamental_div_mod(c, b);
    let k = (b / a) * (c / b);
    assert(c == k * a) by (nonlinear_arith)
        requires
            b == a * (b / a),
            c == b * (c / b),
            k == (b / a) * (c / b),
    ;
    lemma_mod_multiples_basic(k, a);
}

/// A number below `i * i` without a divisor in `[2, i)` is prime.
proof fn lemma_no_small_divisor_prime(n: int, i: int)
    requires
        n >= 2,
        i >= 2,
        n < i * i,
        forall|d: int| 2 <= d < i && d < n ==> #[trigger] (n % d) != 0,
    ensures
        is_prime_spec(n),
{
    assert forall|d: int| 2 <= d < n implies #[trigger] (n % d) != 0 by {
        if d >= i && n % d == 0 {
            lemma_fundamental_div_mod(n, d);
            let q = n / d;
            assert(n == q * d);
            assert(q >= 2 && q < i && q < n) by (nonlinear_arith)
                requires
                    n == q * d,
                    d >= i,
                    d < n,
                    n < i * i,
                    i >= 2,
            ;
            lemma_mod_multiples_basic(d, q);
            assert(n == d * q) by (nonlinear_arith)
                requires
                    n == q * d,
            ;
        }
    }
}

/// Adds `1 + 2 + ... + iterations` one term at a time; 0 where
/// `iterations <= 0`. The sum must fit in an `i64`.
pub fn calculate_sum_rust(iterations: i64) -> (r: i64)
    requires
        iterations <= 0 || iterations * (iterations + 1) / 2 <= i64::MAX,
    ensures
        r == series_sum(iterations as int),
{
    let mut sum: i64 = 0;
    if iterations <= 0 {
        return sum;
    }
    proof {
        lemma_sum_closed_form(iterations as int);
        assert(iterations < i64::MAX) by (nonlinear_arith)
            requires
                iterations > 0,
                iterations * (iterations + 1) / 2 <= i64::MAX,
        ;
    }
    let mut i: i64 = 1;
    while i <= iterations
        invariant
            1 <= i <= iterations + 1,
            iterations < i64::MAX,
            series_sum(iterations as int) <= i64::MAX,
            sum == series_sum(i - 1),
        decreases iterations + 1 - i,
    {
        proof {
            lemma_sum_monotonic(i as int, iterations as int);
        }
        sum = sum + i;
        i = i + 1;
    }
    sum
}

/// A checksum of a Fibonacci-style recurrence: 0 for `iterations <= 0`, 1 for
/// `iterations == 1`; otherwise `iterations - 1` steps of `(a, b) -> (b, a + b)`
/// from `(0, 1)`, adding each new term modulo 100 to a running total, and the
/// result `a + b + total`. Every sum wraps around on `i64`: the terms outgrow
/// it after about ninety steps, and the result is a checksum, not a term.
pub fn calculate_fibonacci_like_rust(iterations: i64) -> (r: i64)
    ensures
        r == recurrence_checksum(iterations as int),
{
    if iterations <= 0 {
        return 0;
    }
    if iterations == 1 {
        return 1;
    }
    let mut a: i64 = 0;
    let mut b: i64 = 1;
    let mut total: i64 = 0;
    let steps: u64 = (iterations - 1) as u64;
    let mut k: u64 = 0;
    while k < steps
        invariant
            k <= steps,
            steps == iterations - 1,
            (a, b, total) == recurrence_state(k as nat),
        decreases steps - k,
    {
        let next = a.wrapping_add(b);
        let rem = next % 100;
        assert(rem == rem_100(next));
        a = b;
        b = next;
        total = total.wrapping_add(rem);
        k = k + 1;
    }
    a.wrapping_add(b).wrapping_add(total)
}

/// Past a candidate `i` of the form `6k - 1`, the numbers up to `i + 5` other
/// than `i` and `i + 2` are multiples of 2 or of 3, so they cannot divide a
/// number that 2 and 3 do not divide.
proof fn lemma_wheel_step(m: int, i: int)
    requires
        i >= 5,
        i % 6 == 5,
        m % 2 != 0,
        m % 3 != 0,
        m % i != 0,
        m % (i + 2) != 0,
        forall|d: int| 2 <= d < i ==> #[trigger] (m % d) != 0,
    ensures
        forall|d: int| 2 <= d < i + 6 ==> #[trigger] (m % d) != 0,
{
    assert forall|d: int| 2 <= d < i + 6 implies #[trigger] (m % d) != 0 by {
        if d >= i && d != i && d != i + 2 && m % d == 0 {
            if d == i + 4 {
                lemma_divides_trans(3, d, m);
            } else {
                lemma_divides_trans(2, d, m);
            }
        }
    }
}

/// Decides primality by trial division: after 2 and 3, only candidates of the
/// form `6k - 1` and `6k + 1` are tried, up to the square root of `n`.
pub fn is_prime(n: i64) -> (r: bool)
    ensures
        r == is_prime_spec(n as int),
{
    if n <= 1 {
        return false;
    }
    if n <= 3 {
        assert(is_prime_spec(n as int));
        return true;
    }
    let m: u64 = n as u64;
    if m % 2 == 0 {
        return false;
    }
    if m % 3 == 0 {
        return false;
    }
    assert forall|d: int| 2 <= d < 5 implies #[trigger] (m as int % d) != 0 by {
        if d == 4 && m as int % d == 0 {
            lemma_divides_trans(2, 4, m as int);
        }
    }
    let mut i: u64 = 5;
    while i <= m / i
        invariant
            5 <= i,
            i % 6 == 5,
            5 <= m <= i64::MAX,
            m == n,
            m % 2 != 0,
            m % 3 != 0,
            forall|d: int| 2 <= d < i ==> #[trigger] (m as int % d) != 0,
        decreases m - i,
    {
        assert(i * i <= m && i + 6 < m) by (nonlinear_arith)
            requires
                i <= m / i,
                i >= 5,
        {
            lemma_fundamental_div_mod(m as int, i as int);
        }
        if m % i == 0 {
            return false;
        }
        if m % (i + 2) == 0 {
            return false;
        }
        proof {
            lemma_wheel_step(m as int, i as int);
        }
        i = i + 6;
    }
    proof {
        assert(m < i * i) by (nonlinear_arith)
            requires
                i > m / i,
                i >= 5,
        {
            lemma_fundamental_div_mod(m as int, i as int);
        }
        lemma_no_small_divisor_prime(m as int, i as int);
    }
    true
}

/// Counts the primes in `[2, limit]` with the sieve of Eratosthenes.
///
/// The table holds one flag per number in `[0, limit]`; every multiple of a
/// prime `p`, from `p * p` on, is struck out, and the flags left standing in
/// `[2, limit]` are counted. `limit` must leave room for the table's length.
pub fn count_primes_sieve_rust(limit: i64) -> (r: i64)
    requires
        limit < usize::MAX,
    ensures
        r == prime_count(limit as int),
{
    if limit < 2 {
        return 0;
    }
    let n: usize = limit as usize;
    let m: u64 = limit as u64;
    let mut table: Vec<bool> = vec![true; n + 1];
    table.set(0, false);
    table.set(1, false);
    let mut p: u64 = 2;
    while p <= m / p
        invariant
            2 <= p <= m,
            n == limit,
            m == limit,
            table@.len() == n + 1,
            forall|i: int| 0 <= i <= n ==> #[trigger] table@[i] == (i >= 2 && no_divisor_below(i, p as int)),
        decreases m - p,
    {
        assert(p * p <= m && p < m) by (nonlinear_arith)
            requires
                p <= m / p,
                p >= 2,
        {
            lemma_fundamental_div_mod(m as int, p as int);
        }
        let ghost before = table@;
        if table[p as usize] {
            let mut j: u64 = p * p;
            proof {
                lemma_mod_multiples_basic(p as int, p as int);
            }
            while j <= m
                invariant
                    2 <= p <= m,
                    p * p <= m,
                    p * p <= j <= m + p,
                    m == n,
                    m <= i64::MAX,
                    j % p == 0,
                    table@.len() == n + 1,
                    before.len() == n + 1,
                    forall|i: int| 0 <= i <= n ==> #[trigger] table@[i] == (before[i] && !(p * p <= i < j && i % p as int == 0)),
                decreases m + p - j,
            {
                table.set(j as usize, false);
                proof {
                    lemma_next_multiple(j as int, p as int);
                }
                j = j + p;
            }
            assert forall|i: int| 0 <= i <= n implies #[trigger] table@[i] == (i >= 2 && no_divisor_below(i, p + 1)) by {
                if before[i] && p < i < p * p && i % p as int == 0 {
                    lemma_fundamental_div_mod(i, p as int);
                    let q = i / p as int;
                    assert(2 <= q < p && q < i) by (nonlinear_arith)
                        requires
                            i == p * q,
                            p < i,
                            i < p * p,
                            p >= 2,
                    ;
                    lemma_mod_multiples_basic(p as int, q);
                    assert(i % q == 0) by (nonlinear_arith)
                        requires
                            i == p * q,
                            (p * q) % q == 0,
                    ;
                }
                if i >= p * p && i % p as int == 0 {
                    assert(p < i) by (nonlinear_arith)
                        requires
                            i >= p * p,
                            p >= 2,
                    ;
                }
            }
        } else {
            let ghost d = choose|d: int| 2 <= d < p && d < p && #[trigger] (p as int % d) == 0;
            assert forall|i: int| 0 <= i <= n implies #[trigger] table@[i] == (i >= 2 && no_divisor_below(i, p + 1)) by {
                if before[i] && p < i && i % p as int == 0 {
                    lemma_divides_trans(d, p as int, i);
                }
            }
        }
        p = p + 1;
    }
    proof {
        assert(m < p * p) by (nonlinear_arith)
            requires
                p > m / p,
                p >= 2,
        {
            lemma_fundamental_div_mod(m as int, p as int);
        }
        assert forall|i: int| 2 <= i <= n implies #[trigger] table@[i] == is_prime_spec(i) by {
            if no_divisor_below(i, p as int) {
                assert(i < p * p);
                lemma_no_small_divisor_prime(i, p as int);
            }
        }
    }
    let mut count: i64 = 0;
    let mut k: usize = 2;
    while k <= n
        invariant
            2 <= k <= n + 1,
            n == limit,
            table@.len() == n + 1,
            forall|i: int| 2 <= i <= n ==> #[trigger] table@[i] == is_prime_spec(i),
            count == prime_count(k - 1),
        decreases n + 1 - k,
    {
        proof {
            lemma_prime_count_bound(k as int);
        }
        if table[k] {
            count = count + 1;
        }
        k = k + 1;
    }
    count
}

/// Relies on rayon's parallel `filter` and `count` over the range `2..=limit`:
/// the count is the number of items for which the predicate holds, however
/// the range is split among workers. The predicate is the verified `is_prime`.
#[verifier::external_body]
fn parallel_prime_count(limit: i64) -> (r: usize)
    requires
        2 <= limit,
    ensures
        r == trial_division_count(limit as int),
{
    (2..=limit).into_par_iter().filter(|n| is_prime(*n)).count()
}

/// Counts the primes in `[2, limit]` by trial division of every candidate,
/// spread over a pool of workers; the call returns once all have finished.
pub fn count_primes_parallel_rust(limit: i64) -> (r: i64)
    ensures
        r == prime_count(limit as int),
{
    if limit < 2 {
        return 0;
    }
    let count = parallel_prime_count(limit);
    proof {
        lemma_sieve_agrees_with_trial_division(limit as int);
        lemma_prime_count_bound(limit as int);
    }
    count as i64
}

/// Two parallel counts up to the same limit give the same number, however the
/// workers were scheduled: the count depends on the limit alone.
pub proof fn lemma_parallel_count_deterministic(first: i64, second: i64)
    requires
        first == second,
    ensures
        prime_count(first as int) == prime_count(second as int),
{
}

/// Counting the primes of `[2, limit]` one candidate at a time, as a filter
/// over the range does, gives the same number as the sieve's count.
pub proof fn lemma_sieve_agrees_with_trial_division(limit: int)
    ensures
        trial_division_count(limit) == prime_count(limit),
    decreases limit,
{
    reveal(Seq::filter);
    if limit >= 2 {
        lemma_sieve_agrees_with_trial_division(limit - 1);
        assert(candidates(limit).drop_last() =~= candidates(limit - 1));
        assert(candidates(limit).last() == limit);
    } else {
        assert(candidates(limit) =~= Seq::<int>::empty());
    }
}

} // verus!
