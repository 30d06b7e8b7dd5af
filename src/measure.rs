use vstd::prelude::*;

verus! {

/// `base` raised to `e`.
pub open spec fn power(base: nat, e: nat) -> nat
    decreases e,
{
    if e == 0 {
        1
    } else {
        base * power(base, (e - 1) as nat)
    }
}

/// Digit `k` of a budget stack, `top` standing for a slot not yet filled.
pub open spec fn digit(b: Seq<usize>, k: int, top: nat) -> nat {
    if 0 <= k < b.len() {
        b[k] as nat
    } else {
        top
    }
}

/// Value of digits `k..n` of a stack of retry budgets, read as a number in
/// base `top + 1`: it falls whenever an entry is pushed with a budget below
/// `top`, or when entries are dropped and the new last entry loses a retry.
pub open spec fn lex_value(b: Seq<usize>, k: int, n: int, top: nat) -> nat
    decreases n - k,
{
    if k < n {
        digit(b, k, top) * power(top + 1, (n - 1 - k) as nat) + lex_value(b, k + 1, n, top)
    } else {
        0
    }
}

pub proof fn lemma_power_pos(base: nat, e: nat)
    requires
        base > 0,
    ensures
        power(base, e) > 0,
    decreases e,
{
    if e > 0 {
        lemma_power_pos(base, (e - 1) as nat);
        assert(base * power(base, (e - 1) as nat) > 0) by (nonlinear_arith)
            requires
                base > 0,
                power(base, (e - 1) as nat) > 0,
        ;
    }
}

pub proof fn lemma_lex_bound(b: Seq<usize>, k: int, n: int, top: nat)
    requires
        0 <= k <= n,
        forall|t: int| 0 <= t < b.len() ==> b[t] <= top,
    ensures
        lex_value(b, k, n, top) < power(top + 1, (n - k) as nat),
    decreases n - k,
{
    if k < n {
        lemma_lex_bound(b, k + 1, n, top);
        let p = power(top + 1, (n - 1 - k) as nat);
        let d = digit(b, k, top);
        let rest = lex_value(b, k + 1, n, top);
        assert((n - k) as nat == ((n - 1 - k) as nat) + 1);
        assert(power(top + 1, (n - k) as nat) == (top + 1) * p);
        assert(d * p + rest < (top + 1) * p) by (nonlinear_arith)
            requires
                d <= top,
                rest < p,
        ;
    }
}

/// Stacks that agree below slot `j` and hold a smaller digit at `j` have a
/// smaller value.
pub proof fn lemma_lex_less(b1: Seq<usize>, b2: Seq<usize>, j: int, k: int, n: int, top: nat)
    requires
        0 <= k <= j < n,
        forall|t: int| 0 <= t < j ==> digit(b1, t, top) == digit(b2, t, top),
        digit(b1, j, top) < digit(b2, j, top),
        forall|t: int| 0 <= t < b1.len() ==> b1[t] <= top,
        forall|t: int| 0 <= t < b2.len() ==> b2[t] <= top,
    ensures
        lex_value(b1, k, n, top) < lex_value(b2, k, n, top),
    decreases j - k,
{
    let p = power(top + 1, (n - 1 - k) as nat);
    if k == j {
        lemma_lex_bound(b1, k + 1, n, top);
        assert((n - (k + 1)) as nat == (n - 1 - k) as nat);
        let d1 = digit(b1, k, top);
        let d2 = digit(b2, k, top);
        let r1 = lex_value(b1, k + 1, n, top);
        let r2 = lex_value(b2, k + 1, n, top);
        assert(d1 * p + r1 < d2 * p + r2) by (nonlinear_arith)
            requires
                d1 < d2,
                r1 < p,
                r2 >= 0,
        ;
    } else {
        lemma_lex_less(b1, b2, j, k + 1, n, top);
    }
}

/// Weight of one frontier entry: higher for a smaller count of options.
pub open spec fn entry_weight(m: Map<usize, usize>, i: int, top: nat) -> nat {
    if 0 <= i && m.contains_key(i as usize) {
        (top + 1 - m[i as usize]) as nat
    } else {
        0
    }
}

/// Total weight of the frontier entries with keys in `k..n`.
pub open spec fn queue_weight(m: Map<usize, usize>, k: int, n: int, top: nat) -> nat
    decreases n - k,
{
    if k < n {
        entry_weight(m, k, top) + queue_weight(m, k + 1, n, top)
    } else {
        0
    }
}

/// Two frontiers that differ at key `i` alone differ in weight by the
/// difference of that entry's weight.
pub proof fn lemma_weight_update(m1: Map<usize, usize>, m2: Map<usize, usize>, i: int, k: int, n: int, top: nat)
    requires
        0 <= k <= i < n <= usize::MAX,
        forall|j: usize| j != i ==> (m1.contains_key(j) <==> m2.contains_key(j)),
        forall|j: usize| j != i && #[trigger] m1.contains_key(j) ==> m1[j] == m2[j],
    ensures
        queue_weight(m1, k, n, top) - entry_weight(m1, i, top) == queue_weight(m2, k, n, top) - entry_weight(m2, i, top),
    decreases n - k,
{
    if k < i {
        lemma_weight_update(m1, m2, i, k + 1, n, top);
        assert(entry_weight(m1, k, top) == entry_weight(m2, k, top)) by {
            assert(k as usize != i);
        }
    } else {
        lemma_weight_same(m1, m2, i, k + 1, n, top);
    }
}

proof fn lemma_weight_same(m1: Map<usize, usize>, m2: Map<usize, usize>, i: int, k: int, n: int, top: nat)
    requires
        0 <= i < k,
        n <= usize::MAX,
        forall|j: usize| j != i ==> (m1.contains_key(j) <==> m2.contains_key(j)),
        forall|j: usize| j != i && #[trigger] m1.contains_key(j) ==> m1[j] == m2[j],
    ensures
        queue_weight(m1, k, n, top) == queue_weight(m2, k, n, top),
    decreases n - k,
{
    if k < n {
        lemma_weight_same(m1, m2, i, k + 1, n, top);
        assert(entry_weight(m1, k, top) == entry_weight(m2, k, top)) by {
            assert(k as usize != i);
        }
    }
}

/// Distinct values below `n` number at most `n`.
pub proof fn lemma_distinct_below(s: Seq<usize>, n: nat)
    requires
        forall|a: int, b: int| 0 <= a < b < s.len() ==> s[a] != s[b],
        forall|a: int| 0 <= a < s.len() ==> s[a] < n,
    ensures
        s.len() <= n,
    decreases n,
{
    if n == 0 {
        if s.len() > 0 {
            assert(s[0] < n);
        }
    } else {
        let top = (n - 1) as usize;
        if exists|j: int| 0 <= j < s.len() && s[j] == top {
            let j = choose|j: int| 0 <= j < s.len() && s[j] == top;
            let s2 = s.remove(j);
            assert forall|a: int| 0 <= a < s2.len() implies s2[a] < (n - 1) as nat by {
                if a < j {
                    assert(s2[a] == s[a]);
                } else {
                    assert(s2[a] == s[a + 1]);
                }
            }
            assert forall|a: int, b: int| 0 <= a < b < s2.len() implies s2[a] != s2[b] by {
                let a1 = if a < j { a } else { a + 1 };
                let b1 = if b < j { b } else { b + 1 };
                assert(s2[a] == s[a1]);
                assert(s2[b] == s[b1]);
            }
            lemma_distinct_below(s2, (n - 1) as nat);
        } else {
            assert forall|a: int| 0 <= a < s.len() implies s[a] < (n - 1) as nat by {
                assert(s[a] != top);
            }
            lemma_distinct_below(s, (n - 1) as nat);
        }
    }
}

} // verus!
