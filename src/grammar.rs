//! Rewriting: productions, generations, and the laws of expansion.

use vstd::prelude::*;

verus! {

/// What `id` rewrites to: the right-hand side of the last rule for it, or
/// `id` itself when it has none.
pub open spec fn production(rules: Seq<(usize, Seq<usize>)>, id: usize) -> Seq<usize>
    decreases rules.len(),
{
    if rules.len() == 0 {
        seq![id]
    } else if rules.last().0 == id {
        rules.last().1
    } else {
        production(rules.drop_last(), id)
    }
}

/// Some rule has `id` on its left-hand side.
pub open spec fn has_rule(rules: Seq<(usize, Seq<usize>)>, id: usize) -> bool {
    exists|i: int| 0 <= i < rules.len() && (#[trigger] rules[i]).0 == id
}

/// One generation: each id replaced by what it rewrites to.
pub open spec fn rewrite(rules: Seq<(usize, Seq<usize>)>, s: Seq<usize>) -> Seq<usize>
    decreases s.len(),
{
    if s.len() == 0 {
        s
    } else {
        rewrite(rules, s.drop_last()) + production(rules, s.last())
    }
}

/// The sequence after `n` generations starting from `start`.
pub open spec fn expand(rules: Seq<(usize, Seq<usize>)>, start: Seq<usize>, n: nat) -> Seq<usize>
    decreases n,
{
    if n == 0 {
        start
    } else {
        rewrite(rules, expand(rules, start, (n - 1) as nat))
    }
}

/// One generation under a total production map.
pub open spec fn rewrite_map(m: Map<usize, Seq<usize>>, s: Seq<usize>) -> Seq<usize>
    decreases s.len(),
{
    if s.len() == 0 {
        s
    } else {
        rewrite_map(m, s.drop_last()) + m[s.last()]
    }
}

/// `n` generations under a production map.
pub open spec fn iterate_map(m: Map<usize, Seq<usize>>, s: Seq<usize>, n: nat) -> Seq<usize>
    decreases n,
{
    if n == 0 {
        s
    } else {
        rewrite_map(m, iterate_map(m, s, (n - 1) as nat))
    }
}

/// Every id of `s` is below `k`.
pub open spec fn ids_below(s: Seq<usize>, k: nat) -> bool {
    forall|i: int| 0 <= i < s.len() ==> s[i] < k
}

/// Every rule of `rules` speaks of ids below `k` only.
pub open spec fn rules_below(rules: Seq<(usize, Seq<usize>)>, k: nat) -> bool {
    forall|i: int| 0 <= i < rules.len() ==> (#[trigger] rules[i]).0 < k && ids_below(rules[i].1, k)
}

/// Every id of `s` has a production in `m`, and so has every id that one
/// of those produces.
pub open spec fn map_closed(m: Map<usize, Seq<usize>>, s: Seq<usize>) -> bool {
    &&& forall|i: int| 0 <= i < s.len() ==> m.contains_key(s[i])
    &&& forall|id: usize, j: int| m.contains_key(id) && 0 <= j < m[id].len() ==> m.contains_key(
        #[trigger] m[id][j],
    )
}

pub proof fn lemma_production_below(rules: Seq<(usize, Seq<usize>)>, id: usize, k: nat)
    requires
        rules_below(rules, k),
        id < k,
    ensures
        ids_below(production(rules, id), k),
    decreases rules.len(),
{
    if rules.len() > 0 {
        assert(rules.last() == rules[rules.len() - 1]);
        assert(rules_below(rules.drop_last(), k)) by {
            assert forall|i: int| 0 <= i < rules.drop_last().len() implies (
            #[trigger] rules.drop_last()[i]).0 < k && ids_below(rules.drop_last()[i].1, k) by {
                assert(rules.drop_last()[i] == rules[i]);
            }
        }
        lemma_production_below(rules.drop_last(), id, k);
    }
}

pub proof fn lemma_rewrite_below(rules: Seq<(usize, Seq<usize>)>, s: Seq<usize>, k: nat)
    requires
        rules_below(rules, k),
        ids_below(s, k),
    ensures
        ids_below(rewrite(rules, s), k),
    decreases s.len(),
{
    if s.len() > 0 {
        lemma_rewrite_below(rules, s.drop_last(), k);
        lemma_production_below(rules, s.last(), k);
        let a = rewrite(rules, s.drop_last());
        let b = production(rules, s.last());
        assert forall|i: int| 0 <= i < (a + b).len() implies (a + b)[i] < k by {
            if i < a.len() {
                assert((a + b)[i] == a[i]);
            } else {
                assert((a + b)[i] == b[i - a.len()]);
            }
        }
    }
}

/// A map that agrees with the rules on the ids below `k` rewrites as they do.
pub proof fn lemma_rewrite_map_agrees(
    m: Map<usize, Seq<usize>>,
    rules: Seq<(usize, Seq<usize>)>,
    s: Seq<usize>,
    k: nat,
)
    requires
        forall|id: usize| id < k ==> #[trigger] m[id] == production(rules, id),
        ids_below(s, k),
    ensures
        rewrite_map(m, s) == rewrite(rules, s),
    decreases s.len(),
{
    if s.len() > 0 {
        lemma_rewrite_map_agrees(m, rules, s.drop_last(), k);
    }
}

/// Iterating such a map is expanding under the rules.
pub proof fn lemma_iterate_map_agrees(
    m: Map<usize, Seq<usize>>,
    rules: Seq<(usize, Seq<usize>)>,
    s: Seq<usize>,
    k: nat,
    n: nat,
)
    requires
        forall|id: usize| id < k ==> #[trigger] m[id] == production(rules, id),
        rules_below(rules, k),
        ids_below(s, k),
    ensures
        iterate_map(m, s, n) == expand(rules, s, n),
        ids_below(expand(rules, s, n), k),
    decreases n,
{
    if n > 0 {
        lemma_iterate_map_agrees(m, rules, s, k, (n - 1) as nat);
        let t = expand(rules, s, (n - 1) as nat);
        lemma_rewrite_map_agrees(m, rules, t, k);
        lemma_rewrite_below(rules, t, k);
    }
}

/// A closed map keeps the sequence closed for one more generation.
pub proof fn lemma_rewrite_map_closed(m: Map<usize, Seq<usize>>, s: Seq<usize>)
    requires
        map_closed(m, s),
    ensures
        map_closed(m, rewrite_map(m, s)),
    decreases s.len(),
{
    if s.len() > 0 {
        let p = s.drop_last();
        assert forall|i: int| 0 <= i < p.len() implies m.contains_key(p[i]) by {
            assert(p[i] == s[i]);
        }
        lemma_rewrite_map_closed(m, p);
        let a = rewrite_map(m, p);
        let b = m[s.last()];
        assert(m.contains_key(s[s.len() - 1]));
        assert forall|i: int| 0 <= i < (a + b).len() implies m.contains_key((a + b)[i]) by {
            if i < a.len() {
                assert((a + b)[i] == a[i]);
            } else {
                assert((a + b)[i] == b[i - a.len()]);
                assert(m.contains_key(m[s.last()][i - a.len()]));
            }
        }
    }
}

// Laws of expansion.

/// Expansion is a function of the rules, the start sequence and the count alone: the
/// same grammar expanded the same number of times gives the same sequence.
pub proof fn lemma_expand_deterministic(
    rules1: Seq<(usize, Seq<usize>)>,
    start1: Seq<usize>,
    rules2: Seq<(usize, Seq<usize>)>,
    start2: Seq<usize>,
    n: nat,
)
    requires
        rules1 == rules2,
        start1 == start2,
    ensures
        expand(rules1, start1, n) == expand(rules2, start2, n),
{
}

/// Zero generations leave the start sequence as it is.
pub proof fn lemma_expand_zero(rules: Seq<(usize, Seq<usize>)>, start: Seq<usize>)
    ensures
        expand(rules, start, 0) == start,
{
}

/// An id without a rule rewrites to itself.
pub proof fn lemma_production_terminal(rules: Seq<(usize, Seq<usize>)>, id: usize)
    requires
        !has_rule(rules, id),
    ensures
        production(rules, id) == seq![id],
    decreases rules.len(),
{
    if rules.len() > 0 {
        assert(rules[rules.len() - 1] == rules.last());
        assert(!has_rule(rules.drop_last(), id)) by {
            if has_rule(rules.drop_last(), id) {
                let i = choose|i: int|
                    0 <= i < rules.drop_last().len() && (#[trigger] rules.drop_last()[i]).0 == id;
                assert(rules[i] == rules.drop_last()[i]);
            }
        }
        lemma_production_terminal(rules.drop_last(), id);
    }
}

/// One generation of a concatenation is the concatenation of the generations.
pub proof fn lemma_rewrite_concat(rules: Seq<(usize, Seq<usize>)>, a: Seq<usize>, b: Seq<usize>)
    ensures
        rewrite(rules, a + b) == rewrite(rules, a) + rewrite(rules, b),
    decreases b.len(),
{
    if b.len() == 0 {
        assert(a + b == a);
        assert(rewrite(rules, a) + rewrite(rules, b) == rewrite(rules, a));
    } else {
        assert((a + b).drop_last() == a + b.drop_last());
        assert((a + b).last() == b.last());
        lemma_rewrite_concat(rules, a, b.drop_last());
        let x = rewrite(rules, a);
        let y = rewrite(rules, b.drop_last());
        let z = production(rules, b.last());
        assert(x + y + z == x + (y + z));
    }
}

/// Expansion works on the parts of a sequence independently.
pub proof fn lemma_expand_concat(
    rules: Seq<(usize, Seq<usize>)>,
    a: Seq<usize>,
    b: Seq<usize>,
    n: nat,
)
    ensures
        expand(rules, a + b, n) == expand(rules, a, n) + expand(rules, b, n),
    decreases n,
{
    if n > 0 {
        lemma_expand_concat(rules, a, b, (n - 1) as nat);
        lemma_rewrite_concat(
            rules,
            expand(rules, a, (n - 1) as nat),
            expand(rules, b, (n - 1) as nat),
        );
    }
}

/// An id without a rule expands to itself in every generation.
pub proof fn lemma_terminal_fixed(rules: Seq<(usize, Seq<usize>)>, id: usize, n: nat)
    requires
        !has_rule(rules, id),
    ensures
        expand(rules, seq![id], n) == seq![id],
    decreases n,
{
    if n > 0 {
        lemma_terminal_fixed(rules, id, (n - 1) as nat);
        lemma_production_terminal(rules, id);
        let s = seq![id];
        assert(s.drop_last() =~= Seq::<usize>::empty());
        assert(rewrite(rules, s.drop_last()) == Seq::<usize>::empty());
        assert(s.last() == id);
        assert(rewrite(rules, s) == Seq::<usize>::empty() + seq![id]);
        assert(Seq::<usize>::empty() + seq![id] =~= seq![id]);
    }
}

/// An id without a rule stays in place through every expansion: whatever
/// surrounds it expands on its own, and the id itself is kept.
pub proof fn lemma_terminal_kept(
    rules: Seq<(usize, Seq<usize>)>,
    before: Seq<usize>,
    id: usize,
    after: Seq<usize>,
    n: nat,
)
    requires
        !has_rule(rules, id),
    ensures
        expand(rules, before + seq![id] + after, n) == expand(rules, before, n) + seq![id]
            + expand(rules, after, n),
{
    lemma_expand_concat(rules, before + seq![id], after, n);
    lemma_expand_concat(rules, before, seq![id], n);
    lemma_terminal_fixed(rules, id, n);
}

} // verus!
