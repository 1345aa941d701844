//! Ranking symbols by a priority: higher priority first, and between equal
//! priorities the lexically smaller symbol first. The order is total on
//! distinct symbols, so a ranking is fully determined.
use vstd::prelude::*;

verus! {

/// Lexical order on character sequences (by code point; a proper prefix
/// comes first).
pub open spec fn lex_lt(a: Seq<char>, b: Seq<char>) -> bool
    decreases a.len(),
{
    if a.len() == 0 {
        b.len() > 0
    } else if b.len() == 0 {
        false
    } else if a[0] != b[0] {
        a[0] < b[0]
    } else {
        lex_lt(a.drop_first(), b.drop_first())
    }
}

/// Whether (`pa`, `na`) ranks before (`pb`, `nb`).
pub open spec fn ranks_before(pa: int, na: Seq<char>, pb: int, nb: Seq<char>) -> bool {
    pa > pb || (pa == pb && lex_lt(na, nb))
}

pub proof fn lemma_lex_total(a: Seq<char>, b: Seq<char>)
    ensures
        a != b ==> lex_lt(a, b) || lex_lt(b, a),
    decreases a.len(),
{
    if a.len() > 0 && b.len() > 0 && a[0] == b[0] {
        lemma_lex_total(a.drop_first(), b.drop_first());
        if a.drop_first() == b.drop_first() {
            assert(a =~= seq![a[0]] + a.drop_first());
            assert(b =~= seq![b[0]] + b.drop_first());
        }
    } else if a.len() == 0 && b.len() == 0 {
        assert(a =~= b);
    }
}

pub proof fn lemma_lex_irreflexive_asym(a: Seq<char>, b: Seq<char>)
    ensures
        !(lex_lt(a, b) && lex_lt(b, a)),
        !lex_lt(a, a),
    decreases a.len(),
{
    if a.len() > 0 && b.len() > 0 && a[0] == b[0] {
        lemma_lex_irreflexive_asym(a.drop_first(), b.drop_first());
    }
    if a.len() > 0 {
        lemma_lex_irreflexive_asym(a.drop_first(), a.drop_first());
    }
}

pub proof fn lemma_lex_trans(a: Seq<char>, b: Seq<char>, c: Seq<char>)
    ensures
        lex_lt(a, b) && lex_lt(b, c) ==> lex_lt(a, c),
    decreases a.len(),
{
    if a.len() > 0 && b.len() > 0 && c.len() > 0 && a[0] == b[0] && b[0] == c[0] {
        lemma_lex_trans(a.drop_first(), b.drop_first(), c.drop_first());
    }
}

/// The ranking order is a strict total order on entries with distinct names.
pub proof fn lemma_ranks_order(pa: int, na: Seq<char>, pb: int, nb: Seq<char>, pc: int, nc: Seq<char>)
    ensures
        na != nb ==> ranks_before(pa, na, pb, nb) || ranks_before(pb, nb, pa, na),
        !(ranks_before(pa, na, pb, nb) && ranks_before(pb, nb, pa, na)),
        ranks_before(pa, na, pb, nb) && ranks_before(pb, nb, pc, nc) ==> ranks_before(pa, na, pc, nc),
{
    lemma_lex_total(na, nb);
    lemma_lex_irreflexive_asym(na, nb);
    lemma_lex_trans(na, nb, nc);
}

/// Lexical comparison of two strings.
pub fn str_lt(a: &str, b: &str) -> (r: bool)
    ensures
        r == lex_lt(a@, b@),
{
    let na = a.unicode_len();
    let nb = b.unicode_len();
    let mut i: usize = 0;
    assert(a@.skip(0) =~= a@ && b@.skip(0) =~= b@);
    while i < na && i < nb
        invariant
            na == a@.len(),
            nb == b@.len(),
            0 <= i <= na,
            i <= nb,
            lex_lt(a@, b@) == lex_lt(a@.skip(i as int), b@.skip(i as int)),
        decreases na - i,
    {
        let ca = a.get_char(i);
        let cb = b.get_char(i);
        assert(a@.skip(i as int)[0] == ca && b@.skip(i as int)[0] == cb);
        if ca != cb {
            return ca < cb;
        }
        assert(a@.skip(i as int).drop_first() =~= a@.skip(i + 1));
        assert(b@.skip(i as int).drop_first() =~= b@.skip(i + 1));
        i = i + 1;
    }
    i == na && i < nb
}

/// Whether `x` is the name of some entry of `r`.
pub open spec fn listed(r: Seq<(Seq<char>, int)>, x: Seq<char>) -> bool {
    exists|b: int| 0 <= b < r.len() && r[b].0 == x
}

/// Whether `r` is the top `k` of `names` under `prio`: the first `min(k, n)`
/// names in ranking order, each with its priority.
pub open spec fn is_ranking(
    r: Seq<(Seq<char>, int)>,
    names: Seq<Seq<char>>,
    prio: spec_fn(Seq<char>) -> int,
    k: int,
) -> bool {
    &&& r.len() == if k < names.len() { k } else { names.len() as int }
    &&& forall|a: int|
        0 <= a < r.len() ==> names.contains(#[trigger] r[a].0) && r[a].1 == prio(r[a].0)
    &&& forall|a: int, b: int|
        0 <= a < b < r.len() ==> ranks_before(r[a].1, r[a].0, r[b].1, r[b].0)
    &&& forall|a: int, x: Seq<char>|
        #![trigger r[a], names.contains(x)]
        0 <= a < r.len() && names.contains(x) && !listed(r, x) ==> ranks_before(
            r[a].1,
            r[a].0,
            prio(x),
            x,
        )
}

/// A ranking is determined by the names, their priorities and `k`: two
/// rankings of the same figures are equal, so asking twice without an
/// update in between gives the same answer.
pub proof fn lemma_ranking_unique(
    r1: Seq<(Seq<char>, int)>,
    r2: Seq<(Seq<char>, int)>,
    names: Seq<Seq<char>>,
    prio: spec_fn(Seq<char>) -> int,
    k: int,
)
    requires
        is_ranking(r1, names, prio, k),
        is_ranking(r2, names, prio, k),
    ensures
        r1 == r2,
{
    assert forall|p: int| 0 <= p < r1.len() implies r1[p] == r2[p] by {
        lemma_ranking_prefix_equal(r1, r2, names, prio, k, p);
    }
    assert(r1 =~= r2);
}

proof fn lemma_ranking_distinct(r: Seq<(Seq<char>, int)>, names: Seq<Seq<char>>, prio: spec_fn(Seq<char>) -> int, k: int, a: int, b: int)
    requires
        is_ranking(r, names, prio, k),
        0 <= a < r.len(),
        0 <= b < r.len(),
        a != b,
    ensures
        r[a].0 != r[b].0,
{
    let x = if a < b { a } else { b };
    let y = if a < b { b } else { a };
    assert(names.contains(r[x].0) && r[x].1 == prio(r[x].0));
    assert(names.contains(r[y].0) && r[y].1 == prio(r[y].0));
    assert(ranks_before(r[x].1, r[x].0, r[y].1, r[y].0));
    lemma_lex_irreflexive_asym(r[x].0, r[x].0);
}

/// Entries up to position `p` agree.
proof fn lemma_ranking_prefix_equal(
    r1: Seq<(Seq<char>, int)>,
    r2: Seq<(Seq<char>, int)>,
    names: Seq<Seq<char>>,
    prio: spec_fn(Seq<char>) -> int,
    k: int,
    p: int,
)
    requires
        is_ranking(r1, names, prio, k),
        is_ranking(r2, names, prio, k),
        0 <= p < r1.len(),
    ensures
        forall|q: int| 0 <= q <= p ==> r1[q] == r2[q],
    decreases p,
{
    if p > 0 {
        lemma_ranking_prefix_equal(r1, r2, names, prio, k, p - 1);
    }
    let u = r1[p];
    let v = r2[p];
    if u.0 != v.0 {
        // each ranks before the other, which the order forbids
        assert(names.contains(v.0));
        assert(names.contains(u.0));
        assert(ranks_before(u.1, u.0, v.1, v.0)) by {
            if listed(r1, v.0) {
                let c = choose|c: int| 0 <= c < r1.len() && r1[c].0 == v.0;
                if c < p {
                    assert(r2[c] == r1[c]);
                    lemma_ranking_distinct(r2, names, prio, k, c, p);
                } else if c == p {
                } else {
                }
            }
        }
        assert(ranks_before(v.1, v.0, u.1, u.0)) by {
            if listed(r2, u.0) {
                let c = choose|c: int| 0 <= c < r2.len() && r2[c].0 == u.0;
                if c < p {
                    assert(r2[c] == r1[c]);
                    lemma_ranking_distinct(r1, names, prio, k, c, p);
                } else if c == p {
                } else {
                }
            }
        }
        lemma_lex_irreflexive_asym(u.0, v.0);
    }
}

/// Whether slot `i` ranks before slot `j`.
pub open spec fn slot_before(names: Seq<String>, prio: Seq<i128>, i: int, j: int) -> bool {
    ranks_before(prio[i] as int, names[i]@, prio[j] as int, names[j]@)
}

pub open spec fn names_distinct(names: Seq<String>) -> bool {
    forall|i: int, j: int| 0 <= i < names.len() && 0 <= j < names.len() && i != j ==> names[i]@ != names[j]@
}

/// The first `min(k, n)` slots in ranking order.
pub fn top_slots(names: &Vec<String>, prio: &Vec<i128>, k: usize) -> (r: Vec<usize>)
    requires
        names@.len() == prio@.len(),
        names_distinct(names@),
    ensures
        r@.len() == if k < names@.len() { k as int } else { names@.len() as int },
        forall|a: int| 0 <= a < r@.len() ==> #[trigger] r@[a] < names@.len(),
        forall|a: int, b: int|
            0 <= a < b < r@.len() ==> slot_before(names@, prio@, r@[a] as int, r@[b] as int),
        forall|a: int, j: int|
            0 <= a < r@.len() && 0 <= j < names@.len() && !r@.contains(j as usize) ==> slot_before(
                names@,
                prio@,
                r@[a] as int,
                j,
            ),
{
    let n = names.len();
    let mut taken: Vec<bool> = Vec::new();
    let mut t: usize = 0;
    while t < n
        invariant
            0 <= t <= n,
            taken@.len() == t,
            forall|j: int| 0 <= j < t ==> !taken@[j],
        decreases n - t,
    {
        taken.push(false);
        t = t + 1;
    }
    let mut out: Vec<usize> = Vec::new();
    while out.len() < k && out.len() < n
        invariant
            n == names@.len(),
            n == prio@.len(),
            names_distinct(names@),
            taken@.len() == n,
            out@.len() <= n,
            out@.len() <= k,
            forall|a: int| 0 <= a < out@.len() ==> #[trigger] out@[a] < n,
            forall|j: int| 0 <= j < n ==> (#[trigger] taken@[j] <==> out@.contains(j as usize)),
            forall|a: int, b: int|
                0 <= a < b < out@.len() ==> slot_before(names@, prio@, out@[a] as int, out@[b] as int),
            forall|a: int, j: int|
                0 <= a < out@.len() && 0 <= j < n && !taken@[j] ==> slot_before(
                    names@,
                    prio@,
                    out@[a] as int,
                    j,
                ),
        decreases n - out@.len(),
    {
        // some slot is still free, since fewer than n are taken
        proof {
            lemma_free_slot_exists(out@, taken@, n as int);
        }
        let mut best: usize = n;
        let mut j: usize = 0;
        while j < n
            invariant
                n == names@.len(),
                n == prio@.len(),
                names_distinct(names@),
                taken@.len() == n,
                0 <= j <= n,
                best == n || (best < j && !taken@[best as int]),
                best == n ==> forall|x: int| 0 <= x < j ==> taken@[x],
                best < n ==> forall|x: int|
                    0 <= x < j && !taken@[x] && x != best ==> slot_before(
                        names@,
                        prio@,
                        best as int,
                        x,
                    ),
            decreases n - j,
        {
            if !taken[j] {
                let replace = if best == n {
                    true
                } else {
                    let pj = prio[j];
                    let pb = prio[best];
                    pj > pb || (pj == pb && str_lt(names[j].as_str(), names[best].as_str()))
                };
                if replace {
                    proof {
                        if best < n {
                            assert forall|x: int|
                                0 <= x < j + 1 && !taken@[x] && x != j implies slot_before(
                                    names@,
                                    prio@,
                                    j as int,
                                    x,
                                ) by {
                                lemma_ranks_order(
                                    prio@[j as int] as int,
                                    names@[j as int]@,
                                    prio@[best as int] as int,
                                    names@[best as int]@,
                                    prio@[x] as int,
                                    names@[x]@,
                                );
                            }
                        }
                    }
                    best = j;
                } else {
                    proof {
                        lemma_ranks_order(
                            prio@[j as int] as int,
                            names@[j as int]@,
                            prio@[best as int] as int,
                            names@[best as int]@,
                            0,
                            Seq::<char>::empty(),
                        );
                    }
                }
            }
            j = j + 1;
        }
        proof {
            if best == n {
                let x = choose|x: int| 0 <= x < n && !taken@[x];
            }
        }
        let ghost old_out = out@;
        let ghost old_taken = taken@;
        taken.set(best, true);
        out.push(best);
        proof {
            assert forall|x: int| 0 <= x < n implies (#[trigger] taken@[x] <==> out@.contains(
                x as usize,
            )) by {
                if x == best {
                    assert(out@[old_out.len() as int] == best);
                } else {
                    if out@.contains(x as usize) {
                        let a = choose|a: int| 0 <= a < out@.len() && out@[a] == x as usize;
                        assert(a < old_out.len());
                        assert(old_out[a] == x as usize);
                    }
                    if old_out.contains(x as usize) {
                        let a = choose|a: int| 0 <= a < old_out.len() && old_out[a] == x as usize;
                        assert(out@[a] == x as usize);
                    }
                }
            }
            assert forall|a: int, b: int| 0 <= a < b < out@.len() implies slot_before(
                names@,
                prio@,
                out@[a] as int,
                out@[b] as int,
            ) by {
                if b == old_out.len() {
                    assert(!old_taken[best as int]);
                }
            }
        }
    }
    proof {
        assert forall|a: int, j: int|
            0 <= a < out@.len() && 0 <= j < n && !out@.contains(j as usize) implies slot_before(
                names@,
                prio@,
                out@[a] as int,
                j,
            ) by {
            assert(!taken@[j]);
        }
    }
    out
}

/// While fewer than all slots are taken, one is free.
proof fn lemma_free_slot_exists(out: Seq<usize>, taken: Seq<bool>, n: int)
    requires
        taken.len() == n,
        n <= usize::MAX,
        out.len() < n,
        forall|a: int| 0 <= a < out.len() ==> #[trigger] out[a] < n,
        forall|j: int| 0 <= j < n ==> (#[trigger] taken[j] <==> out.contains(j as usize)),
    ensures
        exists|x: int| 0 <= x < n && !taken[x],
{
    if forall|x: int| 0 <= x < n ==> taken[x] {
        // every slot below n occurs in `out`, which is too short to hold them all
        let s = Set::new(|x: usize| (x as int) < n);
        let o = out.to_set();
        assert(s.subset_of(o)) by {
            assert forall|x: usize| s.contains(x) implies o.contains(x) by {
                assert(taken[x as int]);
            }
        }
        lemma_range_set_len(n);
        out.lemma_cardinality_of_set();
        vstd::set_lib::lemma_len_subset(s, o);
    }
}

/// The set of `usize` values below `n` has `n` elements.
proof fn lemma_range_set_len(n: int)
    requires
        0 <= n <= usize::MAX + 1,
    ensures
        Set::new(|x: usize| (x as int) < n).finite(),
        Set::new(|x: usize| (x as int) < n).len() == n,
    decreases n,
{
    let s = Set::new(|x: usize| (x as int) < n);
    if n == 0 {
        assert(s =~= Set::<usize>::empty());
    } else {
        lemma_range_set_len(n - 1);
        let s0 = Set::new(|x: usize| (x as int) < n - 1);
        assert(s =~= s0.insert((n - 1) as usize));
    }
}

} // verus!
