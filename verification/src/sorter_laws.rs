//! What holds of every order that `sort_accounts` may produce.
use crate::sorter::{
    context_deps, context_names, InstructionAccount, account_index, bytes_lt, is_account_order, kahn_step, key_lt, last_match, lemma_all_placed, lemma_bytes_lt_total, name_key,
    lemma_unplaced_exists, order_phases, ready, tail_step, constraint_deps, constraints_deps,
    dependency_names, has_associated_token, has_init, Constraint, ConstraintToken,
};
use vstd::prelude::*;
use vstd::utf8::{decode_utf8, encode_utf8, encode_utf8_decode_utf8};

verus! {

proof fn lemma_phases(names: Seq<Seq<char>>, deps: Seq<Seq<Seq<char>>>, order: Seq<usize>) -> (k: int)
    requires
        is_account_order(names, deps, order),
    ensures
        order_phases(names, deps, order, k),
{
    let k = choose|k: int| order_phases(names, deps, order, k);
    k
}

proof fn lemma_order_in_range(names: Seq<Seq<char>>, deps: Seq<Seq<Seq<char>>>, order: Seq<usize>)
    requires
        is_account_order(names, deps, order),
    ensures
        forall|i: int| 0 <= i < order.len() ==> #[trigger] order[i] < names.len(),
{
    let k = lemma_phases(names, deps, order);
    assert forall|i: int| 0 <= i < order.len() implies #[trigger] order[i] < names.len() by {
        if i < k {
            assert(kahn_step(names, deps, order.take(i), order[i] as int));
        } else {
            assert(tail_step(names, order.take(i), order[i] as int));
        }
    }
}

/// Sorting keeps every account exactly once: the order is a permutation of the
/// accounts' indices.
pub proof fn law_order_is_permutation(
    names: Seq<Seq<char>>,
    deps: Seq<Seq<Seq<char>>>,
    order: Seq<usize>,
)
    requires
        is_account_order(names, deps, order),
        names.len() <= usize::MAX,
    ensures
        order.len() == names.len(),
        order.no_duplicates(),
        forall|i: int| 0 <= i < order.len() ==> #[trigger] order[i] < names.len(),
        forall|j: usize| j < names.len() ==> #[trigger] order.contains(j),
{
    lemma_order_in_range(names, deps, order);
    lemma_all_placed(order, names.len() as usize);
}


proof fn lemma_last_match_bound(names: Seq<Seq<char>>, name: Seq<char>, k: nat)
    requires
        k <= names.len(),
    ensures
        last_match(names, name, k) < k as int,
        last_match(names, name, k) >= 0 ==> names[last_match(names, name, k)] == name,
    decreases k,
{
    if k > 0 {
        lemma_last_match_bound(names, name, (k - 1) as nat);
    }
}

/// The account designated by a dependency name is one of the accounts.
pub proof fn lemma_account_index_bound(names: Seq<Seq<char>>, name: Seq<char>)
    ensures
        account_index(names, name) < names.len(),
        account_index(names, name) >= 0 ==> names[account_index(names, name)] == name,
{
    lemma_last_match_bound(names, name, names.len());
}

/// `rank` numbers the accounts so that each account's dependencies have smaller
/// numbers: the dependencies form no cycle.
pub open spec fn ranks_dependencies(
    names: Seq<Seq<char>>,
    deps: Seq<Seq<Seq<char>>>,
    rank: Seq<nat>,
) -> bool {
    &&& rank.len() == names.len()
    &&& deps.len() == names.len()
    &&& forall|a: int, d: int|
        0 <= a < names.len() && 0 <= d < deps[a].len() && account_index(names, #[trigger] deps[a][d])
            >= 0 ==> rank[account_index(names, deps[a][d])] < rank[a]
}

proof fn lemma_min_unplaced(placed: Seq<usize>, rank: Seq<nat>, m: int) -> (j: usize)
    requires
        0 <= m <= rank.len(),
        m <= usize::MAX,
        exists|x: usize| (x as int) < m && !#[trigger] placed.contains(x),
    ensures
        (j as int) < m,
        !placed.contains(j),
        forall|x: usize| (x as int) < m && !#[trigger] placed.contains(x) ==> rank[j as int] <= rank[x as int],
    decreases m,
{
    let x = choose|x: usize| (x as int) < m && !#[trigger] placed.contains(x);
    assert(m >= 1);
    let last = (m - 1) as usize;
    if exists|x: usize| (x as int) < m - 1 && !#[trigger] placed.contains(x) {
        let j0 = lemma_min_unplaced(placed, rank, m - 1);
        if !placed.contains(last) && rank[last as int] < rank[j0 as int] {
            last
        } else {
            j0
        }
    } else {
        last
    }
}

/// When the dependencies form no cycle, every account comes after all the accounts
/// its constraints depend on.
pub proof fn law_dependencies_come_first(
    names: Seq<Seq<char>>,
    deps: Seq<Seq<Seq<char>>>,
    order: Seq<usize>,
    rank: Seq<nat>,
)
    requires
        is_account_order(names, deps, order),
        ranks_dependencies(names, deps, rank),
        names.len() <= usize::MAX,
    ensures
        forall|i: int, d: int|
            0 <= i < order.len() && 0 <= d < deps[order[i] as int].len() && account_index(
                names,
                #[trigger] deps[order[i] as int][d],
            ) >= 0 ==> order.take(i).contains(account_index(names, deps[order[i] as int][d]) as usize),
{
    let n = names.len();
    let k = lemma_phases(names, deps, order);
    lemma_order_in_range(names, deps, order);
    if k < n {
        let placed = order.take(k);
        assert(placed.no_duplicates()) by {
            assert forall|a: int, b: int| 0 <= a < b < placed.len() implies placed[a] != placed[b] by {
                assert(placed[a] == order[a] && placed[b] == order[b]);
            }
        }
        assert forall|i: int| 0 <= i < placed.len() implies placed[i] < n as usize by {
            assert(placed[i] == order[i]);
        }
        lemma_unplaced_exists(placed, n as usize);
        let u = choose|u: usize| u < n as usize && !placed.contains(u);
        assert((u as int) < n && !placed.contains(u));
        let j = lemma_min_unplaced(placed, rank, n as int) as int;
        assert(!ready(names, deps, placed, j));
        let d = choose|d: int|
            0 <= d < deps[j].len() && account_index(names, #[trigger] deps[j][d]) >= 0
                && !placed.contains(account_index(names, deps[j][d]) as usize);
        let b = account_index(names, deps[j][d]);
        lemma_account_index_bound(names, deps[j][d]);
        assert(rank[b] < rank[j]);
        assert(rank[j] <= rank[b]);
    }
    assert forall|i: int, d: int|
        0 <= i < order.len() && 0 <= d < deps[order[i] as int].len() && account_index(
            names,
            #[trigger] deps[order[i] as int][d],
        ) >= 0 implies order.take(i).contains(account_index(names, deps[order[i] as int][d]) as usize) by {
        assert(kahn_step(names, deps, order.take(i), order[i] as int));
    }
}


proof fn lemma_key_lt_total(names: Seq<Seq<char>>, i: int, j: int)
    requires
        i != j,
    ensures
        key_lt(names, i, j) || key_lt(names, j, i),
        !(key_lt(names, i, j) && key_lt(names, j, i)),
{
    lemma_bytes_lt_total(name_key(names, i), name_key(names, j));
}

proof fn lemma_same_prefix(
    names: Seq<Seq<char>>,
    deps: Seq<Seq<Seq<char>>>,
    o1: Seq<usize>,
    o2: Seq<usize>,
    k1: int,
    k2: int,
    i: int,
)
    requires
        order_phases(names, deps, o1, k1),
        order_phases(names, deps, o2, k2),
        o1.len() == o2.len(),
        0 <= i <= o1.len(),
    ensures
        o1.take(i) == o2.take(i),
    decreases i,
{
    if i > 0 {
        let p = i - 1;
        lemma_same_prefix(names, deps, o1, o2, k1, k2, p);
        let placed = o1.take(p);
        let (a, b) = (o1[p] as int, o2[p] as int);
        if p < k1 && p < k2 {
            assert(kahn_step(names, deps, placed, a));
            assert(kahn_step(names, deps, placed, b));
            if a != b {
                lemma_key_lt_total(names, a, b);
            }
        } else if p < k1 {
            assert(o1.take(k2) =~= o1.take(p).take(k2));
            assert(o2.take(k2) =~= o2.take(p).take(k2));
            assert(kahn_step(names, deps, o1.take(k2), o1[k2] as int));
            assert(!ready(names, deps, o2.take(k2), o1[k2] as int));
        } else if p < k2 {
            assert(o1.take(k1) =~= o1.take(p).take(k1));
            assert(o2.take(k1) =~= o2.take(p).take(k1));
            assert(kahn_step(names, deps, o2.take(k1), o2[k1] as int));
            assert(!ready(names, deps, o1.take(k1), o2[k1] as int));
        } else {
            assert(tail_step(names, placed, a));
            assert(tail_step(names, placed, b));
            if a != b {
                lemma_key_lt_total(names, a, b);
            }
        }
        assert(o1.take(i) =~= o1.take(p).push(o1[p]));
        assert(o2.take(i) =~= o2.take(p).push(o2[p]));
    }
}

/// The order is determined by the accounts and their dependencies: two orders that
/// both meet the rules are the same.
pub proof fn law_account_order_unique(
    names: Seq<Seq<char>>,
    deps: Seq<Seq<Seq<char>>>,
    o1: Seq<usize>,
    o2: Seq<usize>,
)
    requires
        is_account_order(names, deps, o1),
        is_account_order(names, deps, o2),
    ensures
        o1 == o2,
{
    let k1 = lemma_phases(names, deps, o1);
    let k2 = lemma_phases(names, deps, o2);
    lemma_same_prefix(names, deps, o1, o2, k1, k2, o1.len() as int);
    assert(o1.take(o1.len() as int) =~= o1);
    assert(o2.take(o2.len() as int) =~= o2);
}


/// The names of the accounts placed by `placed`, in order.
pub open spec fn placed_names(names: Seq<Seq<char>>, placed: Seq<usize>) -> Seq<Seq<char>> {
    placed.map_values(|x: usize| names[x as int])
}

/// Two lists of accounts hold the same accounts, possibly declared in another order:
/// the same names, each given once, with the same dependencies for the same name.
pub open spec fn same_accounts(
    names1: Seq<Seq<char>>,
    deps1: Seq<Seq<Seq<char>>>,
    names2: Seq<Seq<char>>,
    deps2: Seq<Seq<Seq<char>>>,
) -> bool {
    &&& names1.len() == deps1.len()
    &&& names2.len() == deps2.len()
    &&& names1.len() == names2.len()
    &&& names1.len() <= usize::MAX
    &&& names1.no_duplicates()
    &&& names2.no_duplicates()
    &&& forall|x: Seq<char>| names1.contains(x) <==> names2.contains(x)
    &&& forall|i: int, j: int|
        0 <= i < names1.len() && 0 <= j < names2.len() && #[trigger] names1[i] == #[trigger] names2[j]
            ==> deps1[i] == deps2[j]
}

/// Two placements place the accounts of the same names, in the same order.
spec fn same_placed(n1: Seq<Seq<char>>, p1: Seq<usize>, n2: Seq<Seq<char>>, p2: Seq<usize>) -> bool {
    &&& p1.len() == p2.len()
    &&& forall|t: int| 0 <= t < p1.len() ==> #[trigger] p1[t] < n1.len() && p2[t] < n2.len()
    &&& forall|t: int| 0 <= t < p1.len() ==> n1[#[trigger] p1[t] as int] == n2[p2[t] as int]
}

proof fn lemma_last_match_found(names: Seq<Seq<char>>, name: Seq<char>, k: nat, a: int)
    requires
        0 <= a < k <= names.len(),
        names[a] == name,
    ensures
        last_match(names, name, k) >= a,
    decreases k,
{
    if names[k - 1] != name {
        lemma_last_match_found(names, name, (k - 1) as nat, a);
    }
}

/// With names given once, the account designated by a name is the one with that name.
proof fn lemma_index_of_name(names: Seq<Seq<char>>, x: Seq<char>)
    requires
        names.no_duplicates(),
    ensures
        names.contains(x) ==> 0 <= account_index(names, x) < names.len() && names[account_index(names, x)] == x,
        !names.contains(x) ==> account_index(names, x) < 0,
        forall|a: int| 0 <= a < names.len() && #[trigger] names[a] == x ==> account_index(names, x) == a,
{
    lemma_account_index_bound(names, x);
    if names.contains(x) {
        let a = choose|a: int| 0 <= a < names.len() && names[a] == x;
        lemma_last_match_found(names, x, names.len(), a);
    }
}

proof fn lemma_contains_same(
    n1: Seq<Seq<char>>,
    p1: Seq<usize>,
    n2: Seq<Seq<char>>,
    p2: Seq<usize>,
    a: int,
    b: int,
)
    requires
        same_placed(n1, p1, n2, p2),
        n1.no_duplicates(),
        n2.no_duplicates(),
        n1.len() <= usize::MAX,
        n2.len() <= usize::MAX,
        0 <= a < n1.len(),
        0 <= b < n2.len(),
        n1[a] == n2[b],
    ensures
        p1.contains(a as usize) == p2.contains(b as usize),
{
    if p1.contains(a as usize) {
        let t = choose|t: int| 0 <= t < p1.len() && p1[t] == a as usize;
        assert(n1[p1[t] as int] == n2[p2[t] as int]);
        assert(p2[t] < n2.len());
        let c = p2[t] as int;
        assert(n2[c] == n2[b]);
        assert(c == b);
    }
    if p2.contains(b as usize) {
        let t = choose|t: int| 0 <= t < p2.len() && p2[t] == b as usize;
        assert(n1[p1[t] as int] == n2[p2[t] as int]);
        assert(p1[t] < n1.len());
        let c = p1[t] as int;
        assert(n1[c] == n1[a]);
        assert(c == a);
    }
}

proof fn lemma_ready_same(
    names1: Seq<Seq<char>>,
    deps1: Seq<Seq<Seq<char>>>,
    names2: Seq<Seq<char>>,
    deps2: Seq<Seq<Seq<char>>>,
    p1: Seq<usize>,
    p2: Seq<usize>,
    a: int,
    b: int,
)
    requires
        same_accounts(names1, deps1, names2, deps2),
        same_placed(names1, p1, names2, p2),
        0 <= a < names1.len(),
        0 <= b < names2.len(),
        names1[a] == names2[b],
    ensures
        ready(names1, deps1, p1, a) == ready(names2, deps2, p2, b),
{
    assert(deps1[a] == deps2[b]);
    lemma_contains_same(names1, p1, names2, p2, a, b);
    assert forall|k: int| 0 <= k < deps1[a].len() implies {
        let d = #[trigger] deps1[a][k];
        &&& (account_index(names1, d) >= 0) == (account_index(names2, d) >= 0)
        &&& account_index(names1, d) >= 0 ==> p1.contains(account_index(names1, d) as usize) == p2.contains(
            account_index(names2, d) as usize,
        )
    } by {
        let d = deps1[a][k];
        lemma_index_of_name(names1, d);
        lemma_index_of_name(names2, d);
        if names1.contains(d) {
            lemma_contains_same(names1, p1, names2, p2, account_index(names1, d), account_index(names2, d));
        }
    }
    if ready(names1, deps1, p1, a) {
        assert forall|k: int|
            0 <= k < deps2[b].len() && account_index(names2, #[trigger] deps2[b][k]) >= 0 implies p2.contains(
            account_index(names2, deps2[b][k]) as usize,
        ) by {
            assert(deps1[a][k] == deps2[b][k]);
        }
    }
    if ready(names2, deps2, p2, b) {
        assert forall|k: int|
            0 <= k < deps1[a].len() && account_index(names1, #[trigger] deps1[a][k]) >= 0 implies p1.contains(
            account_index(names1, deps1[a][k]) as usize,
        ) by {
            assert(deps1[a][k] == deps2[b][k]);
        }
    }
}

/// With names given once, accounts are ordered by the UTF-8 bytes of their names.
proof fn lemma_key_by_name(names: Seq<Seq<char>>, i: int, j: int)
    requires
        names.no_duplicates(),
        0 <= i < names.len(),
        0 <= j < names.len(),
    ensures
        key_lt(names, i, j) == bytes_lt(encode_utf8(names[i]), encode_utf8(names[j])),
        i != j ==> bytes_lt(encode_utf8(names[i]), encode_utf8(names[j])) || bytes_lt(
            encode_utf8(names[j]),
            encode_utf8(names[i]),
        ),
{
    let (x, y) = (encode_utf8(names[i]), encode_utf8(names[j]));
    lemma_bytes_lt_total(x, y);
    lemma_bytes_lt_total(x, x);
    encode_utf8_decode_utf8(names[i]);
    encode_utf8_decode_utf8(names[j]);
    if x == y {
        assert(decode_utf8(x) == decode_utf8(y));
        assert(names[i] == names[j]);
    }
}

proof fn lemma_first_same(
    names1: Seq<Seq<char>>,
    deps1: Seq<Seq<Seq<char>>>,
    names2: Seq<Seq<char>>,
    deps2: Seq<Seq<Seq<char>>>,
    p1: Seq<usize>,
    p2: Seq<usize>,
    a: int,
    b: int,
    tail: bool,
)
    requires
        same_accounts(names1, deps1, names2, deps2),
        same_placed(names1, p1, names2, p2),
        tail ==> tail_step(names1, p1, a) && tail_step(names2, p2, b),
        !tail ==> kahn_step(names1, deps1, p1, a) && kahn_step(names2, deps2, p2, b),
    ensures
        names1[a] == names2[b],
{
    let x = names1[a];
    let y = names2[b];
    assert(names1.contains(x));
    assert(names2.contains(y));
    lemma_index_of_name(names2, x);
    lemma_index_of_name(names1, y);
    let b2 = account_index(names2, x);
    let a2 = account_index(names1, y);
    lemma_contains_same(names1, p1, names2, p2, a, b2);
    lemma_contains_same(names1, p1, names2, p2, a2, b);
    if !tail {
        lemma_ready_same(names1, deps1, names2, deps2, p1, p2, a, b2);
        lemma_ready_same(names1, deps1, names2, deps2, p1, p2, a2, b);
        assert(ready(names2, deps2, p2, b2));
        assert(ready(names1, deps1, p1, a2));
    }
    assert(!key_lt(names2, b2, b));
    assert(!key_lt(names1, a2, a));
    lemma_key_by_name(names2, b2, b);
    lemma_key_by_name(names1, a2, a);
    lemma_key_by_name(names1, a, a2);
    if a != a2 {
        assert(bytes_lt(encode_utf8(x), encode_utf8(y)) || bytes_lt(encode_utf8(y), encode_utf8(x)));
    }
}

proof fn lemma_placed_take(n1: Seq<Seq<char>>, p1: Seq<usize>, n2: Seq<Seq<char>>, p2: Seq<usize>, m: int)
    requires
        same_placed(n1, p1, n2, p2),
        0 <= m <= p1.len(),
    ensures
        same_placed(n1, p1.take(m), n2, p2.take(m)),
{
    assert forall|t: int| 0 <= t < m implies #[trigger] p1.take(m)[t] < n1.len() && p2.take(m)[t] < n2.len() by {
        assert(p1.take(m)[t] == p1[t]);
    }
    assert forall|t: int| 0 <= t < m implies n1[#[trigger] p1.take(m)[t] as int] == n2[p2.take(m)[t] as int] by {
        assert(p1.take(m)[t] == p1[t]);
    }
}

proof fn lemma_placed_alike(
    names1: Seq<Seq<char>>,
    deps1: Seq<Seq<Seq<char>>>,
    names2: Seq<Seq<char>>,
    deps2: Seq<Seq<Seq<char>>>,
    o1: Seq<usize>,
    o2: Seq<usize>,
    k1: int,
    k2: int,
    i: int,
)
    requires
        same_accounts(names1, deps1, names2, deps2),
        is_account_order(names1, deps1, o1),
        is_account_order(names2, deps2, o2),
        order_phases(names1, deps1, o1, k1),
        order_phases(names2, deps2, o2, k2),
        0 <= i <= o1.len(),
    ensures
        same_placed(names1, o1.take(i), names2, o2.take(i)),
    decreases i,
{
    lemma_order_in_range(names1, deps1, o1);
    lemma_order_in_range(names2, deps2, o2);
    if i > 0 {
        let p = i - 1;
        lemma_placed_alike(names1, deps1, names2, deps2, o1, o2, k1, k2, p);
        let (q1, q2) = (o1.take(p), o2.take(p));
        let (a, b) = (o1[p] as int, o2[p] as int);
        if p < k1 && p < k2 {
            lemma_first_same(names1, deps1, names2, deps2, q1, q2, a, b, false);
        } else if p < k1 {
            lemma_placed_take(names1, q1, names2, q2, k2);
            assert(o1.take(k2) =~= q1.take(k2));
            assert(o2.take(k2) =~= q2.take(k2));
            let c = o1[k2] as int;
            assert(kahn_step(names1, deps1, o1.take(k2), c));
            lemma_index_of_name(names2, names1[c]);
            assert(names2.contains(names1[c]));
            lemma_ready_same(
                names1,
                deps1,
                names2,
                deps2,
                o1.take(k2),
                o2.take(k2),
                c,
                account_index(names2, names1[c]),
            );
            assert(!ready(names2, deps2, o2.take(k2), account_index(names2, names1[c])));
        } else if p < k2 {
            lemma_placed_take(names1, q1, names2, q2, k1);
            assert(o1.take(k1) =~= q1.take(k1));
            assert(o2.take(k1) =~= q2.take(k1));
            let c = o2[k1] as int;
            assert(kahn_step(names2, deps2, o2.take(k1), c));
            lemma_index_of_name(names1, names2[c]);
            assert(names1.contains(names2[c]));
            lemma_ready_same(
                names1,
                deps1,
                names2,
                deps2,
                o1.take(k1),
                o2.take(k1),
                account_index(names1, names2[c]),
                c,
            );
            assert(!ready(names1, deps1, o1.take(k1), account_index(names1, names2[c])));
        } else {
            lemma_first_same(names1, deps1, names2, deps2, q1, q2, a, b, true);
        }
        assert(o1.take(i) =~= q1.push(o1[p]));
        assert(o2.take(i) =~= q2.push(o2[p]));
        assert forall|t: int| 0 <= t < i implies #[trigger] o1.take(i)[t] < names1.len() && o2.take(i)[t]
            < names2.len() by {
            assert(o1.take(i)[t] == o1[t]);
            assert(o2.take(i)[t] == o2[t]);
        }
        assert forall|t: int| 0 <= t < i implies names1[#[trigger] o1.take(i)[t] as int] == names2[o2.take(
            i,
        )[t] as int] by {
            if t < p {
                assert(o1.take(i)[t] == q1[t]);
                assert(o2.take(i)[t] == q2[t]);
            }
        }
    }
}

/// The order does not depend on the order of declaration: when two contexts hold the
/// same accounts, each name given once, declared in any two orders, sorting them
/// gives the accounts' names in the same order.
pub proof fn law_order_independent_of_declaration(
    names1: Seq<Seq<char>>,
    deps1: Seq<Seq<Seq<char>>>,
    o1: Seq<usize>,
    names2: Seq<Seq<char>>,
    deps2: Seq<Seq<Seq<char>>>,
    o2: Seq<usize>,
)
    requires
        same_accounts(names1, deps1, names2, deps2),
        is_account_order(names1, deps1, o1),
        is_account_order(names2, deps2, o2),
    ensures
        placed_names(names1, o1) == placed_names(names2, o2),
{
    let k1 = lemma_phases(names1, deps1, o1);
    let k2 = lemma_phases(names2, deps2, o2);
    lemma_placed_alike(names1, deps1, names2, deps2, o1, o2, k1, k2, o1.len() as int);
    assert(o1.take(o1.len() as int) =~= o1);
    assert(o2.take(o2.len() as int) =~= o2);
    assert(placed_names(names1, o1) =~= placed_names(names2, o2));
}

/// Sorting does not depend on the order of declaration: when `a2` holds the accounts
/// of `a1` in another order (`a2[i]` is `a1[perm[i]]` for a permutation `perm`), each
/// name given once, the accounts that `sort_accounts` gives back for the two come
/// with their names in the same order.
pub proof fn law_sorted_names_independent_of_declaration(
    a1: Seq<InstructionAccount>,
    a2: Seq<InstructionAccount>,
    perm: Seq<usize>,
    o1: Seq<usize>,
    o2: Seq<usize>,
)
    requires
        a1.len() <= usize::MAX,
        perm.len() == a1.len(),
        a2.len() == a1.len(),
        perm.no_duplicates(),
        forall|i: int| 0 <= i < perm.len() ==> #[trigger] perm[i] < a1.len() && a2[i] == a1[perm[i] as int],
        context_names(a1).no_duplicates(),
        is_account_order(context_names(a1), context_deps(a1), o1),
        is_account_order(context_names(a2), context_deps(a2), o2),
    ensures
        o1.map_values(|i: usize| a1[i as int].name@) == o2.map_values(|i: usize| a2[i as int].name@),
{
    let (n1, d1, n2, d2) = (context_names(a1), context_deps(a1), context_names(a2), context_deps(a2));
    let n = a1.len();
    lemma_all_placed(perm, n as usize);
    assert forall|i: int, j: int| 0 <= i < n2.len() && 0 <= j < n2.len() && i != j implies n2[i] != n2[j] by {
        assert(perm[i] != perm[j]);
        assert(n1[perm[i] as int] != n1[perm[j] as int]);
    }
    assert forall|x: Seq<char>| n1.contains(x) implies n2.contains(x) by {
        let k = choose|k: int| 0 <= k < n1.len() && n1[k] == x;
        assert(perm.contains(k as usize));
        let j = choose|j: int| 0 <= j < perm.len() && perm[j] == k as usize;
        assert(n2[j] == x);
    }
    assert forall|x: Seq<char>| n2.contains(x) implies n1.contains(x) by {
        let j = choose|j: int| 0 <= j < n2.len() && n2[j] == x;
        assert(n1[perm[j] as int] == x);
    }
    assert forall|i: int, j: int| 0 <= i < n1.len() && 0 <= j < n2.len() && #[trigger] n1[i] == #[trigger] n2[j]
        implies d1[i] == d2[j] by {
        assert(n1[perm[j] as int] == n2[j]);
        if i != perm[j] as int {
            assert(n1[i] != n1[perm[j] as int]);
        }
    }
    assert(same_accounts(n1, d1, n2, d2));
    law_order_independent_of_declaration(n1, d1, o1, n2, d2, o2);
    lemma_order_in_range(n1, d1, o1);
    lemma_order_in_range(n2, d2, o2);
    assert(placed_names(n1, o1) =~= o1.map_values(|i: usize| a1[i as int].name@));
    assert(placed_names(n2, o2) =~= o2.map_values(|i: usize| a2[i as int].name@));
}

proof fn lemma_in_constraints_deps(cs: Seq<Constraint>, k: int, j: int)
    requires
        0 <= k < cs.len(),
        0 <= j < constraint_deps(cs[k]).len(),
    ensures
        constraints_deps(cs).contains(constraint_deps(cs[k])[j]),
    decreases cs.len(),
{
    let x = constraint_deps(cs[k])[j];
    let pre = constraints_deps(cs.drop_last());
    if k == cs.len() - 1 {
        assert(constraints_deps(cs)[pre.len() + j] == x);
    } else {
        assert(cs.drop_last()[k] == cs[k]);
        lemma_in_constraints_deps(cs.drop_last(), k, j);
        let t = choose|t: int| 0 <= t < pre.len() && pre[t] == x;
        assert(constraints_deps(cs)[t] == x);
    }
}

proof fn lemma_in_dependencies(cs: Seq<Constraint>, k: int, j: int)
    requires
        0 <= k < cs.len(),
        0 <= j < constraint_deps(cs[k]).len(),
    ensures
        dependency_names(cs).contains(constraint_deps(cs[k])[j]),
{
    let x = constraint_deps(cs[k])[j];
    lemma_in_constraints_deps(cs, k, j);
    let t = choose|t: int| 0 <= t < constraints_deps(cs).len() && constraints_deps(cs)[t] == x;
    assert(dependency_names(cs)[t] == x);
}

/// Every account that a constraint names is a dependency of the account that has
/// the constraint: the payer, every name of the seeds, of `seeded` keys, of a bump
/// expression, of an address or an assert expression, the target of `has_one`, and
/// the mint and authority of a token or associated token constraint as listed.
pub proof fn law_named_accounts_are_dependencies(cs: Seq<Constraint>, k: int)
    requires
        0 <= k < cs.len(),
    ensures
        match cs[k] {
            Constraint::Payer(t) => dependency_names(cs).contains(t@),
            Constraint::HasOne(t) => dependency_names(cs).contains(t@),
            Constraint::Token(ConstraintToken::Mint(m)) => dependency_names(cs).contains(m@),
            Constraint::AssociatedToken(ConstraintToken::Mint(m)) => dependency_names(cs).contains(m@),
            Constraint::AssociatedToken(ConstraintToken::Authority(a)) => dependency_names(cs).contains(a@),
            Constraint::Bump(Some(ns)) => forall|j: int|
                0 <= j < ns@.len() ==> dependency_names(cs).contains(#[trigger] ns@[j]@),
            Constraint::Seeded(Some(ns)) => forall|j: int|
                0 <= j < ns@.len() ==> dependency_names(cs).contains(#[trigger] ns@[j]@),
            Constraint::Seeds(ns) => forall|j: int|
                0 <= j < ns@.len() ==> dependency_names(cs).contains(#[trigger] ns@[j]@),
            Constraint::Address(ns) => forall|j: int|
                0 <= j < ns@.len() ==> dependency_names(cs).contains(#[trigger] ns@[j]@),
            Constraint::Assert(ns) => forall|j: int|
                0 <= j < ns@.len() ==> dependency_names(cs).contains(#[trigger] ns@[j]@),
            _ => true,
        },
{
    match cs[k] {
        Constraint::Payer(_) | Constraint::HasOne(_) | Constraint::Token(ConstraintToken::Mint(_))
        | Constraint::AssociatedToken(_) => {
            if constraint_deps(cs[k]).len() > 0 {
                lemma_in_dependencies(cs, k, 0);
            }
        },
        Constraint::Bump(Some(ns)) | Constraint::Seeded(Some(ns)) | Constraint::Seeds(ns)
        | Constraint::Address(ns) | Constraint::Assert(ns) => {
            assert forall|j: int| 0 <= j < ns@.len() implies dependency_names(cs).contains(
                #[trigger] ns@[j]@,
            ) by {
                assert(constraint_deps(cs[k])[j] == ns@[j]@);
                lemma_in_dependencies(cs, k, j);
            }
        },
        _ => {},
    }
}

/// When the accounts' dependencies form no cycle, an account with a bump expression
/// that names another account of the context is placed after that account.
pub proof fn law_bump_named_account_comes_first(
    accs: Seq<InstructionAccount>,
    order: Seq<usize>,
    rank: Seq<nat>,
    a: int,
    k: int,
    ns: Vec<String>,
    j: int,
)
    requires
        accs.len() <= usize::MAX,
        is_account_order(context_names(accs), context_deps(accs), order),
        ranks_dependencies(context_names(accs), context_deps(accs), rank),
        0 <= a < accs.len(),
        0 <= k < accs[a].constraints@.len(),
        accs[a].constraints@[k] == Constraint::Bump(Some(ns)),
        0 <= j < ns@.len(),
        account_index(context_names(accs), ns@[j]@) >= 0,
    ensures
        forall|i: int|
            0 <= i < order.len() && order[i] == a ==> #[trigger] order.take(i).contains(
                account_index(context_names(accs), ns@[j]@) as usize,
            ),
{
    let names = context_names(accs);
    let deps = context_deps(accs);
    let cs = accs[a].constraints@;
    assert(constraint_deps(cs[k])[j] == ns@[j]@);
    lemma_in_dependencies(cs, k, j);
    let d = choose|d: int| 0 <= d < dependency_names(cs).len() && dependency_names(cs)[d] == ns@[j]@;
    law_dependencies_come_first(names, deps, order, rank);
    assert forall|i: int| 0 <= i < order.len() && order[i] == a implies #[trigger] order.take(i).contains(
        account_index(names, ns@[j]@) as usize,
    ) by {
        assert(deps[order[i] as int] == dependency_names(cs));
        assert(deps[order[i] as int][d] == ns@[j]@);
    }
}

/// Whether constraint `c` names the account `x`: its payer, its `has_one` target, the
/// mint of a token constraint, the mint or authority of an associated token
/// constraint, or a name used in its seeds, `seeded` keys, bump, address or assert
/// expression.
pub open spec fn names_account(c: Constraint, x: Seq<char>) -> bool {
    match c {
        Constraint::Payer(t) => t@ == x,
        Constraint::HasOne(t) => t@ == x,
        Constraint::Token(ConstraintToken::Mint(m)) => m@ == x,
        Constraint::AssociatedToken(ConstraintToken::Mint(m)) => m@ == x,
        Constraint::AssociatedToken(ConstraintToken::Authority(a)) => a@ == x,
        Constraint::Bump(Some(ns)) => exists|j: int| 0 <= j < ns@.len() && ns@[j]@ == x,
        Constraint::Seeded(Some(ns)) => exists|j: int| 0 <= j < ns@.len() && ns@[j]@ == x,
        Constraint::Seeds(ns) => exists|j: int| 0 <= j < ns@.len() && ns@[j]@ == x,
        Constraint::Address(ns) => exists|j: int| 0 <= j < ns@.len() && ns@[j]@ == x,
        Constraint::Assert(ns) => exists|j: int| 0 <= j < ns@.len() && ns@[j]@ == x,
        _ => false,
    }
}

proof fn lemma_constraint_deps_name(c: Constraint, j: int)
    requires
        0 <= j < constraint_deps(c).len(),
    ensures
        names_account(c, constraint_deps(c)[j]),
{
    match c {
        Constraint::Bump(Some(ns)) | Constraint::Seeded(Some(ns)) | Constraint::Seeds(ns)
        | Constraint::Address(ns) | Constraint::Assert(ns) => {
            assert(ns@[j]@ == constraint_deps(c)[j]);
        },
        _ => {},
    }
}

proof fn lemma_names_account_in_deps(c: Constraint, x: Seq<char>)
    requires
        names_account(c, x),
    ensures
        constraint_deps(c).contains(x),
{
    match c {
        Constraint::Bump(Some(ns)) | Constraint::Seeded(Some(ns)) | Constraint::Seeds(ns)
        | Constraint::Address(ns) | Constraint::Assert(ns) => {
            let j = choose|j: int| 0 <= j < ns@.len() && ns@[j]@ == x;
            assert(constraint_deps(c)[j] == x);
        },
        _ => {
            assert(constraint_deps(c)[0] == x);
        },
    }
}

proof fn lemma_constraints_deps_named(cs: Seq<Constraint>, x: Seq<char>)
    ensures
        constraints_deps(cs).contains(x) <==> exists|k: int| 0 <= k < cs.len() && #[trigger] names_account(cs[k], x),
    decreases cs.len(),
{
    if cs.len() > 0 {
        let pre = cs.drop_last();
        lemma_constraints_deps_named(pre, x);
        let whole = constraints_deps(cs);
        let pd = constraints_deps(pre);
        let last = constraint_deps(cs.last());
        if whole.contains(x) {
            let t = choose|t: int| 0 <= t < whole.len() && whole[t] == x;
            if t < pd.len() {
                assert(pd[t] == x);
                let k = choose|k: int| 0 <= k < pre.len() && #[trigger] names_account(pre[k], x);
                assert(pre[k] == cs[k]);
            } else {
                assert(last[t - pd.len()] == x);
                lemma_constraint_deps_name(cs.last(), t - pd.len());
                assert(names_account(cs[cs.len() - 1], x));
            }
        }
        if exists|k: int| 0 <= k < cs.len() && #[trigger] names_account(cs[k], x) {
            let k = choose|k: int| 0 <= k < cs.len() && #[trigger] names_account(cs[k], x);
            if k < cs.len() - 1 {
                assert(pre[k] == cs[k]);
                let t = choose|t: int| 0 <= t < pd.len() && pd[t] == x;
                assert(whole[t] == x);
            } else {
                lemma_names_account_in_deps(cs.last(), x);
                let t = choose|t: int| 0 <= t < last.len() && last[t] == x;
                assert(whole[pd.len() + t] == x);
            }
        }
    }
}

/// The dependencies of an account are exactly the accounts that its constraints
/// name, together with the system and token programs when it creates an associated
/// token account.
pub proof fn law_dependencies_are_the_named_accounts(cs: Seq<Constraint>, x: Seq<char>)
    ensures
        dependency_names(cs).contains(x) <==> (exists|k: int| 0 <= k < cs.len() && #[trigger] names_account(cs[k], x))
            || (has_init(cs) && has_associated_token(cs) && (x == "system_program"@ || x == "token_program"@)),
{
    lemma_constraints_deps_named(cs, x);
    let d = dependency_names(cs);
    let c = constraints_deps(cs);
    if d.contains(x) {
        let t = choose|t: int| 0 <= t < d.len() && d[t] == x;
        if t < c.len() {
            assert(c[t] == x);
        }
    }
    if c.contains(x) {
        let t = choose|t: int| 0 <= t < c.len() && c[t] == x;
        assert(d[t] == x);
    }
    if has_init(cs) && has_associated_token(cs) {
        assert(d[c.len() as int] == "system_program"@);
        assert(d[c.len() as int + 1] == "token_program"@);
    }
}

} // verus!
