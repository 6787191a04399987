//! Ordering the accounts of an instruction context so that every account comes after
//! the accounts its constraints name.
//!
//! The order is the one of Kahn's algorithm that, among the accounts whose
//! dependencies are all placed, always places the one with the smallest name (the
//! smallest index among equal names). Accounts that cannot be placed that way, those
//! in or behind a dependency cycle, follow, ordered by name.
use vstd::prelude::*;
use vstd::set_lib::{lemma_int_range, lemma_len_subset, set_int_range};
use vstd::utf8::encode_utf8;

verus! {

/// An account named by a token constraint.
pub enum ConstraintToken {
    Mint(String),
    Authority(String),
}

/// A constraint on an account of an instruction context, with the account names
/// that its expressions mention.
pub enum Constraint {
    Init,
    InitIfNeeded,
    Payer(String),
    Space,
    Seeded(Option<Vec<String>>),
    Seeds(Vec<String>),
    Bump(Option<Vec<String>>),
    HasOne(String),
    Program,
    Token(ConstraintToken),
    Mint,
    AssociatedToken(ConstraintToken),
    Assert(Vec<String>),
    Address(Vec<String>),
}

/// An account of an instruction context.
pub struct InstructionAccount {
    pub name: String,
    pub constraints: Vec<Constraint>,
}

/// The accounts of an instruction context, in declaration order.
pub struct ParsingContext {
    pub accounts: Vec<InstructionAccount>,
}

/// The names that one constraint makes its account depend on, in order.
pub open spec fn constraint_deps(c: Constraint) -> Seq<Seq<char>> {
    match c {
        Constraint::Payer(target) => seq![target@],
        Constraint::Bump(Some(names)) => names.deep_view(),
        Constraint::Token(ConstraintToken::Mint(mint)) => seq![mint@],
        Constraint::AssociatedToken(ConstraintToken::Mint(name)) => seq![name@],
        Constraint::AssociatedToken(ConstraintToken::Authority(name)) => seq![name@],
        Constraint::Seeds(names) => names.deep_view(),
        Constraint::Seeded(Some(names)) => names.deep_view(),
        Constraint::HasOne(target) => seq![target@],
        Constraint::Address(names) => names.deep_view(),
        Constraint::Assert(names) => names.deep_view(),
        _ => Seq::empty(),
    }
}

/// The names that a list of constraints depends on, constraint by constraint.
pub open spec fn constraints_deps(cs: Seq<Constraint>) -> Seq<Seq<char>>
    decreases cs.len(),
{
    if cs.len() == 0 {
        Seq::empty()
    } else {
        constraints_deps(cs.drop_last()) + constraint_deps(cs.last())
    }
}

pub open spec fn has_init(cs: Seq<Constraint>) -> bool {
    exists|i: int| 0 <= i < cs.len() && (cs[i] is Init || cs[i] is InitIfNeeded)
}

pub open spec fn has_associated_token(cs: Seq<Constraint>) -> bool {
    exists|i: int| 0 <= i < cs.len() && cs[i] is AssociatedToken
}

/// The dependencies of an account: the names its constraints mention, then, for an
/// associated token account that is created, the system and token programs.
pub open spec fn dependency_names(cs: Seq<Constraint>) -> Seq<Seq<char>> {
    constraints_deps(cs) + if has_init(cs) && has_associated_token(cs) {
        seq!["system_program"@, "token_program"@]
    } else {
        Seq::empty()
    }
}

/// Collects the dependencies of one account.
pub struct DependencyLinker {
    dependencies: Vec<String>,
    has_init: bool,
    has_associated_token: bool,
}

fn push_names(out: &mut Vec<String>, names: &Vec<String>)
    ensures
        final(out).deep_view() == old(out).deep_view() + names.deep_view(),
{
    let mut i: usize = 0;
    let ghost start = out.deep_view();
    while i < names.len()
        invariant
            i <= names@.len(),
            out.deep_view() == start + names.deep_view().take(i as int),
        decreases names@.len() - i,
    {
        let ghost prev = out.deep_view();
        out.push(names[i].clone());
        assert(out.deep_view() =~= prev.push(names@[i as int]@));
        assert(names.deep_view().take(i + 1) =~= names.deep_view().take(i as int).push(
            names@[i as int]@,
        ));
        i = i + 1;
    }
    assert(names.deep_view().take(names@.len() as int) =~= names.deep_view());
}

impl DependencyLinker {
    pub closed spec fn dependencies_view(&self) -> Seq<Seq<char>> {
        self.dependencies.deep_view()
    }

    pub closed spec fn saw_init(&self) -> bool {
        self.has_init
    }

    pub closed spec fn saw_associated_token(&self) -> bool {
        self.has_associated_token
    }

    pub fn new() -> (r: Self)
        ensures
            r.dependencies_view() == Seq::<Seq<char>>::empty(),
            !r.saw_init(),
            !r.saw_associated_token(),
    {
        let r = Self { dependencies: Vec::new(), has_init: false, has_associated_token: false };
        assert(r.dependencies.deep_view() =~= Seq::<Seq<char>>::empty());
        r
    }

    pub fn add_dependency(&mut self, ident: &String)
        ensures
            final(self).dependencies_view() == old(self).dependencies_view().push(ident@),
            final(self).saw_init() == old(self).saw_init(),
            final(self).saw_associated_token() == old(self).saw_associated_token(),
    {
        let ghost prev = self.dependencies.deep_view();
        self.dependencies.push(ident.clone());
        assert(self.dependencies.deep_view() =~= prev.push(ident@));
    }

    /// Records what one constraint contributes.
    pub fn visit_constraint(&mut self, constraint: &Constraint)
        ensures
            final(self).dependencies_view() == old(self).dependencies_view() + constraint_deps(
                *constraint,
            ),
            final(self).saw_init() == (old(self).saw_init() || constraint is Init
                || constraint is InitIfNeeded),
            final(self).saw_associated_token() == (old(self).saw_associated_token()
                || constraint is AssociatedToken),
    {
        let ghost prev = self.dependencies.deep_view();
        match constraint {
            Constraint::Init => {
                self.has_init = true;
            },
            Constraint::InitIfNeeded => {
                self.has_init = true;
            },
            Constraint::Payer(target) => {
                self.add_dependency(target);
            },
            Constraint::Bump(bump) => {
                if let Some(names) = bump {
                    push_names(&mut self.dependencies, names);
                }
            },
            Constraint::Token(token) => {
                if let ConstraintToken::Mint(ident) = token {
                    self.add_dependency(ident);
                }
            },
            Constraint::AssociatedToken(token) => {
                self.has_associated_token = true;
                match token {
                    ConstraintToken::Mint(ident) => self.add_dependency(ident),
                    ConstraintToken::Authority(ident) => self.add_dependency(ident),
                }
            },
            Constraint::Seeds(names) => {
                push_names(&mut self.dependencies, names);
            },
            Constraint::Seeded(seeds) => {
                if let Some(names) = seeds {
                    push_names(&mut self.dependencies, names);
                }
            },
            Constraint::HasOne(target) => {
                self.add_dependency(target);
            },
            Constraint::Address(names) => {
                push_names(&mut self.dependencies, names);
            },
            Constraint::Assert(names) => {
                push_names(&mut self.dependencies, names);
            },
            _ => {},
        }
        proof {
            if constraint_deps(*constraint).len() == 0 {
                assert(self.dependencies.deep_view() =~= prev + constraint_deps(*constraint));
            }
        }
    }

    /// The dependencies of an account with these constraints.
    pub fn extract_dependencies(constraints: &Vec<Constraint>) -> (r: Vec<String>)
        ensures
            r.deep_view() == dependency_names(constraints@),
    {
        let mut linker = Self::new();
        let mut i: usize = 0;
        while i < constraints.len()
            invariant
                i <= constraints@.len(),
                linker.dependencies_view() == constraints_deps(constraints@.take(i as int)),
                linker.saw_init() == has_init(constraints@.take(i as int)),
                linker.saw_associated_token() == has_associated_token(
                    constraints@.take(i as int),
                ),
            decreases constraints@.len() - i,
        {
            let ghost cs = constraints@.take(i + 1);
            assert(cs.drop_last() =~= constraints@.take(i as int));
            linker.visit_constraint(&constraints[i]);
            proof {
                assert(cs.last() == constraints@[i as int]);
                if has_init(cs) && !(cs.last() is Init || cs.last() is InitIfNeeded) {
                    let w = choose|w: int| 0 <= w < cs.len() && (cs[w] is Init || cs[w] is InitIfNeeded);
                    assert(constraints@.take(i as int)[w] == cs[w]);
                }
                if has_init(constraints@.take(i as int)) {
                    let w = choose|w: int| 0 <= w < i && (constraints@.take(i as int)[w] is Init
                        || constraints@.take(i as int)[w] is InitIfNeeded);
                    assert(cs[w] == constraints@.take(i as int)[w]);
                }
                if has_associated_token(cs) && !(cs.last() is AssociatedToken) {
                    let w = choose|w: int| 0 <= w < cs.len() && cs[w] is AssociatedToken;
                    assert(constraints@.take(i as int)[w] == cs[w]);
                }
                if has_associated_token(constraints@.take(i as int)) {
                    let w = choose|w: int| 0 <= w < i && constraints@.take(i as int)[w] is AssociatedToken;
                    assert(cs[w] == constraints@.take(i as int)[w]);
                }
            }
            i = i + 1;
        }
        assert(constraints@.take(constraints@.len() as int) =~= constraints@);
        if linker.has_init && linker.has_associated_token {
            let system = "system_program".to_owned();
            let token = "token_program".to_owned();
            linker.add_dependency(&system);
            linker.add_dependency(&token);
        }
        proof {
            if !(linker.has_init && linker.has_associated_token) {
                assert(linker.dependencies.deep_view() =~= dependency_names(constraints@));
            } else {
                assert(linker.dependencies.deep_view() =~= dependency_names(constraints@));
            }
        }
        linker.dependencies
    }
}


/// Byte-lexicographic order, the order of Rust strings.
pub open spec fn bytes_lt(a: Seq<u8>, b: Seq<u8>) -> bool
    decreases a.len(),
{
    if a.len() == 0 {
        b.len() > 0
    } else if b.len() == 0 {
        false
    } else if a[0] != b[0] {
        a[0] < b[0]
    } else {
        bytes_lt(a.drop_first(), b.drop_first())
    }
}

pub proof fn lemma_bytes_lt_transitive(a: Seq<u8>, b: Seq<u8>, c: Seq<u8>)
    requires
        bytes_lt(a, b),
        bytes_lt(b, c),
    ensures
        bytes_lt(a, c),
    decreases a.len(),
{
    if a.len() > 0 && b.len() > 0 && c.len() > 0 && a[0] == b[0] && b[0] == c[0] {
        lemma_bytes_lt_transitive(a.drop_first(), b.drop_first(), c.drop_first());
    }
}

pub proof fn lemma_bytes_lt_total(a: Seq<u8>, b: Seq<u8>)
    ensures
        bytes_lt(a, b) || bytes_lt(b, a) || a == b,
        !(bytes_lt(a, b) && bytes_lt(b, a)),
    decreases a.len(),
{
    if a.len() > 0 && b.len() > 0 && a[0] == b[0] {
        lemma_bytes_lt_total(a.drop_first(), b.drop_first());
        if a.drop_first() == b.drop_first() {
            assert(a =~= seq![a[0]] + a.drop_first());
            assert(b =~= seq![b[0]] + b.drop_first());
        }
    } else if a.len() == 0 && b.len() == 0 {
        assert(a =~= b);
    }
}

/// The bytes by which account `i` is ordered: its name in UTF-8.
pub open spec fn name_key(names: Seq<Seq<char>>, i: int) -> Seq<u8> {
    encode_utf8(names[i])
}

/// Account `i` comes before account `j`: a smaller name, or an equal name and a smaller
/// index.
pub open spec fn key_lt(names: Seq<Seq<char>>, i: int, j: int) -> bool {
    bytes_lt(name_key(names, i), name_key(names, j)) || (name_key(names, i) == name_key(names, j)
        && i < j)
}

pub proof fn lemma_key_lt_transitive(names: Seq<Seq<char>>, i: int, j: int, k: int)
    requires
        key_lt(names, i, j),
        key_lt(names, j, k),
    ensures
        key_lt(names, i, k),
{
    let (a, b, c) = (name_key(names, i), name_key(names, j), name_key(names, k));
    if bytes_lt(a, b) && bytes_lt(b, c) {
        lemma_bytes_lt_transitive(a, b, c);
    }
}

/// The index of the last account named `name` among the first `k`, or -1.
pub open spec fn last_match(names: Seq<Seq<char>>, name: Seq<char>, k: nat) -> int
    decreases k,
{
    if k == 0 {
        -1
    } else if names[k - 1] == name {
        k - 1
    } else {
        last_match(names, name, (k - 1) as nat)
    }
}

/// The account that a dependency name designates: the last one with that name, or -1
/// when no account has it.
pub open spec fn account_index(names: Seq<Seq<char>>, name: Seq<char>) -> int {
    last_match(names, name, names.len())
}

/// Account `a` is not placed yet and every account it depends on is.
pub open spec fn ready(
    names: Seq<Seq<char>>,
    deps: Seq<Seq<Seq<char>>>,
    placed: Seq<usize>,
    a: int,
) -> bool {
    &&& 0 <= a < names.len()
    &&& !placed.contains(a as usize)
    &&& forall|k: int|
        0 <= k < deps[a].len() && account_index(names, #[trigger] deps[a][k]) >= 0
            ==> placed.contains(account_index(names, deps[a][k]) as usize)
}

/// `a` is the first of the ready accounts.
pub open spec fn kahn_step(
    names: Seq<Seq<char>>,
    deps: Seq<Seq<Seq<char>>>,
    placed: Seq<usize>,
    a: int,
) -> bool {
    &&& ready(names, deps, placed, a)
    &&& forall|j: int| #[trigger] ready(names, deps, placed, j) ==> !key_lt(names, j, a)
}

/// `a` is the first of the accounts not placed yet.
pub open spec fn tail_step(names: Seq<Seq<char>>, placed: Seq<usize>, a: int) -> bool {
    &&& 0 <= a < names.len()
    &&& !placed.contains(a as usize)
    &&& forall|j: int|
        0 <= j < names.len() && !placed.contains(j as usize) ==> !#[trigger] key_lt(names, j, a)
}

/// The two phases of an account order: its first `k` places go to the first ready
/// account, until none is ready; the rest to the first account not placed yet.
pub open spec fn order_phases(
    names: Seq<Seq<char>>,
    deps: Seq<Seq<Seq<char>>>,
    order: Seq<usize>,
    k: int,
) -> bool {
    &&& 0 <= k <= order.len()
    &&& forall|i: int| 0 <= i < k ==> kahn_step(names, deps, order.take(i), #[trigger] order[i] as int)
    &&& forall|j: int| !#[trigger] ready(names, deps, order.take(k), j)
    &&& forall|i: int| k <= i < order.len() ==> tail_step(names, order.take(i), #[trigger] order[i] as int)
}

/// `order` places the accounts: first while some account is ready, the first ready
/// one; once none is, the others, in name order.
pub open spec fn is_account_order(
    names: Seq<Seq<char>>,
    deps: Seq<Seq<Seq<char>>>,
    order: Seq<usize>,
) -> bool {
    &&& order.len() == names.len()
    &&& order.no_duplicates()
    &&& exists|k: int| #[trigger] order_phases(names, deps, order, k)
}

/// Whether `a` comes before `b` in byte order.
pub fn bytes_less(a: &[u8], b: &[u8]) -> (r: bool)
    ensures
        r == bytes_lt(a@, b@),
{
    let mut i: usize = 0;
    assert(a@.skip(0) =~= a@);
    assert(b@.skip(0) =~= b@);
    loop
        invariant
            i <= a@.len(),
            i <= b@.len(),
            bytes_lt(a@, b@) == bytes_lt(a@.skip(i as int), b@.skip(i as int)),
        decreases a@.len() - i,
    {
        if i == a.len() {
            return i < b.len();
        }
        if i == b.len() {
            return false;
        }
        if a[i] != b[i] {
            return a[i] < b[i];
        }
        assert(a@.skip(i as int).drop_first() =~= a@.skip(i + 1));
        assert(b@.skip(i as int).drop_first() =~= b@.skip(i + 1));
        i = i + 1;
    }
}

/// Whether account `i` comes before account `j` by name, then index.
pub fn key_less(names: &Vec<String>, i: usize, j: usize) -> (r: bool)
    requires
        i < names@.len(),
        j < names@.len(),
    ensures
        r == key_lt(names.deep_view(), i as int, j as int),
{
    let a = names[i].as_str().as_bytes();
    let b = names[j].as_str().as_bytes();
    proof {
        lemma_bytes_lt_total(a@, b@);
        assert(names.deep_view()[i as int] == names@[i as int]@);
        assert(names.deep_view()[j as int] == names@[j as int]@);
    }
    if bytes_less(a, b) {
        true
    } else if bytes_less(b, a) {
        false
    } else {
        i < j
    }
}

/// The index of the last account named `name`.
pub fn find_account(names: &Vec<String>, name: &String) -> (r: Option<usize>)
    ensures
        match r {
            Some(i) => account_index(names.deep_view(), name@) == i as int && i < names@.len(),
            None => account_index(names.deep_view(), name@) == -1,
        },
{
    let mut k: usize = names.len();
    while k > 0
        invariant
            k <= names@.len(),
            account_index(names.deep_view(), name@) == last_match(
                names.deep_view(),
                name@,
                k as nat,
            ),
        decreases k,
    {
        assert(names.deep_view()[k - 1] == names@[k - 1]@);
        if names[k - 1] == *name {
            return Some(k - 1);
        }
        k = k - 1;
    }
    None
}

/// Whether account `a` is ready, `placed` telling which accounts are placed.
fn is_ready(
    names: &Vec<String>,
    deps: &Vec<Vec<String>>,
    placed: &Vec<bool>,
    a: usize,
    Ghost(order): Ghost<Seq<usize>>,
) -> (r: bool)
    requires
        names@.len() == deps@.len(),
        placed@.len() == names@.len(),
        a < names@.len(),
        forall|j: int| 0 <= j < placed@.len() ==> placed@[j] == order.contains(j as usize),
    ensures
        r == ready(names.deep_view(), deps.deep_view(), order, a as int),
{
    let ghost nv = names.deep_view();
    let ghost dv = deps.deep_view();
    if placed[a] {
        return false;
    }
    let ds = &deps[a];
    assert(dv[a as int] == ds.deep_view());
    let mut k: usize = 0;
    while k < ds.len()
        invariant
            k <= ds@.len(),
            nv == names.deep_view(),
            dv == deps.deep_view(),
            dv[a as int] == ds.deep_view(),
            placed@.len() == names@.len(),
            forall|j: int| 0 <= j < placed@.len() ==> placed@[j] == order.contains(j as usize),
            forall|m: int|
                0 <= m < k && account_index(nv, #[trigger] dv[a as int][m]) >= 0
                    ==> order.contains(account_index(nv, dv[a as int][m]) as usize),
        decreases ds@.len() - k,
    {
        assert(dv[a as int][k as int] == ds@[k as int]@);
        match find_account(names, &ds[k]) {
            Some(d) => {
                if !placed[d] {
                    return false;
                }
            },
            None => {},
        }
        k = k + 1;
    }
    true
}

pub(crate) proof fn lemma_unplaced_exists(order: Seq<usize>, n: usize)
    requires
        order.no_duplicates(),
        forall|i: int| 0 <= i < order.len() ==> order[i] < n,
        order.len() < n,
    ensures
        exists|j: usize| j < n && !order.contains(j),
{
    if forall|j: usize| j < n ==> order.contains(j) {
        let s = order.map_values(|x: usize| x as int);
        assert(s.no_duplicates());
        s.unique_seq_to_set();
        lemma_int_range(0, n as int);
        assert forall|v: int| #[trigger] set_int_range(0, n as int).contains(v) implies s.to_set().contains(v) by {
            assert(order.contains(v as usize));
            let w = choose|w: int| 0 <= w < order.len() && order[w] == v as usize;
            assert(s[w] == v);
        }
        lemma_len_subset(set_int_range(0, n as int), s.to_set());
    }
}

pub(crate) proof fn lemma_all_placed(order: Seq<usize>, n: usize)
    requires
        order.no_duplicates(),
        forall|i: int| 0 <= i < order.len() ==> order[i] < n,
        order.len() == n,
    ensures
        forall|j: usize| j < n ==> order.contains(j),
{
    assert forall|j: usize| j < n implies order.contains(j) by {
        if !order.contains(j) {
            let s = order.map_values(|x: usize| x as int);
            assert(s.no_duplicates());
            s.unique_seq_to_set();
            lemma_int_range(0, n as int);
            let rest = set_int_range(0, n as int).remove(j as int);
            assert forall|v: int| #[trigger] s.to_set().contains(v) implies rest.contains(v) by {
                let w = choose|w: int| 0 <= w < s.len() && s[w] == v;
                assert(order[w] < n);
                assert(order[w] != j);
            }
            lemma_len_subset(s.to_set(), rest);
        }
    }
}

proof fn lemma_take_push(order: Seq<usize>, b: usize, i: int)
    requires
        0 <= i <= order.len(),
    ensures
        order.push(b).take(i) == order.take(i),
{
    assert(order.push(b).take(i) =~= order.take(i));
}

/// The order in which accounts with these names and dependencies are placed.
pub fn account_order(names: &Vec<String>, deps: &Vec<Vec<String>>) -> (r: Vec<usize>)
    requires
        names@.len() == deps@.len(),
    ensures
        is_account_order(names.deep_view(), deps.deep_view(), r@),
{
    let ghost nv = names.deep_view();
    let ghost dv = deps.deep_view();
    let n = names.len();
    let mut order: Vec<usize> = Vec::new();
    let mut placed: Vec<bool> = Vec::new();
    while placed.len() < n
        invariant
            placed@.len() <= n,
            forall|j: int| 0 <= j < placed@.len() ==> !placed@[j],
        decreases n - placed@.len(),
    {
        placed.push(false);
    }
    let mut stuck = false;
    // the accounts that are ready, smallest first
    while order.len() < n && !stuck
        invariant
            n == names@.len(),
            n == deps@.len(),
            nv == names.deep_view(),
            dv == deps.deep_view(),
            placed@.len() == n,
            order@.len() <= n,
            forall|j: int| 0 <= j < n ==> placed@[j] == order@.contains(j as usize),
            order@.no_duplicates(),
            forall|i: int| 0 <= i < order@.len() ==> order@[i] < n,
            forall|i: int|
                0 <= i < order@.len() ==> kahn_step(nv, dv, order@.take(i), #[trigger] order@[i] as int),
            stuck ==> forall|j: int| !#[trigger] ready(nv, dv, order@, j),
        decreases n - order@.len() + if stuck { 0int } else { 1int },
    {
        let mut best: Option<usize> = None;
        let mut a: usize = 0;
        while a < n
            invariant
                n == names@.len(),
                n == deps@.len(),
                nv == names.deep_view(),
                dv == deps.deep_view(),
                placed@.len() == n,
                forall|j: int| 0 <= j < n ==> placed@[j] == order@.contains(j as usize),
                a <= n,
                best is None ==> forall|j: int| 0 <= j < a ==> !#[trigger] ready(nv, dv, order@, j),
                best matches Some(b) ==> {
                    &&& b < n
                    &&& ready(nv, dv, order@, b as int)
                    &&& forall|j: int| 0 <= j < a && #[trigger] ready(nv, dv, order@, j) ==> !key_lt(nv, j, b as int)
                },
            decreases n - a,
        {
            if is_ready(names, deps, &placed, a, Ghost(order@)) {
                match best {
                    None => {
                        best = Some(a);
                    },
                    Some(b) => {
                        if key_less(names, a, b) {
                            proof {
                                assert forall|j: int| 0 <= j < a + 1 && #[trigger] ready(nv, dv, order@, j) implies !key_lt(nv, j, a as int) by {
                                    if key_lt(nv, j, a as int) {
                                        lemma_key_lt_transitive(nv, j, a as int, b as int);
                                    }
                                    lemma_bytes_lt_total(name_key(nv, j), name_key(nv, j));
                                }
                            }
                            best = Some(a);
                        }
                    },
                }
            }
            proof {
                if let Some(b) = best {
                    if b == a {
                        lemma_bytes_lt_total(name_key(nv, a as int), name_key(nv, a as int));
                    }
                }
            }
            a = a + 1;
        }
        match best {
            Some(b) => {
                let ghost prev = order@;
                let ghost prev_placed = placed@;
                order.push(b);
                placed.set(b, true);
                proof {
                    assert(order@[prev.len() as int] == b);
                    assert forall|j: int| 0 <= j < n && j != b implies placed@[j] == prev_placed[j] by {}
                    assert forall|i: int| 0 <= i < order@.len() implies kahn_step(
                        nv,
                        dv,
                        order@.take(i),
                        #[trigger] order@[i] as int,
                    ) by {
                        lemma_take_push(prev, b, i);
                        if i == prev.len() {
                            assert(prev.take(i) =~= prev);
                        }
                    }
                    assert forall|j: int| 0 <= j < n implies placed@[j] == order@.contains(j as usize) by {
                        if order@.contains(j as usize) && j != b {
                            let w = choose|w: int| 0 <= w < order@.len() && order@[w] == j as usize;
                            assert(prev[w] == j as usize);
                        }
                        if prev.contains(j as usize) {
                            let w = choose|w: int| 0 <= w < prev.len() && prev[w] == j as usize;
                            assert(order@[w] == j as usize);
                        }
                    }
                    assert(order@.no_duplicates()) by {
                        assert(!prev.contains(b));
                    }
                }
            },
            None => {
                stuck = true;
            },
        }
    }
    let ghost k = order@.len() as int;
    assert(order@.take(k) =~= order@);
    proof {
        if !stuck {
            lemma_all_placed(order@, n);
        }
    }
    // the other accounts, in name order
    while order.len() < n
        invariant
            n == names@.len(),
            n == deps@.len(),
            nv == names.deep_view(),
            dv == deps.deep_view(),
            placed@.len() == n,
            0 <= k <= order@.len() <= n,
            forall|j: int| 0 <= j < n ==> placed@[j] == order@.contains(j as usize),
            order@.no_duplicates(),
            forall|i: int| 0 <= i < order@.len() ==> order@[i] < n,
            forall|i: int| 0 <= i < k ==> kahn_step(nv, dv, order@.take(i), #[trigger] order@[i] as int),
            forall|j: int| !#[trigger] ready(nv, dv, order@.take(k), j),
            forall|i: int| k <= i < order@.len() ==> tail_step(nv, order@.take(i), #[trigger] order@[i] as int),
        decreases n - order@.len(),
    {
        proof {
            lemma_unplaced_exists(order@, n);
        }
        let mut best: Option<usize> = None;
        let mut a: usize = 0;
        while a < n
            invariant
                n == names@.len(),
                nv == names.deep_view(),
                placed@.len() == n,
                forall|j: int| 0 <= j < n ==> placed@[j] == order@.contains(j as usize),
                a <= n,
                best is None ==> forall|j: int| 0 <= j < a ==> #[trigger] placed@[j],
                best matches Some(b) ==> {
                    &&& b < n
                    &&& !order@.contains(b)
                    &&& forall|j: int| 0 <= j < a && !order@.contains(j as usize) ==> !#[trigger] key_lt(nv, j, b as int)
                },
            decreases n - a,
        {
            if !placed[a] {
                match best {
                    None => {
                        proof {
                            assert forall|j: int| 0 <= j < a + 1 && !order@.contains(j as usize) implies !#[trigger] key_lt(nv, j, a as int) by {
                                if j < a {
                                    assert(placed@[j]);
                                }
                                lemma_bytes_lt_total(name_key(nv, a as int), name_key(nv, a as int));
                            }
                        }
                        best = Some(a);
                    },
                    Some(b) => {
                        if key_less(names, a, b) {
                            proof {
                                assert forall|j: int| 0 <= j < a + 1 && !order@.contains(j as usize) implies !#[trigger] key_lt(nv, j, a as int) by {
                                    if key_lt(nv, j, a as int) {
                                        lemma_key_lt_transitive(nv, j, a as int, b as int);
                                    }
                                    lemma_bytes_lt_total(name_key(nv, j), name_key(nv, j));
                                }
                            }
                            best = Some(a);
                        }
                    },
                }
            }
            a = a + 1;
        }
        let b = match best {
            Some(b) => b,
            None => {
                proof {
                    let j = choose|j: usize| j < n && !order@.contains(j);
                    assert(placed@[j as int]);
                }
                0
            },
        };
        let ghost prev = order@;
        let ghost prev_placed = placed@;
        order.push(b);
        placed.set(b, true);
        proof {
            assert(order@[prev.len() as int] == b);
            assert forall|j: int| 0 <= j < n && j != b implies placed@[j] == prev_placed[j] by {}
            assert forall|i: int| 0 <= i < k implies kahn_step(nv, dv, order@.take(i), #[trigger] order@[i] as int) by {
                lemma_take_push(prev, b, i);
            }
            lemma_take_push(prev, b, k);
            assert forall|i: int| k <= i < order@.len() implies tail_step(nv, order@.take(i), #[trigger] order@[i] as int) by {
                lemma_take_push(prev, b, i);
                if i == prev.len() {
                    assert(prev.take(i) =~= prev);
                }
            }
            assert forall|j: int| 0 <= j < n implies placed@[j] == order@.contains(j as usize) by {
                if order@.contains(j as usize) && j != b {
                    let w = choose|w: int| 0 <= w < order@.len() && order@[w] == j as usize;
                    assert(prev[w] == j as usize);
                }
                if prev.contains(j as usize) {
                    let w = choose|w: int| 0 <= w < prev.len() && prev[w] == j as usize;
                    assert(order@[w] == j as usize);
                }
            }
        }
    }
    assert(order_phases(nv, dv, order@, k));
    assert(is_account_order(nv, dv, order@));
    order
}


/// The names of the accounts.
pub open spec fn context_names(accounts: Seq<InstructionAccount>) -> Seq<Seq<char>> {
    Seq::new(accounts.len(), |i: int| accounts[i].name@)
}

/// The dependencies of the accounts.
pub open spec fn context_deps(accounts: Seq<InstructionAccount>) -> Seq<Seq<Seq<char>>> {
    Seq::new(accounts.len(), |i: int| dependency_names(accounts[i].constraints@))
}

/// Topologically sorts the accounts so that dependencies come before their dependents.
///
/// Among the accounts whose dependencies are all placed, the one with the smallest name
/// is placed first. Accounts in dependency cycles come last, ordered by name.
pub fn sort_accounts(context: &mut ParsingContext)
    ensures
        exists|order: Seq<usize>|
            is_account_order(
                context_names(old(context).accounts@),
                context_deps(old(context).accounts@),
                order,
            ) && final(context).accounts@ == order.map_values(
                |i: usize| old(context).accounts@[i as int],
            ),
{
    let n = context.accounts.len();
    let ghost accounts = context.accounts@;
    let mut names: Vec<String> = Vec::new();
    let mut deps: Vec<Vec<String>> = Vec::new();
    let mut i: usize = 0;
    while i < n
        invariant
            n == context.accounts@.len(),
            accounts == context.accounts@,
            i <= n,
            names@.len() == i,
            deps@.len() == i,
            names.deep_view() == context_names(accounts).take(i as int),
            deps.deep_view() == context_deps(accounts).take(i as int),
        decreases n - i,
    {
        let ghost prev_names = names.deep_view();
        let ghost prev_deps = deps.deep_view();
        names.push(context.accounts[i].name.clone());
        deps.push(DependencyLinker::extract_dependencies(&context.accounts[i].constraints));
        assert(names.deep_view() =~= prev_names.push(accounts[i as int].name@));
        assert(context_names(accounts).take(i + 1) =~= context_names(accounts).take(i as int).push(
            accounts[i as int].name@,
        ));
        assert(deps.deep_view() =~= prev_deps.push(dependency_names(accounts[i as int].constraints@)));
        assert(context_deps(accounts).take(i + 1) =~= context_deps(accounts).take(i as int).push(
            dependency_names(accounts[i as int].constraints@),
        ));
        i = i + 1;
    }
    assert(context_names(accounts).take(n as int) =~= context_names(accounts));
    assert(context_deps(accounts).take(n as int) =~= context_deps(accounts));
    let order = account_order(&names, &deps);
    proof {
        lemma_all_placed(order@, n);
    }
    let mut old_accounts: Vec<InstructionAccount> = Vec::new();
    std::mem::swap(&mut old_accounts, &mut context.accounts);
    // slots[j] holds account j until it is moved to its place
    let mut slots: Vec<Option<InstructionAccount>> = Vec::new();
    while old_accounts.len() > 0
        invariant
            old_accounts@.len() <= n,
            old_accounts@ == accounts.take(old_accounts@.len() as int),
            slots@.len() == n - old_accounts@.len(),
            forall|j: int|
                old_accounts@.len() <= j < n ==> #[trigger] slots@[j - old_accounts@.len()]
                    == Some(accounts[j]),
            accounts.len() == n,
        decreases old_accounts@.len(),
    {
        let ghost m = old_accounts@.len();
        let ghost prev = slots@;
        let acc = old_accounts.pop().unwrap();
        slots.insert(0, Some(acc));
        assert(old_accounts@ =~= accounts.take(m - 1));
        assert forall|j: int| m - 1 <= j < n implies #[trigger] slots@[j - (m - 1)] == Some(accounts[j]) by {
            if j > m - 1 {
                assert(slots@[j - (m - 1)] == prev[j - m]);
            }
        }
    }
    assert(order@.take(0) =~= Seq::<usize>::empty());
    assert forall|j: int| 0 <= j < n implies #[trigger] slots@[j] == Some(accounts[j]) by {
        assert(slots@[j - old_accounts@.len()] == Some(accounts[j]));
    }
    let mut result: Vec<InstructionAccount> = Vec::new();
    let mut i: usize = 0;
    while i < n
        invariant
            order@.len() == n,
            accounts.len() == n,
            order@.no_duplicates(),
            forall|t: int| 0 <= t < n ==> order@[t] < n,
            i <= n,
            slots@.len() == n,
            forall|j: int|
                0 <= j < n ==> #[trigger] slots@[j] == if order@.take(i as int).contains(j as usize) {
                    None
                } else {
                    Some(accounts[j])
                },
            result@ == order@.take(i as int).map_values(|t: usize| accounts[t as int]),
        decreases n - i,
    {
        let idx = order[i];
        let ghost prev = slots@;
        let ghost prev_result = result@;
        slots.insert(idx, None);
        let slot = slots.remove(idx + 1);
        assert(slot == prev[idx as int]);
        assert(!order@.take(i as int).contains(idx)) by {
            let t0 = order@.take(i as int);
            if t0.contains(idx) {
                let w = choose|w: int| 0 <= w < t0.len() && t0[w] == idx;
                assert(order@[w] == order@[i as int]);
            }
        }
        match slot {
            Some(acc) => {
                result.push(acc);
            },
            None => {
                assert(false);
            },
        }
        proof {
            assert(order@.take(i + 1) =~= order@.take(i as int).push(idx));
            assert(result@ =~= order@.take(i + 1).map_values(|t: usize| accounts[t as int]));
            assert forall|j: int| 0 <= j < n implies #[trigger] slots@[j] == if order@.take(
                i + 1,
            ).contains(j as usize) {
                None
            } else {
                Some(accounts[j])
            } by {
                if j == idx {
                    assert(order@.take(i + 1)[i as int] == idx);
                } else {
                    assert(slots@[j] == prev[j]);
                    let t1 = order@.take(i + 1);
                    let t0 = order@.take(i as int);
                    if t1.contains(j as usize) {
                        let w = choose|w: int| 0 <= w < t1.len() && t1[w] == j as usize;
                        assert(t0[w] == j as usize);
                    }
                    if t0.contains(j as usize) {
                        let w = choose|w: int| 0 <= w < t0.len() && t0[w] == j as usize;
                        assert(t1[w] == j as usize);
                    }
                }
            }
        }
        i = i + 1;
    }
    assert(order@.take(n as int) =~= order@);
    context.accounts = result;
}

} // verus!
