//! The staged generators of the context macro: each walks the accounts of a context
//! in order and appends the steps it is responsible for.
use crate::sorter::{has_init, Constraint};
use crate::text::{decimal, decimal_string, parse_unsigned_i32, parsed_i32};
use vstd::prelude::*;
use vstd::string::StringExecFns;

verus! {

/// An account of a context, as the generators see it.
pub struct Account {
    pub name: String,
    pub constraints: Vec<Constraint>,
    /// The identifier of the account's type (inside `Option` for an optional one).
    pub ty: String,
    /// The type of the state that the account holds.
    pub inner_ty: String,
    pub is_optional: bool,
    pub is_array: bool,
    /// The length of an array of accounts, when it is a literal.
    pub array_size: Option<usize>,
    /// The const generic parameter that gives the length of an array of accounts.
    pub const_generic: Option<String>,
}

/// A context: the name of its struct and its accounts, in the order they are processed.
pub struct Context {
    pub name: String,
    pub accounts: Vec<Account>,
}

/// A step of the emitted code, naming accounts by their index in the context.
#[derive(Debug, Clone, Copy, PartialEq, Eq, Structural)]
pub enum Step {
    /// Load an account from its info; `element` is the index within an array of
    /// accounts; `optional` when the account may be absent.
    Assign { account: usize, element: Option<usize>, optional: bool },
    /// Gather the loaded elements of an array of accounts, `size` of them.
    BuildArray { account: usize, size: usize },
    /// Derive the account's PDA and check its address.
    CheckPda { account: usize },
    /// Create the account.
    Init { account: usize },
    /// Load the account if it exists, else create it.
    InitIfNeeded { account: usize, with_bump: bool },
    /// Gather the bumps that are fields into the context's bumps struct:
    /// `let bumps = <Context>Bumps { field: field_bump, .. };`.
    BuildBumps,
}

/// An item emitted beside the context.
pub enum OutsideItem {
    /// `#[derive(Debug, PartialEq)] pub struct <name> { pub <field>: u8, .. }`.
    BumpsStruct { name: String, fields: Vec<String> },
}

/// A field added to the context's struct.
pub struct NewField {
    pub name: String,
    pub ty: String,
}

/// What the generators produce: the items emitted beside the context, the steps run
/// inside the context's constructor, the fields added to the context, the variables
/// the constructor drops before it returns, and the accounts whose bump is a field of
/// the context's bumps.
pub struct GeneratorResult {
    pub outside: Vec<OutsideItem>,
    pub inside: Vec<Step>,
    pub new_fields: Vec<NewField>,
    pub drop_vars: Vec<String>,
    pub bump_fields: Vec<usize>,
}

/// What a generator other than the bumps generator leaves as it was.
pub open spec fn keeps_extras(before: GeneratorResult, after: GeneratorResult) -> bool {
    &&& after.outside == before.outside
    &&& after.new_fields == before.new_fields
    &&& after.drop_vars == before.drop_vars
    &&& after.bump_fields == before.bump_fields
}

pub open spec fn has_bump(cs: Seq<Constraint>) -> bool {
    exists|i: int| 0 <= i < cs.len() && cs[i] is Bump
}

pub open spec fn has_plain_init(cs: Seq<Constraint>) -> bool {
    exists|i: int| 0 <= i < cs.len() && cs[i] is Init
}

pub open spec fn has_init_if_needed(cs: Seq<Constraint>) -> bool {
    exists|i: int| 0 <= i < cs.len() && cs[i] is InitIfNeeded
}

/// Whether some bump constraint of the account asks for the canonical bump to be
/// found rather than giving one.
pub open spec fn finds_bump(cs: Seq<Constraint>) -> bool {
    exists|i: int| 0 <= i < cs.len() && #[trigger] cs[i] == Constraint::Bump(None)
}

/// The constraint kinds that the generators test for.
pub struct Checks {
    pub has_bump: bool,
    pub finds_bump: bool,
    pub has_init: bool,
    pub has_init_if_needed: bool,
}

impl Checks {
    /// Visits the constraints of an account.
    pub fn scan(cs: &Vec<Constraint>) -> (r: Checks)
        ensures
            r.has_bump == has_bump(cs@),
            r.finds_bump == finds_bump(cs@),
            r.has_init == has_plain_init(cs@),
            r.has_init_if_needed == has_init_if_needed(cs@),
    {
        let mut r = Checks { has_bump: false, finds_bump: false, has_init: false, has_init_if_needed: false };
        let mut i: usize = 0;
        while i < cs.len()
            invariant
                i <= cs@.len(),
                r.has_bump == exists|j: int| 0 <= j < i && cs@[j] is Bump,
                r.finds_bump == exists|j: int| 0 <= j < i && #[trigger] cs@[j] == Constraint::Bump(None),
                r.has_init == exists|j: int| 0 <= j < i && cs@[j] is Init,
                r.has_init_if_needed == exists|j: int| 0 <= j < i && cs@[j] is InitIfNeeded,
            decreases cs@.len() - i,
        {
            match &cs[i] {
                Constraint::Bump(b) => {
                    r.has_bump = true;
                    if b.is_none() {
                        r.finds_bump = true;
                    }
                },
                Constraint::Init => {
                    r.has_init = true;
                },
                Constraint::InitIfNeeded => {
                    r.has_init_if_needed = true;
                },
                _ => {},
            }
            i = i + 1;
        }
        r
    }
}

/// The steps that load one account, or the elements of an array of accounts and the
/// array; none for an account that is created, nor for an array of unknown length.
pub open spec fn assign_steps_of(index: int, a: Account) -> Seq<Step> {
    let created = has_init(a.constraints@);
    if a.is_array {
        match a.array_size {
            Some(n) => (if created {
                Seq::empty()
            } else {
                Seq::new(
                    n as nat,
                    |k: int|
                        Step::Assign {
                            account: index as usize,
                            element: Some(k as usize),
                            optional: a.is_optional,
                        },
                )
            }).push(Step::BuildArray { account: index as usize, size: n }),
            None => Seq::empty(),
        }
    } else if created {
        Seq::empty()
    } else {
        seq![Step::Assign { account: index as usize, element: None, optional: a.is_optional }]
    }
}

/// The steps that `AssignGenerator` emits for the first `n` accounts.
pub open spec fn assign_steps(accounts: Seq<Account>, n: int) -> Seq<Step>
    decreases n,
{
    if n <= 0 {
        Seq::empty()
    } else {
        assign_steps(accounts, n - 1) + assign_steps_of(n - 1, accounts[n - 1])
    }
}

/// The steps that `InitGenerator` emits for one account.
pub open spec fn init_steps_of(index: int, a: Account) -> Seq<Step> {
    let cs = a.constraints@;
    if has_init_if_needed(cs) {
        Seq::empty()
    } else {
        (if has_bump(cs) {
            seq![Step::CheckPda { account: index as usize }]
        } else {
            Seq::empty()
        }) + (if has_plain_init(cs) {
            seq![Step::Init { account: index as usize }]
        } else {
            Seq::empty()
        })
    }
}

pub open spec fn init_steps(accounts: Seq<Account>, n: int) -> Seq<Step>
    decreases n,
{
    if n <= 0 {
        Seq::empty()
    } else {
        init_steps(accounts, n - 1) + init_steps_of(n - 1, accounts[n - 1])
    }
}

/// The steps that `InitIfNeededGenerator` emits for one account.
pub open spec fn init_if_needed_steps_of(index: int, a: Account) -> Seq<Step> {
    let cs = a.constraints@;
    if has_init_if_needed(cs) {
        seq![Step::InitIfNeeded { account: index as usize, with_bump: has_bump(cs) }]
    } else {
        Seq::empty()
    }
}

pub open spec fn init_if_needed_steps(accounts: Seq<Account>, n: int) -> Seq<Step>
    decreases n,
{
    if n <= 0 {
        Seq::empty()
    } else {
        init_if_needed_steps(accounts, n - 1) + init_if_needed_steps_of(n - 1, accounts[n - 1])
    }
}

/// The steps that `BumpsGenerator` emits for one account.
pub open spec fn bump_steps_of(index: int, a: Account) -> Seq<Step> {
    if has_bump(a.constraints@) {
        seq![Step::CheckPda { account: index as usize }]
    } else {
        Seq::empty()
    }
}

pub open spec fn bump_steps(accounts: Seq<Account>, n: int) -> Seq<Step>
    decreases n,
{
    if n <= 0 {
        Seq::empty()
    } else {
        bump_steps(accounts, n - 1) + bump_steps_of(n - 1, accounts[n - 1])
    }
}

/// Whether an account's bump is a field of the context's bumps: it has a bump that
/// is found rather than given, or one of an account created only if needed.
pub open spec fn bump_is_field(a: Account) -> bool {
    let cs = a.constraints@;
    has_bump(cs) && (finds_bump(cs) || has_init_if_needed(cs))
}

/// The accounts, among the first `n`, whose bump is a field.
pub open spec fn bump_fields(accounts: Seq<Account>, n: int) -> Seq<usize>
    decreases n,
{
    if n <= 0 {
        Seq::empty()
    } else {
        bump_fields(accounts, n - 1) + if bump_is_field(accounts[n - 1]) {
            seq![(n - 1) as usize]
        } else {
            Seq::empty()
        }
    }
}

/// The name of element `i` of an array of accounts named `name`.
pub open spec fn element_name(name: Seq<char>, i: nat) -> Seq<char> {
    name + "_"@ + decimal(i)
}

/// The name of element `i` of an array of accounts named `name`.
pub fn element_ident(name: &str, i: usize) -> (r: String)
    ensures
        r@ == element_name(name@, i as nat),
{
    let digits = decimal_string(i as u64);
    name.to_owned().concat("_").concat(digits.as_str())
}

/// Emits the loading of every account that is not created here.
pub struct AssignGenerator<'a>(pub &'a Context);

impl<'a> AssignGenerator<'a> {
    pub fn new(context: &'a Context) -> (r: Self)
        ensures
            r.0 == context,
    {
        AssignGenerator(context)
    }

    pub fn append(&self, result: &mut GeneratorResult)
        ensures
            final(result).inside@ == old(result).inside@ + assign_steps(
                self.0.accounts@,
                self.0.accounts@.len() as int,
            ),
            keeps_extras(*old(result), *final(result)),
    {
        let accounts = &self.0.accounts;
        let ghost start = result.inside@;
        let mut i: usize = 0;
        while i < accounts.len()
            invariant
                i <= accounts@.len(),
                result.inside@ == start + assign_steps(accounts@, i as int),
                keeps_extras(*old(result), *result),
            decreases accounts@.len() - i,
        {
            let account = &accounts[i];
            let checks = Checks::scan(&account.constraints);
            let created = checks.has_init || checks.has_init_if_needed;
            let ghost before = result.inside@;
            if account.is_array {
                match account.array_size {
                    Some(size) => {
                        if !created {
                            let mut k: usize = 0;
                            while k < size
                                invariant
                                    k <= size,
                                    keeps_extras(*old(result), *result),
                                    result.inside@ == before + Seq::new(
                                        k as nat,
                                        |e: int|
                                            Step::Assign {
                                                account: i,
                                                element: Some(e as usize),
                                                optional: account.is_optional,
                                            },
                                    ),
                                decreases size - k,
                            {
                                result.inside.push(
                                    Step::Assign { account: i, element: Some(k), optional: account.is_optional },
                                );
                                k = k + 1;
                                assert(result.inside@ =~= before + Seq::new(
                                    k as nat,
                                    |e: int|
                                        Step::Assign {
                                            account: i,
                                            element: Some(e as usize),
                                            optional: account.is_optional,
                                        },
                                ));
                            }
                        }
                        result.inside.push(Step::BuildArray { account: i, size });
                    },
                    None => {},
                }
            } else if !created {
                result.inside.push(Step::Assign { account: i, element: None, optional: account.is_optional });
            }
            assert(result.inside@ =~= before + assign_steps_of(i as int, accounts@[i as int]));
            i = i + 1;
        }
    }
}

/// Emits the PDA checks and the creation of the accounts created with `init`.
pub struct InitGenerator<'a>(pub &'a Context);

impl<'a> InitGenerator<'a> {
    pub fn new(context: &'a Context) -> (r: Self)
        ensures
            r.0 == context,
    {
        InitGenerator(context)
    }

    pub fn append(&self, result: &mut GeneratorResult)
        ensures
            final(result).inside@ == old(result).inside@ + init_steps(
                self.0.accounts@,
                self.0.accounts@.len() as int,
            ),
            keeps_extras(*old(result), *final(result)),
    {
        let accounts = &self.0.accounts;
        let ghost start = result.inside@;
        let mut i: usize = 0;
        while i < accounts.len()
            invariant
                i <= accounts@.len(),
                result.inside@ == start + init_steps(accounts@, i as int),
                keeps_extras(*old(result), *result),
            decreases accounts@.len() - i,
        {
            let checks = Checks::scan(&accounts[i].constraints);
            let ghost before = result.inside@;
            if !checks.has_init_if_needed {
                if checks.has_bump {
                    result.inside.push(Step::CheckPda { account: i });
                }
                if checks.has_init {
                    result.inside.push(Step::Init { account: i });
                }
            }
            assert(result.inside@ =~= before + init_steps_of(i as int, accounts@[i as int]));
            i = i + 1;
        }
    }
}

/// Emits the accounts created with `init_if_needed`.
pub struct InitIfNeededGenerator<'a>(pub &'a Context);

impl<'a> InitIfNeededGenerator<'a> {
    pub fn new(context: &'a Context) -> (r: Self)
        ensures
            r.0 == context,
    {
        InitIfNeededGenerator(context)
    }

    pub fn append(&self, result: &mut GeneratorResult)
        ensures
            final(result).inside@ == old(result).inside@ + init_if_needed_steps(
                self.0.accounts@,
                self.0.accounts@.len() as int,
            ),
            keeps_extras(*old(result), *final(result)),
    {
        let accounts = &self.0.accounts;
        let ghost start = result.inside@;
        let mut i: usize = 0;
        while i < accounts.len()
            invariant
                i <= accounts@.len(),
                result.inside@ == start + init_if_needed_steps(accounts@, i as int),
                keeps_extras(*old(result), *result),
            decreases accounts@.len() - i,
        {
            let checks = Checks::scan(&accounts[i].constraints);
            let ghost before = result.inside@;
            if checks.has_init_if_needed {
                result.inside.push(Step::InitIfNeeded { account: i, with_bump: checks.has_bump });
            }
            assert(result.inside@ =~= before + init_if_needed_steps_of(i as int, accounts@[i as int]));
            i = i + 1;
        }
    }
}

/// Emits the PDA checks of the accounts with a bump, and gathers the bumps that
/// become fields of the context.
pub struct BumpsGenerator;

/// The name of the bumps struct of a context named `context`.
pub open spec fn bumps_struct_name(context: Seq<char>) -> Seq<char> {
    context + "Bumps"@
}

/// The names of the accounts at `indices`.
pub open spec fn names_at(accounts: Seq<Account>, indices: Seq<usize>) -> Seq<Seq<char>> {
    indices.map_values(|i: usize| accounts[i as int].name@)
}

/// What `BumpsGenerator` appends for `context`: the PDA check of each account with a
/// bump; and, when some bumps are fields, the bumps struct beside the context, the
/// step that fills it, and the context's `bumps` field of that type.
pub open spec fn bumps_appended(context: Context, before: GeneratorResult, after: GeneratorResult) -> bool {
    let accounts = context.accounts@;
    let fields = bump_fields(accounts, accounts.len() as int);
    let checks = before.inside@ + bump_steps(accounts, accounts.len() as int);
    let struct_name = bumps_struct_name(context.name@);
    &&& after.bump_fields@ == before.bump_fields@ + fields
    &&& after.drop_vars == before.drop_vars
    &&& if fields.len() == 0 {
        &&& after.inside@ == checks
        &&& after.outside == before.outside
        &&& after.new_fields == before.new_fields
    } else {
        &&& after.inside@ == checks.push(Step::BuildBumps)
        &&& after.outside@.len() == before.outside@.len() + 1
        &&& after.outside@.subrange(0, before.outside@.len() as int) == before.outside@
        &&& after.outside@.last() matches OutsideItem::BumpsStruct { name, fields: field_names }
            && name@ == struct_name && field_names.deep_view() == names_at(accounts, fields)
        &&& after.new_fields@.len() == before.new_fields@.len() + 1
        &&& after.new_fields@.subrange(0, before.new_fields@.len() as int) == before.new_fields@
        &&& after.new_fields@.last().name@ == "bumps"@
        &&& after.new_fields@.last().ty@ == struct_name
    }
}

impl BumpsGenerator {
    pub fn new() -> (r: Self) {
        BumpsGenerator
    }

    pub fn append(&self, context: &Context, result: &mut GeneratorResult)
        ensures
            bumps_appended(*context, *old(result), *final(result)),
    {
        let accounts = &context.accounts;
        let ghost start = result.inside@;
        let ghost start_fields = result.bump_fields@;
        let mut names: Vec<String> = Vec::new();
        let mut i: usize = 0;
        while i < accounts.len()
            invariant
                i <= accounts@.len(),
                result.inside@ == start + bump_steps(accounts@, i as int),
                result.bump_fields@ == start_fields + bump_fields(accounts@, i as int),
                names.deep_view() == names_at(accounts@, bump_fields(accounts@, i as int)),
                result.outside == old(result).outside,
                result.new_fields == old(result).new_fields,
                result.drop_vars == old(result).drop_vars,
                start == old(result).inside@,
                start_fields == old(result).bump_fields@,
            decreases accounts@.len() - i,
        {
            let checks = Checks::scan(&accounts[i].constraints);
            let ghost before = result.inside@;
            let ghost before_fields = result.bump_fields@;
            let ghost before_names = names.deep_view();
            if checks.has_bump {
                result.inside.push(Step::CheckPda { account: i });
                if checks.finds_bump || checks.has_init_if_needed {
                    result.bump_fields.push(i);
                    let name = accounts[i].name.clone();
                    names.push(name);
                    assert(names.deep_view() =~= before_names.push(accounts@[i as int].name@));
                }
            }
            let ghost added: Seq<usize> = if bump_is_field(accounts@[i as int]) {
                seq![i]
            } else {
                Seq::empty()
            };
            assert(result.inside@ =~= before + bump_steps_of(i as int, accounts@[i as int]));
            assert(result.bump_fields@ =~= before_fields + added);
            assert(names_at(accounts@, bump_fields(accounts@, i as int) + added) =~= names_at(
                accounts@,
                bump_fields(accounts@, i as int),
            ) + names_at(accounts@, added));
            assert(names.deep_view() =~= names_at(accounts@, bump_fields(accounts@, i as int + 1)));
            i = i + 1;
        }
        if names.len() > 0 {
            let struct_name = context.name.clone().concat("Bumps");
            let ghost sn = struct_name@;
            result.outside.push(OutsideItem::BumpsStruct { name: struct_name.clone(), fields: names });
            result.inside.push(Step::BuildBumps);
            result.new_fields.push(NewField { name: String::from_str("bumps"), ty: struct_name });
            assert(result.outside@.subrange(0, old(result).outside@.len() as int) =~= old(result).outside@);
            assert(result.new_fields@.subrange(0, old(result).new_fields@.len() as int)
                =~= old(result).new_fields@);
        }
    }
}

/// One of the staged generators.
pub enum ConstraintGenerators<'a> {
    Init(InitGenerator<'a>),
    Assign(AssignGenerator<'a>),
    Bumps(BumpsGenerator),
    InitIfNeeded(InitIfNeededGenerator<'a>),
}

/// The steps that a generator appends for the accounts of `context` (for the bumps
/// generator, those before the step that fills the bumps struct).
pub open spec fn generator_steps(g: ConstraintGenerators, context: Context) -> Seq<Step> {
    match g {
        ConstraintGenerators::Init(ig) => init_steps(ig.0.accounts@, ig.0.accounts@.len() as int),
        ConstraintGenerators::Assign(ag) => assign_steps(ag.0.accounts@, ag.0.accounts@.len() as int),
        ConstraintGenerators::Bumps(_) => bump_steps(context.accounts@, context.accounts@.len() as int),
        ConstraintGenerators::InitIfNeeded(ng) => init_if_needed_steps(
            ng.0.accounts@,
            ng.0.accounts@.len() as int,
        ),
    }
}

impl<'a> ConstraintGenerators<'a> {
    /// Runs the generator; the bumps generator reads the accounts of `context`, the
    /// others those they were made with.
    pub fn append(&self, context: &Context, result: &mut GeneratorResult)
        ensures
            match *self {
                ConstraintGenerators::Bumps(_) => bumps_appended(*context, *old(result), *final(result)),
                _ => final(result).inside@ == old(result).inside@ + generator_steps(*self, *context)
                    && keeps_extras(*old(result), *final(result)),
            },
    {
        match self {
            ConstraintGenerators::Init(g) => g.append(result),
            ConstraintGenerators::Assign(g) => g.append(result),
            ConstraintGenerators::Bumps(g) => g.append(context, result),
            ConstraintGenerators::InitIfNeeded(g) => g.append(result),
        }
    }
}

/// The largest number of accounts that an array of accounts may hold.
pub const MAX_ARRAY_SIZE: usize = 64;

/// The length expression of an array of accounts: an integer literal (its decimal
/// digits), a path (its segments), or anything else.
pub enum ArrayLen {
    Literal(String),
    Path(Vec<String>),
    Other,
}

/// The length of an array of accounts: a literal between 1 and `MAX_ARRAY_SIZE`, or
/// the last segment of a path, taken as a const generic parameter.
pub open spec fn array_size_of(len: ArrayLen) -> Option<(Option<usize>, Option<Seq<char>>)> {
    match len {
        ArrayLen::Literal(digits) => match parsed_i32(digits@) {
            Some(v) => if 1 <= v <= MAX_ARRAY_SIZE {
                Some((Some(v as usize), None))
            } else {
                None
            },
            None => None,
        },
        ArrayLen::Path(segments) => if segments@.len() > 0 {
            Some((None, Some(segments@.last()@)))
        } else {
            None
        },
        ArrayLen::Other => None,
    }
}

/// Reads the length of an array of accounts.
pub fn extract_array_size(len: &ArrayLen) -> (r: Option<(Option<usize>, Option<String>)>)
    requires
        len matches ArrayLen::Literal(d) ==> d@.len() == 0 || d@[0] != '+' && d@[0] != '-',
    ensures
        match array_size_of(*len) {
            Some((size, name)) => r matches Some((s, n)) && s == size && match n {
                Some(x) => name == Some(x@),
                None => name is None,
            },
            None => r is None,
        },
{
    match len {
        ArrayLen::Literal(digits) => match parse_unsigned_i32(digits.as_str()) {
            Some(v) => {
                if 1 <= v && (v as usize) <= MAX_ARRAY_SIZE {
                    Some((Some(v as usize), None))
                } else {
                    None
                }
            },
            None => None,
        },
        ArrayLen::Path(segments) => {
            if segments.len() > 0 {
                Some((None, Some(segments[segments.len() - 1].clone())))
            } else {
                None
            }
        },
        ArrayLen::Other => None,
    }
}

/// The names bound to the fixed accounts of one account: its own name, the name of
/// each element of an array of literal length, none for an array whose length is a
/// const generic parameter.
pub open spec fn fixed_names_of(a: Account) -> Seq<Seq<char>> {
    if a.is_array {
        if a.const_generic is Some {
            Seq::empty()
        } else {
            match a.array_size {
                Some(n) => Seq::new(n as nat, |i: int| element_name(a.name@, i as nat)),
                None => Seq::empty(),
            }
        }
    } else {
        seq![a.name@]
    }
}

/// The names bound to the fixed accounts of the first `n` accounts, in order.
pub open spec fn fixed_names(accounts: Seq<Account>, n: int) -> Seq<Seq<char>>
    decreases n,
{
    if n <= 0 {
        Seq::empty()
    } else {
        fixed_names(accounts, n - 1) + fixed_names_of(accounts[n - 1])
    }
}

/// The accounts, among the first `n`, that are arrays whose length is a const generic
/// parameter.
pub open spec fn generic_arrays(accounts: Seq<Account>, n: int) -> Seq<usize>
    decreases n,
{
    if n <= 0 {
        Seq::empty()
    } else {
        generic_arrays(accounts, n - 1) + if accounts[n - 1].is_array
            && accounts[n - 1].const_generic is Some {
            seq![(n - 1) as usize]
        } else {
            Seq::empty()
        }
    }
}

/// How the accounts handed to an instruction are split: the names bound to the fixed
/// accounts, in order, and the arrays sized by a const generic parameter, which take
/// their accounts from the rest in order.
pub fn account_layout(context: &Context) -> (r: (Vec<String>, Vec<usize>))
    ensures
        r.0.deep_view() == fixed_names(context.accounts@, context.accounts@.len() as int),
        r.1@ == generic_arrays(context.accounts@, context.accounts@.len() as int),
{
    let accounts = &context.accounts;
    let mut names: Vec<String> = Vec::new();
    let mut generic: Vec<usize> = Vec::new();
    let mut i: usize = 0;
    while i < accounts.len()
        invariant
            i <= accounts@.len(),
            names.deep_view() == fixed_names(accounts@, i as int),
            generic@ == generic_arrays(accounts@, i as int),
        decreases accounts@.len() - i,
    {
        let account = &accounts[i];
        let ghost before = names.deep_view();
        let ghost before_generic = generic@;
        if account.is_array {
            if account.const_generic.is_some() {
                generic.push(i);
            } else {
                match account.array_size {
                    Some(size) => {
                        let mut k: usize = 0;
                        while k < size
                            invariant
                                k <= size,
                                names.deep_view() == before + Seq::new(
                                    k as nat,
                                    |e: int| element_name(account.name@, e as nat),
                                ),
                            decreases size - k,
                        {
                            let ghost prev = names.deep_view();
                            let element = element_ident(account.name.as_str(), k);
                            let ghost ev = element@;
                            names.push(element);
                            assert(names.deep_view() =~= prev.push(ev));
                            k = k + 1;
                            assert(names.deep_view() =~= before + Seq::new(
                                k as nat,
                                |e: int| element_name(account.name@, e as nat),
                            ));
                        }
                    },
                    None => {},
                }
            }
        } else {
            let ghost prev = names.deep_view();
            names.push(account.name.clone());
            assert(names.deep_view() =~= prev.push(account.name@));
        }
        assert(names.deep_view() =~= before + fixed_names_of(accounts@[i as int]));
        assert(generic@ =~= before_generic + if accounts@[i as int].is_array
            && accounts@[i as int].const_generic is Some {
            seq![i]
        } else {
            Seq::empty()
        });
        i = i + 1;
    }
    (names, generic)
}

/// Every account that is not an array is obtained exactly once by the staged
/// generators: loaded by `AssignGenerator` when it has neither `init` nor
/// `init_if_needed`, created by `InitGenerator` when it has `init` only, and loaded
/// or created by `InitIfNeededGenerator` when it has `init_if_needed`.
pub proof fn law_each_account_obtained_once(index: int, a: Account)
    requires
        !a.is_array,
    ensures
        ({
            let assigned: int = if assign_steps_of(index, a).len() > 0 { 1 } else { 0 };
            let created: int = if init_steps_of(index, a).contains(Step::Init { account: index as usize }) {
                1
            } else {
                0
            };
            let maybe_created: int = if init_if_needed_steps_of(index, a).len() > 0 { 1 } else { 0 };
            assigned + created + maybe_created == 1
        }),
{
    let cs = a.constraints@;
    let init_step = Step::Init { account: index as usize };
    if has_init(cs) {
        let w = choose|w: int| 0 <= w < cs.len() && (cs[w] is Init || cs[w] is InitIfNeeded);
        if cs[w] is Init {
            assert(has_plain_init(cs));
        } else {
            assert(has_init_if_needed(cs));
        }
    }
    if has_plain_init(cs) || has_init_if_needed(cs) {
        if has_plain_init(cs) {
            let w = choose|w: int| 0 <= w < cs.len() && cs[w] is Init;
            assert(has_init(cs));
        } else {
            let w = choose|w: int| 0 <= w < cs.len() && cs[w] is InitIfNeeded;
            assert(has_init(cs));
        }
    }
    if !has_init_if_needed(cs) {
        let checks = if has_bump(cs) {
            seq![Step::CheckPda { account: index as usize }]
        } else {
            Seq::empty()
        };
        if has_plain_init(cs) {
            assert(init_steps_of(index, a)[checks.len() as int] == init_step);
        } else {
            assert(init_steps_of(index, a) =~= checks);
            assert(!checks.contains(init_step));
        }
    }
}

/// The last segment of a type path: its identifier and, when its first generic
/// argument is a path type, the last segment of that type.
pub struct Segment {
    pub ident: String,
    pub inner: Option<Box<Segment>>,
}

/// The type of an account field: a path (its last segment, if it has one), an array
/// (the last segment of its element type, when that is a path, and its length), or
/// anything else.
pub enum AccountFieldType {
    Path(Option<Segment>),
    Array(Option<Segment>, ArrayLen),
    Other,
}

/// A field of a context struct: its name, its type, and the type of the state it
/// holds, when one was found.
pub struct AccountField {
    pub name: Option<String>,
    pub ty: AccountFieldType,
    pub inner_ty: Option<String>,
}

/// Why a field cannot be an account.
#[derive(Debug, Clone, Copy, PartialEq, Eq, Structural)]
pub enum AccountError {
    MissingInnerType,
    InvalidType,
    InvalidOptionType,
    InvalidElementType,
    InvalidArraySize,
    NotPathOrArray,
}

/// The segment that names the account's type, and whether the account is optional:
/// `Option<T>` stands for an optional `T`.
pub open spec fn unwrap_option(seg: Segment) -> Result<(Segment, bool), AccountError> {
    if seg.ident@ == "Option"@ {
        match seg.inner {
            Some(inner) => Ok((*inner, true)),
            None => Err(AccountError::InvalidOptionType),
        }
    } else {
        Ok((seg, false))
    }
}

/// What a field makes: the segment of the account's type, whether it is optional,
/// whether it is an array, its literal length and its const generic length.
pub open spec fn field_account(f: AccountField) -> Result<
    (Segment, bool, bool, Option<usize>, Option<Seq<char>>),
    AccountError,
> {
    if f.inner_ty is None {
        Err(AccountError::MissingInnerType)
    } else {
        match f.ty {
            AccountFieldType::Path(seg) => match seg {
                None => Err(AccountError::InvalidType),
                Some(seg) => match unwrap_option(seg) {
                    Ok((s, opt)) => Ok((s, opt, false, None, None)),
                    Err(e) => Err(e),
                },
            },
            AccountFieldType::Array(elem, len) => match elem {
                None => Err(AccountError::InvalidElementType),
                Some(seg) => match array_size_of(len) {
                    None => Err(AccountError::InvalidArraySize),
                    Some((size, generic)) => match unwrap_option(seg) {
                        Ok((s, opt)) => Ok((s, opt, true, size, generic)),
                        Err(e) => Err(e),
                    },
                },
            },
            AccountFieldType::Other => Err(AccountError::NotPathOrArray),
        }
    }
}

/// The name of the account a field makes: the field's, or `random` for an unnamed one.
pub open spec fn field_name(f: AccountField) -> Seq<char> {
    match f.name {
        Some(n) => n@,
        None => "random"@,
    }
}

fn unwrap_option_segment(seg: &Segment) -> (r: Result<(&Segment, bool), AccountError>)
    ensures
        match unwrap_option(*seg) {
            Ok((s, opt)) => r matches Ok((t, o)) && *t == s && o == opt,
            Err(e) => r == Err::<(&Segment, bool), AccountError>(e),
        },
{
    if crate::text::same_str(seg.ident.as_str(), "Option") {
        match &seg.inner {
            Some(inner) => Ok((&**inner, true)),
            None => Err(AccountError::InvalidOptionType),
        }
    } else {
        Ok((seg, false))
    }
}

impl Account {
    /// The account that a field of a context struct makes, with the constraints
    /// read from its attributes.
    pub fn try_from_field(field: &AccountField, constraints: Vec<Constraint>) -> (r: Result<
        Account,
        AccountError,
    >)
        requires
            field.ty matches AccountFieldType::Array(_, ArrayLen::Literal(d)) ==> d@.len() == 0
                || d@[0] != '+' && d@[0] != '-',
        ensures
            match field_account(*field) {
                Ok((seg, opt, is_array, size, generic)) => r matches Ok(a) && {
                    &&& a.name@ == field_name(*field)
                    &&& a.constraints == constraints
                    &&& a.ty@ == seg.ident@
                    &&& a.inner_ty@ == field.inner_ty->0@
                    &&& a.is_optional == opt
                    &&& a.is_array == is_array
                    &&& a.array_size == size
                    &&& match a.const_generic {
                        Some(g) => generic == Some(g@),
                        None => generic is None,
                    }
                },
                Err(e) => r == Err::<Account, AccountError>(e),
            },
    {
        let inner_ty = match &field.inner_ty {
            Some(t) => t.clone(),
            None => {
                return Err(AccountError::MissingInnerType);
            },
        };
        let name = match &field.name {
            Some(n) => n.clone(),
            None => "random".to_owned(),
        };
        match &field.ty {
            AccountFieldType::Path(seg) => match seg {
                None => Err(AccountError::InvalidType),
                Some(seg) => match unwrap_option_segment(seg) {
                    Ok((s, opt)) => Ok(
                        Account {
                            name,
                            constraints,
                            ty: s.ident.clone(),
                            inner_ty,
                            is_optional: opt,
                            is_array: false,
                            array_size: None,
                            const_generic: None,
                        },
                    ),
                    Err(e) => Err(e),
                },
            },
            AccountFieldType::Array(elem, len) => match elem {
                None => Err(AccountError::InvalidElementType),
                Some(seg) => match extract_array_size(len) {
                    None => Err(AccountError::InvalidArraySize),
                    Some((size, generic)) => match unwrap_option_segment(seg) {
                        Ok((s, opt)) => Ok(
                            Account {
                                name,
                                constraints,
                                ty: s.ident.clone(),
                                inner_ty,
                                is_optional: opt,
                                is_array: true,
                                array_size: size,
                                const_generic: generic,
                            },
                        ),
                        Err(e) => Err(e),
                    },
                },
            },
            AccountFieldType::Other => Err(AccountError::NotPathOrArray),
        }
    }
}

} // verus!
