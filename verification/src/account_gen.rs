//! What the context macro emits for one account of an instruction context: which
//! programs it needs, how its PDA is derived, how it is created, and which checks
//! run once it is loaded. The plan is made of plain steps; turning each step into
//! code is the macro's business.
use vstd::prelude::*;

verus! {

/// What the declaration of an account says about it.
pub struct AccountMeta {
    pub is_signer: bool,
    pub is_mutable: bool,
    pub is_optional: bool,
}

/// A `has_one` target of an account: the field that must hold the target's address,
/// and the error to return when it does not (the default one when `None`).
pub struct HasOneTarget {
    pub field: String,
    pub error: Option<String>,
}

/// The kind of an account, with the constraint expressions (as source text) that
/// its creation and its checks use.
pub enum AccountType {
    TokenAccount { is_ata: bool, mint: Option<String>, owner: Option<String> },
    Mint { decimals: Option<String>, authority: Option<String>, freeze_authority: Option<String> },
    Other { space: Option<String>, targets: Vec<HasOneTarget> },
}

/// How an account is created: `init` or `init_if_needed`, and who pays.
pub struct InitContext {
    pub is_init_if_needed: bool,
    pub payer: Option<String>,
}

/// The seeds of a PDA: a list of expressions, or one expression that yields them.
pub enum SeedsExpr {
    Punctuated(Vec<String>),
    Single(String),
}

/// What the constraints say of an account's PDA.
pub struct PdaContext {
    pub keys: Option<SeedsExpr>,
    pub bump: Option<String>,
    pub is_seeded: bool,
    pub program_id: Option<String>,
}

/// An `assert` or `address` constraint: the expression, and its error if one is given.
pub struct AccountCheck {
    pub expr: String,
    pub error: Option<String>,
}

/// How a PDA is derived.
#[derive(Debug, Clone, Copy, PartialEq, Eq, Structural)]
pub enum PdaMode {
    /// Derive the address and the bump; the address is bound to a name.
    DeriveAddress,
    /// Derive the bump only.
    DeriveBump,
    /// Search the bump, whether or not one is given.
    FindBump,
}

/// The derivation that is emitted: `create_program_address` with the given bump, or
/// `find_program_address`; whether the address is bound to a name; whether the seeds
/// come from the account's seeded type.
#[derive(Debug, Clone, Copy, PartialEq, Eq, Structural)]
pub enum PdaDerivation {
    Create { define_key: bool, seeded: bool },
    Find { define_key: bool, seeded: bool },
}

/// The signer seeds handed to the creating call: from the seeded type, from a list of
/// this many expressions, or from one expression.
#[derive(Debug, Clone, Copy, PartialEq, Eq, Structural)]
pub enum SignerSeeds {
    Seeded,
    Listed(usize),
    Single,
}

/// The call that creates an account.
#[derive(Debug, Clone, Copy, PartialEq, Eq, Structural)]
pub enum InitCall {
    AssociatedTokenAccount,
    TokenAccount,
    /// A mint; `default_decimals` when no decimals were given (9 are used).
    Mint { default_decimals: bool, freeze_authority: bool },
    /// Any other account; `default_space` when no space was given (the type's `SPACE`).
    Account { default_space: bool },
}

/// A check on the loaded state of an account.
#[derive(Debug, Clone, Copy, PartialEq, Eq, Structural)]
pub enum TypeCheck {
    TokenMint,
    TokenOwner,
    /// The `has_one` target at this index.
    HasOne(usize),
}

/// One step of the code emitted for an account.
#[derive(Debug, Clone, Copy, PartialEq, Eq, Structural)]
pub enum AccountStep {
    Load,
    LoadState,
    DerivePda(PdaDerivation),
    CheckPdaAddress,
    CheckType(TypeCheck),
    /// The `assert` constraint at this index.
    Assert(usize),
    SignerSeeds(SignerSeeds),
    Create(InitCall),
}

/// Why no code could be emitted for an account.
#[derive(Debug, Clone, Copy, PartialEq, Eq, Structural)]
pub enum GenError {
    NotMutableSigner,
    MissingPayer,
    MissingOwner,
    MissingMint,
    MissingAuthority,
    MissingSeeds,
    EmptySeeds,
}

/// The code emitted for an account: the steps run when it already exists, those run
/// to create it, whether its bump is handed back with it, whether it may be absent,
/// and how many `address` checks follow.
pub struct AccountPlan {
    pub returns_bump: bool,
    pub optional: bool,
    pub existing: Option<Vec<AccountStep>>,
    pub creation: Option<Vec<AccountStep>>,
    pub address_checks: usize,
}

/// Gathers what the constraints of one account say, then plans its code.
pub struct AccountGenerator {
    pub name: String,
    pub inner_ty: String,
    pub meta: AccountMeta,
    pub account_ty: AccountType,
    pub init: Option<InitContext>,
    pub pda: Option<PdaContext>,
    pub init_state: bool,
    pub asserts: Vec<AccountCheck>,
    pub address_checks: Vec<AccountCheck>,
}

/// The programs that an account's creation calls, in the order they are listed.
pub open spec fn programs_needed(g: AccountGenerator) -> Seq<Seq<char>> {
    if g.init is None {
        Seq::empty()
    } else {
        seq!["System"@] + match g.account_ty {
            AccountType::TokenAccount { is_ata, .. } => if is_ata {
                seq!["TokenProgram"@, "AtaTokenProgram"@]
            } else {
                seq!["TokenProgram"@]
            },
            AccountType::Mint { .. } => seq!["TokenProgram"@],
            AccountType::Other { .. } => Seq::empty(),
        }
    }
}

/// Whether the account signs its own creation.
pub open spec fn init_signer(g: AccountGenerator) -> bool {
    match g.account_ty {
        AccountType::TokenAccount { is_ata, .. } => is_ata || g.pda is Some || g.meta.is_signer,
        _ => g.pda is Some || g.meta.is_signer,
    }
}

/// Whether the bump is handed back with the account: it is a PDA whose bump is not
/// given, or one that is created only if needed.
pub open spec fn return_bump(g: AccountGenerator) -> bool {
    match g.pda {
        Some(pda) => pda.bump is None || (g.init matches Some(i) && i.is_init_if_needed),
        None => false,
    }
}

/// How a PDA is derived in the given mode.
pub open spec fn pda_derivation_of(ctx: PdaContext, mode: PdaMode) -> Result<PdaDerivation, GenError> {
    let define_key = mode == PdaMode::DeriveAddress;
    if mode != PdaMode::FindBump && ctx.bump is Some {
        if ctx.is_seeded {
            Ok(PdaDerivation::Create { define_key, seeded: true })
        } else if ctx.keys is None {
            Err(GenError::MissingSeeds)
        } else {
            Ok(PdaDerivation::Create { define_key, seeded: false })
        }
    } else if ctx.keys is None {
        Err(GenError::MissingSeeds)
    } else {
        Ok(PdaDerivation::Find { define_key, seeded: ctx.is_seeded })
    }
}

/// The signer seeds of a PDA that creates itself.
pub open spec fn signer_seeds_of(ctx: PdaContext) -> Result<SignerSeeds, GenError> {
    match ctx.keys {
        None => Err(GenError::EmptySeeds),
        Some(keys) => if ctx.is_seeded {
            Ok(SignerSeeds::Seeded)
        } else {
            match keys {
                SeedsExpr::Punctuated(list) => Ok(SignerSeeds::Listed(list@.len() as usize)),
                SeedsExpr::Single(_) => Ok(SignerSeeds::Single),
            }
        },
    }
}

/// The call that creates the account, or why it cannot be made.
pub open spec fn init_call_of(g: AccountGenerator, ctx: InitContext) -> Result<InitCall, GenError> {
    if !g.meta.is_mutable || !init_signer(g) {
        Err(GenError::NotMutableSigner)
    } else if ctx.payer is None {
        Err(GenError::MissingPayer)
    } else {
        match g.account_ty {
            AccountType::TokenAccount { is_ata, mint, owner } => if owner is None {
                Err(GenError::MissingOwner)
            } else if mint is None {
                Err(GenError::MissingMint)
            } else if is_ata {
                Ok(InitCall::AssociatedTokenAccount)
            } else {
                Ok(InitCall::TokenAccount)
            },
            AccountType::Mint { decimals, authority, freeze_authority } => if authority is None {
                Err(GenError::MissingAuthority)
            } else {
                Ok(
                    InitCall::Mint {
                        default_decimals: decimals is None,
                        freeze_authority: freeze_authority is Some,
                    },
                )
            },
            AccountType::Other { space, .. } => Ok(InitCall::Account { default_space: space is None }),
        }
    }
}

/// The checks on the loaded state that the account's type asks for.
pub open spec fn type_checks_of(g: AccountGenerator) -> Seq<AccountStep> {
    match g.account_ty {
        AccountType::TokenAccount { mint, owner, .. } => (if mint is Some {
            seq![AccountStep::CheckType(TypeCheck::TokenMint)]
        } else {
            Seq::empty()
        }) + (if owner is Some {
            seq![AccountStep::CheckType(TypeCheck::TokenOwner)]
        } else {
            Seq::empty()
        }),
        AccountType::Mint { .. } => Seq::empty(),
        AccountType::Other { targets, .. } => Seq::new(
            targets@.len(),
            |i: int| AccountStep::CheckType(TypeCheck::HasOne(i as usize)),
        ),
    }
}

/// One `Assert` step for each of the first `n` assertions.
pub open spec fn assert_steps(n: nat) -> Seq<AccountStep> {
    Seq::new(n, |i: int| AccountStep::Assert(i as usize))
}

/// The steps that load an account that exists and check it.
pub open spec fn existing_steps_of(g: AccountGenerator) -> Result<Seq<AccountStep>, GenError> {
    let head = seq![AccountStep::Load] + if g.init_state {
        seq![AccountStep::LoadState]
    } else {
        Seq::empty()
    };
    let tail = type_checks_of(g) + assert_steps(g.asserts@.len());
    match g.pda {
        None => Ok(head + tail),
        Some(ctx) => match pda_derivation_of(ctx, PdaMode::DeriveAddress) {
            Ok(d) => Ok(head + seq![AccountStep::DerivePda(d), AccountStep::CheckPdaAddress] + tail),
            Err(e) => Err(e),
        },
    }
}

/// The steps that create an account.
pub open spec fn creation_steps_of(g: AccountGenerator, ctx: InitContext) -> Result<
    Seq<AccountStep>,
    GenError,
> {
    match init_call_of(g, ctx) {
        Err(e) => Err(e),
        Ok(call) => match g.pda {
            None => Ok(seq![AccountStep::Create(call)]),
            Some(pda) => {
                let mode = if ctx.is_init_if_needed {
                    PdaMode::FindBump
                } else {
                    PdaMode::DeriveBump
                };
                match pda_derivation_of(pda, mode) {
                    Err(e) => Err(e),
                    Ok(d) => match signer_seeds_of(pda) {
                        Err(e) => Err(e),
                        Ok(s) => Ok(
                            seq![
                                AccountStep::DerivePda(d),
                                AccountStep::SignerSeeds(s),
                                AccountStep::Create(call),
                            ],
                        ),
                    },
                }
            },
        },
    }
}

/// The steps for an existing account and those for its creation, each present when
/// the account's constraints call for it.
pub open spec fn plan_of(g: AccountGenerator) -> Result<
    (Option<Seq<AccountStep>>, Option<Seq<AccountStep>>),
    GenError,
> {
    match g.init {
        None => match existing_steps_of(g) {
            Ok(s) => Ok((Some(s), None)),
            Err(e) => Err(e),
        },
        Some(ctx) => match creation_steps_of(g, ctx) {
            Err(e) => Err(e),
            Ok(c) => if ctx.is_init_if_needed {
                match existing_steps_of(g) {
                    Ok(s) => Ok((Some(s), Some(c))),
                    Err(e) => Err(e),
                }
            } else {
                Ok((None, Some(c)))
            },
        },
    }
}

pub open spec fn steps_view(o: Option<Vec<AccountStep>>) -> Option<Seq<AccountStep>> {
    match o {
        Some(v) => Some(v@),
        None => None,
    }
}

fn push_str(v: &mut Vec<String>, s: &str)
    ensures
        final(v).deep_view() == old(v).deep_view().push(s@),
{
    let ghost prev = v.deep_view();
    v.push(s.to_owned());
    assert(v.deep_view() =~= prev.push(s@));
}

fn pda_mode_eq(a: PdaMode, b: PdaMode) -> (r: bool)
    ensures
        r == (a == b),
{
    match (a, b) {
        (PdaMode::DeriveAddress, PdaMode::DeriveAddress) => true,
        (PdaMode::DeriveBump, PdaMode::DeriveBump) => true,
        (PdaMode::FindBump, PdaMode::FindBump) => true,
        _ => false,
    }
}

impl AccountGenerator {
    /// A generator for an account of the given kind, before any constraint is seen.
    pub fn new(name: String, inner_ty: String, meta: AccountMeta, account_ty: AccountType) -> (r:
        Self)
        ensures
            r.name == name,
            r.inner_ty == inner_ty,
            r.meta == meta,
            r.account_ty == account_ty,
            r.init is None,
            r.pda is None,
            !r.init_state,
            r.asserts@.len() == 0,
            r.address_checks@.len() == 0,
    {
        AccountGenerator {
            name,
            inner_ty,
            meta,
            account_ty,
            init: None,
            pda: None,
            init_state: false,
            asserts: Vec::new(),
            address_checks: Vec::new(),
        }
    }

    /// The programs that the account's creation needs.
    pub fn needs_programs(&self) -> (r: Vec<String>)
        ensures
            r.deep_view() == programs_needed(*self),
    {
        let mut programs: Vec<String> = Vec::new();
        if self.init.is_some() {
            push_str(&mut programs, "System");
            match &self.account_ty {
                AccountType::TokenAccount { is_ata, .. } => {
                    push_str(&mut programs, "TokenProgram");
                    if *is_ata {
                        push_str(&mut programs, "AtaTokenProgram");
                    }
                },
                AccountType::Mint { .. } => push_str(&mut programs, "TokenProgram"),
                AccountType::Other { .. } => {},
            }
        }
        proof {
            reveal_strlit("System");
            reveal_strlit("TokenProgram");
            reveal_strlit("AtaTokenProgram");
        }
        assert(programs.deep_view() =~= programs_needed(*self));
        programs
    }

    /// Whether the account signs its own creation.
    pub fn is_init_signer(&self) -> (r: bool)
        ensures
            r == init_signer(*self),
    {
        match &self.account_ty {
            AccountType::TokenAccount { is_ata: true, .. } => true,
            _ => self.pda.is_some() || self.meta.is_signer,
        }
    }

    /// Whether the bump is handed back with the account.
    pub fn needs_return_bump(&self) -> (r: bool)
        ensures
            r == return_bump(*self),
    {
        match &self.pda {
            Some(pda) => pda.bump.is_none() || match &self.init {
                Some(i) => i.is_init_if_needed,
                None => false,
            },
            None => false,
        }
    }

    /// How the PDA described by `ctx` is derived in `mode`.
    pub fn get_pda(&self, ctx: &PdaContext, mode: PdaMode) -> (r: Result<PdaDerivation, GenError>)
        ensures
            r == pda_derivation_of(*ctx, mode),
    {
        let define_key = pda_mode_eq(mode, PdaMode::DeriveAddress);
        let use_create = !pda_mode_eq(mode, PdaMode::FindBump) && ctx.bump.is_some();
        if use_create {
            if ctx.is_seeded {
                Ok(PdaDerivation::Create { define_key, seeded: true })
            } else if ctx.keys.is_none() {
                Err(GenError::MissingSeeds)
            } else {
                Ok(PdaDerivation::Create { define_key, seeded: false })
            }
        } else if ctx.keys.is_none() {
            Err(GenError::MissingSeeds)
        } else {
            Ok(PdaDerivation::Find { define_key, seeded: ctx.is_seeded })
        }
    }

    /// The signer seeds with which a PDA creates itself.
    pub fn get_signer_init(&self, ctx: &PdaContext) -> (r: Result<SignerSeeds, GenError>)
        ensures
            r == signer_seeds_of(*ctx),
    {
        match &ctx.keys {
            None => Err(GenError::EmptySeeds),
            Some(keys) => if ctx.is_seeded {
                Ok(SignerSeeds::Seeded)
            } else {
                match keys {
                    SeedsExpr::Punctuated(list) => Ok(SignerSeeds::Listed(list.len())),
                    SeedsExpr::Single(_) => Ok(SignerSeeds::Single),
                }
            },
        }
    }

    /// The call that creates the account.
    pub fn get_init_token(&self, ctx: &InitContext) -> (r: Result<InitCall, GenError>)
        ensures
            r == init_call_of(*self, *ctx),
    {
        if !self.meta.is_mutable || !self.is_init_signer() {
            return Err(GenError::NotMutableSigner);
        }
        if ctx.payer.is_none() {
            return Err(GenError::MissingPayer);
        }
        match &self.account_ty {
            AccountType::TokenAccount { is_ata, mint, owner } => {
                if owner.is_none() {
                    Err(GenError::MissingOwner)
                } else if mint.is_none() {
                    Err(GenError::MissingMint)
                } else if *is_ata {
                    Ok(InitCall::AssociatedTokenAccount)
                } else {
                    Ok(InitCall::TokenAccount)
                }
            },
            AccountType::Mint { decimals, authority, freeze_authority } => {
                if authority.is_none() {
                    Err(GenError::MissingAuthority)
                } else {
                    Ok(
                        InitCall::Mint {
                            default_decimals: decimals.is_none(),
                            freeze_authority: freeze_authority.is_some(),
                        },
                    )
                }
            },
            AccountType::Other { space, .. } => Ok(InitCall::Account { default_space: space.is_none() }),
        }
    }

    fn push_type_checks(&self, steps: &mut Vec<AccountStep>)
        ensures
            final(steps)@ == old(steps)@ + type_checks_of(*self),
    {
        let ghost start = steps@;
        match &self.account_ty {
            AccountType::TokenAccount { mint, owner, .. } => {
                if mint.is_some() {
                    steps.push(AccountStep::CheckType(TypeCheck::TokenMint));
                }
                if owner.is_some() {
                    steps.push(AccountStep::CheckType(TypeCheck::TokenOwner));
                }
                assert(steps@ =~= start + type_checks_of(*self));
            },
            AccountType::Mint { .. } => {
                assert(steps@ =~= start + type_checks_of(*self));
            },
            AccountType::Other { targets, .. } => {
                let mut i: usize = 0;
                while i < targets.len()
                    invariant
                        i <= targets@.len(),
                        steps@ == start + Seq::new(
                            i as nat,
                            |k: int| AccountStep::CheckType(TypeCheck::HasOne(k as usize)),
                        ),
                    decreases targets@.len() - i,
                {
                    steps.push(AccountStep::CheckType(TypeCheck::HasOne(i)));
                    i = i + 1;
                    assert(steps@ =~= start + Seq::new(
                        i as nat,
                        |k: int| AccountStep::CheckType(TypeCheck::HasOne(k as usize)),
                    ));
                }
                assert(steps@ =~= start + type_checks_of(*self));
            },
        }
    }

    /// The steps that load the account when it exists, and check it.
    pub fn account_token(&self) -> (r: Result<Vec<AccountStep>, GenError>)
        ensures
            match r {
                Ok(steps) => existing_steps_of(*self) == Ok::<Seq<AccountStep>, GenError>(steps@),
                Err(e) => existing_steps_of(*self) == Err::<Seq<AccountStep>, GenError>(e),
            },
    {
        let mut steps: Vec<AccountStep> = Vec::new();
        steps.push(AccountStep::Load);
        if self.init_state {
            steps.push(AccountStep::LoadState);
        }
        let ghost head = steps@;
        let ghost mut pda_part: Seq<AccountStep> = Seq::empty();
        match &self.pda {
            Some(ctx) => {
                match self.get_pda(ctx, PdaMode::DeriveAddress) {
                    Ok(d) => {
                        steps.push(AccountStep::DerivePda(d));
                        steps.push(AccountStep::CheckPdaAddress);
                        proof {
                            pda_part = seq![AccountStep::DerivePda(d), AccountStep::CheckPdaAddress];
                            assert(pda_derivation_of(*ctx, PdaMode::DeriveAddress) == Ok::<
                                PdaDerivation,
                                GenError,
                            >(d));
                        }
                    },
                    Err(e) => {
                        return Err(e);
                    },
                }
            },
            None => {},
        }
        let ghost mid = steps@;
        self.push_type_checks(&mut steps);
        let ghost with_checks = steps@;
        let mut i: usize = 0;
        while i < self.asserts.len()
            invariant
                i <= self.asserts@.len(),
                steps@ == with_checks + assert_steps(i as nat),
            decreases self.asserts@.len() - i,
        {
            steps.push(AccountStep::Assert(i));
            i = i + 1;
            assert(steps@ =~= with_checks + assert_steps(i as nat));
        }
        proof {
            let tail = type_checks_of(*self) + assert_steps(self.asserts@.len());
            assert(steps@ =~= mid + tail);
            assert(head =~= seq![AccountStep::Load] + if self.init_state {
                seq![AccountStep::LoadState]
            } else {
                Seq::empty()
            });
            assert(mid =~= head + pda_part);
            assert(steps@ =~= head + pda_part + tail);
        }
        Ok(steps)
    }

    /// The steps that create the account.
    pub fn generate_init(&self, ctx: &InitContext) -> (r: Result<Vec<AccountStep>, GenError>)
        ensures
            match r {
                Ok(steps) => creation_steps_of(*self, *ctx) == Ok::<Seq<AccountStep>, GenError>(
                    steps@,
                ),
                Err(e) => creation_steps_of(*self, *ctx) == Err::<Seq<AccountStep>, GenError>(e),
            },
    {
        let call = match self.get_init_token(ctx) {
            Ok(c) => c,
            Err(e) => {
                return Err(e);
            },
        };
        let mut steps: Vec<AccountStep> = Vec::new();
        match &self.pda {
            None => {
                steps.push(AccountStep::Create(call));
                assert(steps@ =~= seq![AccountStep::Create(call)]);
            },
            Some(pda) => {
                let mode = if ctx.is_init_if_needed {
                    PdaMode::FindBump
                } else {
                    PdaMode::DeriveBump
                };
                let d = match self.get_pda(pda, mode) {
                    Ok(d) => d,
                    Err(e) => {
                        return Err(e);
                    },
                };
                let s = match self.get_signer_init(pda) {
                    Ok(s) => s,
                    Err(e) => {
                        return Err(e);
                    },
                };
                steps.push(AccountStep::DerivePda(d));
                steps.push(AccountStep::SignerSeeds(s));
                steps.push(AccountStep::Create(call));
                assert(steps@ =~= seq![
                    AccountStep::DerivePda(d),
                    AccountStep::SignerSeeds(s),
                    AccountStep::Create(call),
                ]);
            },
        }
        Ok(steps)
    }

    /// Plans the code for the account.
    pub fn generate(self) -> (r: Result<AccountPlan, GenError>)
        ensures
            match r {
                Ok(plan) => {
                    &&& plan_of(self) == Ok::<
                        (Option<Seq<AccountStep>>, Option<Seq<AccountStep>>),
                        GenError,
                    >((steps_view(plan.existing), steps_view(plan.creation)))
                    &&& plan.returns_bump == return_bump(self)
                    &&& plan.optional == self.meta.is_optional
                    &&& plan.address_checks == self.address_checks@.len()
                },
                Err(e) => plan_of(self) == Err::<
                    (Option<Seq<AccountStep>>, Option<Seq<AccountStep>>),
                    GenError,
                >(e),
            },
    {
        let returns_bump = self.needs_return_bump();
        let (existing, creation) = match &self.init {
            Some(init_ctx) => {
                let creation = match self.generate_init(init_ctx) {
                    Ok(c) => c,
                    Err(e) => {
                        return Err(e);
                    },
                };
                if init_ctx.is_init_if_needed {
                    match self.account_token() {
                        Ok(s) => (Some(s), Some(creation)),
                        Err(e) => {
                            return Err(e);
                        },
                    }
                } else {
                    (None, Some(creation))
                }
            },
            None => match self.account_token() {
                Ok(s) => (Some(s), None),
                Err(e) => {
                    return Err(e);
                },
            },
        };
        Ok(
            AccountPlan {
                returns_bump,
                optional: self.meta.is_optional,
                existing,
                creation,
                address_checks: self.address_checks.len(),
            },
        )
    }
}

/// Creating a token account whose mint and owner are given: for a mutable account
/// that can sign its creation and has a payer, the call creates an associated token
/// account exactly when the account is one, and a plain token account otherwise.
pub proof fn law_token_account_creation_call(g: AccountGenerator, ctx: InitContext)
    requires
        g.meta.is_mutable,
        ctx.payer is Some,
        g.account_ty matches AccountType::TokenAccount { is_ata, mint, owner } && mint is Some && owner is Some
            && (is_ata || g.pda is Some || g.meta.is_signer),
    ensures
        init_call_of(g, ctx) matches Ok(call) && (call == InitCall::AssociatedTokenAccount <==> g.account_ty->is_ata)
            && (call == InitCall::TokenAccount <==> !g.account_ty->is_ata),
{
}

/// Whether an account can sign its own creation: an associated token account always
/// can (its program signs), any other account when it is a PDA or a signer.
pub open spec fn can_sign_creation(g: AccountGenerator) -> bool {
    (g.account_ty matches AccountType::TokenAccount { is_ata, .. } && is_ata) || g.pda is Some
        || g.meta.is_signer
}

/// What creating an account calls, or why it cannot: an account that is not mutable or
/// cannot sign its creation is refused first, then one without a payer; a token
/// account needs an owner, then a mint; a mint needs an authority and takes the
/// default decimals when none are given; any other account takes its type's space
/// when none is given.
pub proof fn law_creation_call_outcomes(g: AccountGenerator, ctx: InitContext)
    ensures
        !(g.meta.is_mutable && can_sign_creation(g)) ==> init_call_of(g, ctx) == Err::<InitCall, GenError>(
            GenError::NotMutableSigner,
        ),
        g.meta.is_mutable && can_sign_creation(g) && ctx.payer is None ==> init_call_of(g, ctx) == Err::<
            InitCall,
            GenError,
        >(GenError::MissingPayer),
        g.meta.is_mutable && can_sign_creation(g) && ctx.payer is Some ==> match g.account_ty {
            AccountType::TokenAccount { is_ata, mint, owner } => init_call_of(g, ctx) == if owner is None {
                Err(GenError::MissingOwner)
            } else if mint is None {
                Err(GenError::MissingMint)
            } else if is_ata {
                Ok(InitCall::AssociatedTokenAccount)
            } else {
                Ok(InitCall::TokenAccount)
            },
            AccountType::Mint { decimals, authority, freeze_authority } => init_call_of(g, ctx) == if authority is None {
                Err(GenError::MissingAuthority)
            } else {
                Ok(InitCall::Mint { default_decimals: decimals is None, freeze_authority: freeze_authority is Some })
            },
            AccountType::Other { space, .. } => init_call_of(g, ctx) == Ok::<InitCall, GenError>(
                InitCall::Account { default_space: space is None },
            ),
        },
{
}

} // verus!
