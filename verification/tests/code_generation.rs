use typhoon::account_gen::{
    AccountCheck, AccountGenerator, AccountMeta, AccountStep, AccountType, GenError, HasOneTarget,
    InitCall, InitContext, PdaContext, PdaDerivation, PdaMode, SeedsExpr, SignerSeeds, TypeCheck,
};
use typhoon::generators::{
    account_layout, element_ident, extract_array_size, Account, AccountError, AccountField,
    AccountFieldType, ArrayLen, AssignGenerator, Segment,
    BumpsGenerator, Checks, ConstraintGenerators, Context, GeneratorResult, InitGenerator,
    InitIfNeededGenerator, NewField, OutsideItem, Step,
};
use typhoon::account::AccountInfo;
use typhoon::entrypoint::{split_accounts, SplitError};
use typhoon::remover::{Attribute, AttributeRemover};
use typhoon::sorter::Constraint;

fn meta(is_signer: bool, is_mutable: bool, is_optional: bool) -> AccountMeta {
    AccountMeta { is_signer, is_mutable, is_optional }
}

fn other() -> AccountType {
    AccountType::Other { space: None, targets: vec![] }
}

fn gen(account_ty: AccountType) -> AccountGenerator {
    AccountGenerator::new("counter".to_string(), "Counter".to_string(), meta(false, true, false), account_ty)
}

fn seeds(list: &[&str]) -> Option<SeedsExpr> {
    Some(SeedsExpr::Punctuated(list.iter().map(|s| s.to_string()).collect()))
}

#[test]
fn programs_needed_by_creation() {
    let g = gen(other());
    assert!(g.needs_programs().is_empty());
    let mut g = gen(AccountType::TokenAccount { is_ata: true, mint: None, owner: None });
    g.init = Some(InitContext { is_init_if_needed: false, payer: Some("payer".to_string()) });
    assert_eq!(g.needs_programs(), vec!["System", "TokenProgram", "AtaTokenProgram"]);
    let mut g = gen(AccountType::Mint { decimals: None, authority: None, freeze_authority: None });
    g.init = Some(InitContext { is_init_if_needed: true, payer: None });
    assert_eq!(g.needs_programs(), vec!["System", "TokenProgram"]);
    let mut g = gen(other());
    g.init = Some(InitContext { is_init_if_needed: false, payer: None });
    assert_eq!(g.needs_programs(), vec!["System"]);
}

#[test]
fn init_signer_and_return_bump() {
    let g = gen(AccountType::TokenAccount { is_ata: true, mint: None, owner: None });
    assert!(g.is_init_signer());
    let mut g = gen(other());
    assert!(!g.is_init_signer());
    assert!(!g.needs_return_bump());
    g.pda = Some(PdaContext { keys: seeds(&["b\"seed\""]), bump: None, is_seeded: false, program_id: None });
    assert!(g.is_init_signer());
    assert!(g.needs_return_bump());
    g.pda = Some(PdaContext {
        keys: seeds(&["b\"seed\""]),
        bump: Some("args.bump".to_string()),
        is_seeded: false,
        program_id: None,
    });
    assert!(!g.needs_return_bump());
    g.init = Some(InitContext { is_init_if_needed: true, payer: None });
    assert!(g.needs_return_bump());
}

#[test]
fn pda_derivation_modes() {
    let g = gen(other());
    let given = PdaContext { keys: seeds(&["a"]), bump: Some("b".to_string()), is_seeded: false, program_id: None };
    assert_eq!(g.get_pda(&given, PdaMode::DeriveAddress), Ok(PdaDerivation::Create { define_key: true, seeded: false }));
    assert_eq!(g.get_pda(&given, PdaMode::DeriveBump), Ok(PdaDerivation::Create { define_key: false, seeded: false }));
    assert_eq!(g.get_pda(&given, PdaMode::FindBump), Ok(PdaDerivation::Find { define_key: false, seeded: false }));
    let seeded = PdaContext { keys: None, bump: Some("b".to_string()), is_seeded: true, program_id: None };
    assert_eq!(g.get_pda(&seeded, PdaMode::DeriveAddress), Ok(PdaDerivation::Create { define_key: true, seeded: true }));
    assert_eq!(g.get_pda(&seeded, PdaMode::FindBump), Err(GenError::MissingSeeds));
    let unseeded = PdaContext { keys: None, bump: None, is_seeded: false, program_id: None };
    assert_eq!(g.get_pda(&unseeded, PdaMode::DeriveBump), Err(GenError::MissingSeeds));
    assert_eq!(g.get_signer_init(&unseeded), Err(GenError::EmptySeeds));
    assert_eq!(g.get_signer_init(&given), Ok(SignerSeeds::Listed(1)));
    let single = PdaContext { keys: Some(SeedsExpr::Single("seeds()".to_string())), bump: None, is_seeded: false, program_id: None };
    assert_eq!(g.get_signer_init(&single), Ok(SignerSeeds::Single));
    assert_eq!(g.get_signer_init(&seeded), Err(GenError::EmptySeeds));
    let seeded_keys = PdaContext { keys: seeds(&["k"]), bump: None, is_seeded: true, program_id: None };
    assert_eq!(g.get_signer_init(&seeded_keys), Ok(SignerSeeds::Seeded));
}

#[test]
fn init_call_errors_in_order() {
    let payer = InitContext { is_init_if_needed: false, payer: Some("payer".to_string()) };
    let no_payer = InitContext { is_init_if_needed: false, payer: None };
    let mut g = gen(other());
    assert_eq!(g.get_init_token(&payer), Err(GenError::NotMutableSigner));
    g.meta.is_signer = true;
    assert_eq!(g.get_init_token(&no_payer), Err(GenError::MissingPayer));
    assert_eq!(g.get_init_token(&payer), Ok(InitCall::Account { default_space: true }));

    let mut t = gen(AccountType::TokenAccount { is_ata: false, mint: Some("mint".to_string()), owner: None });
    t.meta.is_signer = true;
    assert_eq!(t.get_init_token(&payer), Err(GenError::MissingOwner));
    t.account_ty = AccountType::TokenAccount { is_ata: false, mint: None, owner: Some("o".to_string()) };
    assert_eq!(t.get_init_token(&payer), Err(GenError::MissingMint));
    t.account_ty = AccountType::TokenAccount { is_ata: false, mint: Some("m".to_string()), owner: Some("o".to_string()) };
    assert_eq!(t.get_init_token(&payer), Ok(InitCall::TokenAccount));

    let mut m = gen(AccountType::Mint { decimals: Some("6".to_string()), authority: None, freeze_authority: None });
    m.meta.is_signer = true;
    assert_eq!(m.get_init_token(&payer), Err(GenError::MissingAuthority));
    m.account_ty = AccountType::Mint { decimals: None, authority: Some("a".to_string()), freeze_authority: Some("f".to_string()) };
    assert_eq!(m.get_init_token(&payer), Ok(InitCall::Mint { default_decimals: true, freeze_authority: true }));
}

#[test]
fn plan_of_a_checked_account() {
    let mut g = gen(AccountType::Other {
        space: None,
        targets: vec![
            HasOneTarget { field: "authority".to_string(), error: None },
            HasOneTarget { field: "mint".to_string(), error: Some("MyError".to_string()) },
        ],
    });
    g.init_state = true;
    g.asserts.push(AccountCheck { expr: "x > 0".to_string(), error: None });
    g.address_checks.push(AccountCheck { expr: "ADDR".to_string(), error: None });
    g.pda = Some(PdaContext { keys: seeds(&["b\"c\""]), bump: None, is_seeded: false, program_id: None });
    let plan = g.generate().unwrap();
    assert!(plan.returns_bump);
    assert!(!plan.optional);
    assert_eq!(plan.address_checks, 1);
    assert!(plan.creation.is_none());
    assert_eq!(
        plan.existing.unwrap(),
        vec![
            AccountStep::Load,
            AccountStep::LoadState,
            AccountStep::DerivePda(PdaDerivation::Find { define_key: true, seeded: false }),
            AccountStep::CheckPdaAddress,
            AccountStep::CheckType(TypeCheck::HasOne(0)),
            AccountStep::CheckType(TypeCheck::HasOne(1)),
            AccountStep::Assert(0),
        ]
    );
}

#[test]
fn plan_of_an_account_created_if_needed() {
    let mut g = gen(AccountType::TokenAccount { is_ata: false, mint: Some("m".to_string()), owner: Some("o".to_string()) });
    g.init = Some(InitContext { is_init_if_needed: true, payer: Some("payer".to_string()) });
    g.pda = Some(PdaContext { keys: seeds(&["a", "b"]), bump: Some("bump".to_string()), is_seeded: false, program_id: None });
    let plan = g.generate().unwrap();
    assert!(plan.returns_bump);
    assert_eq!(
        plan.creation.unwrap(),
        vec![
            AccountStep::DerivePda(PdaDerivation::Find { define_key: false, seeded: false }),
            AccountStep::SignerSeeds(SignerSeeds::Listed(2)),
            AccountStep::Create(InitCall::TokenAccount),
        ]
    );
    assert_eq!(
        plan.existing.unwrap(),
        vec![
            AccountStep::Load,
            AccountStep::DerivePda(PdaDerivation::Create { define_key: true, seeded: false }),
            AccountStep::CheckPdaAddress,
            AccountStep::CheckType(TypeCheck::TokenMint),
            AccountStep::CheckType(TypeCheck::TokenOwner),
        ]
    );
}

#[test]
fn plan_refused_without_payer() {
    let mut g = gen(other());
    g.meta = meta(true, true, true);
    g.init = Some(InitContext { is_init_if_needed: false, payer: None });
    assert_eq!(g.generate().err(), Some(GenError::MissingPayer));
}

fn ctx_account(name: &str, constraints: Vec<Constraint>, is_optional: bool, array_size: Option<usize>, is_array: bool) -> Account {
    Account {
        name: name.to_string(),
        constraints,
        ty: "Account".to_string(),
        inner_ty: "State".to_string(),
        is_optional,
        is_array,
        array_size,
        const_generic: None,
    }
}

fn sample_context() -> Context {
    Context {
        name: "Ctx".to_string(),
        accounts: vec![
            ctx_account("payer", vec![], false, None, false),
            ctx_account("vault", vec![Constraint::Init, Constraint::Bump(None)], false, None, false),
            ctx_account("maybe", vec![Constraint::InitIfNeeded, Constraint::Bump(Some(vec![]))], true, None, false),
            ctx_account("many", vec![], true, Some(2), true),
            ctx_account("generic", vec![], false, None, true),
            ctx_account("pda", vec![Constraint::Bump(Some(vec!["payer".to_string()]))], false, None, false),
        ],
    }
}

fn empty_result() -> GeneratorResult {
    GeneratorResult { outside: vec![], inside: vec![], new_fields: vec![], drop_vars: vec![], bump_fields: vec![] }
}

#[test]
fn assign_generator_loads_existing_accounts() {
    let ctx = sample_context();
    let mut result = empty_result();
    AssignGenerator::new(&ctx).append(&mut result);
    assert_eq!(
        result.inside,
        vec![
            Step::Assign { account: 0, element: None, optional: false },
            Step::Assign { account: 3, element: Some(0), optional: true },
            Step::Assign { account: 3, element: Some(1), optional: true },
            Step::BuildArray { account: 3, size: 2 },
            Step::Assign { account: 5, element: None, optional: false },
        ]
    );
    assert_eq!(element_ident("many", 1), "many_1");
    assert_eq!(element_ident("x", 12), "x_12");
}

#[test]
fn init_generators() {
    let ctx = sample_context();
    let mut result = empty_result();
    InitGenerator::new(&ctx).append(&mut result);
    assert_eq!(
        result.inside,
        vec![Step::CheckPda { account: 1 }, Step::Init { account: 1 }, Step::CheckPda { account: 5 }]
    );
    let mut result = empty_result();
    InitIfNeededGenerator::new(&ctx).append(&mut result);
    assert_eq!(result.inside, vec![Step::InitIfNeeded { account: 2, with_bump: true }]);
}

#[test]
fn bumps_generator_fields() {
    let ctx = sample_context();
    let mut result = empty_result();
    let generators = [
        ConstraintGenerators::Bumps(BumpsGenerator::new()),
        ConstraintGenerators::Assign(AssignGenerator::new(&ctx)),
    ];
    generators[0].append(&ctx, &mut result);
    assert_eq!(
        result.inside,
        vec![
            Step::CheckPda { account: 1 },
            Step::CheckPda { account: 2 },
            Step::CheckPda { account: 5 },
            Step::BuildBumps,
        ]
    );
    assert_eq!(result.bump_fields, vec![1, 2]);
    assert_eq!(result.outside.len(), 1);
    match &result.outside[0] {
        OutsideItem::BumpsStruct { name, fields } => {
            assert_eq!(name, "CtxBumps");
            assert_eq!(fields, &vec!["vault".to_string(), "maybe".to_string()]);
        }
    }
    assert_eq!(result.new_fields.len(), 1);
    let NewField { name, ty } = &result.new_fields[0];
    assert_eq!(name, "bumps");
    assert_eq!(ty, "CtxBumps");
    generators[1].append(&ctx, &mut result);
    assert_eq!(result.inside.len(), 9);
    assert_eq!(result.bump_fields, vec![1, 2]);
    assert_eq!(result.outside.len(), 1);
    assert_eq!(result.new_fields.len(), 1);
    let checks = Checks::scan(&vec![Constraint::Bump(None), Constraint::Init]);
    assert!(checks.has_bump && checks.finds_bump && checks.has_init && !checks.has_init_if_needed);
}

fn attr(path: &[&str]) -> Attribute {
    Attribute { path: path.iter().map(|s| s.to_string()).collect(), tokens: String::new() }
}

#[test]
fn attribute_remover_keeps_unnamed_attributes() {
    let mut remover = AttributeRemover::new().with_attribute("max_len").with_attribute("raw_space");
    let kept = remover.fold_attributes(vec![
        attr(&["doc"]),
        attr(&["max_len"]),
        attr(&["serde", "max_len"]),
        attr(&["raw_space"]),
        attr(&["derive"]),
    ]);
    let paths: Vec<Vec<String>> = kept.into_iter().map(|a| a.path).collect();
    assert_eq!(
        paths,
        vec![vec!["doc".to_string()], vec!["serde".to_string(), "max_len".to_string()], vec!["derive".to_string()]]
    );
    let mut none = AttributeRemover::new();
    assert_eq!(none.fold_attributes(vec![attr(&["max_len"])]).len(), 1);
}

#[test]
fn array_sizes() {
    assert_eq!(extract_array_size(&ArrayLen::Literal("3".to_string())), Some((Some(3), None)));
    assert_eq!(extract_array_size(&ArrayLen::Literal("64".to_string())), Some((Some(64), None)));
    assert_eq!(extract_array_size(&ArrayLen::Literal("65".to_string())), None);
    assert_eq!(extract_array_size(&ArrayLen::Literal("0".to_string())), None);
    assert_eq!(extract_array_size(&ArrayLen::Literal("99999999999999999999999".to_string())), None);
    assert_eq!(
        extract_array_size(&ArrayLen::Path(vec!["self".to_string(), "N".to_string()])),
        Some((None, Some("N".to_string())))
    );
    assert_eq!(extract_array_size(&ArrayLen::Path(vec![])), None);
    assert_eq!(extract_array_size(&ArrayLen::Other), None);
}

#[test]
fn account_layout_binds_fixed_accounts() {
    let mut ctx = sample_context();
    ctx.accounts.push(Account {
        name: "dynamic".to_string(),
        constraints: vec![],
        ty: "UncheckedAccount".to_string(),
        inner_ty: "UncheckedAccount".to_string(),
        is_optional: false,
        is_array: true,
        array_size: None,
        const_generic: Some("N".to_string()),
    });
    let (names, generic) = account_layout(&ctx);
    assert_eq!(names, vec!["payer", "vault", "maybe", "many_0", "many_1", "pda"]);
    assert_eq!(generic, vec![6]);
}

fn seg(ident: &str, inner: Option<Segment>) -> Segment {
    Segment { ident: ident.to_string(), inner: inner.map(Box::new) }
}

#[test]
fn accounts_from_fields() {
    let field = AccountField {
        name: Some("payer".to_string()),
        ty: AccountFieldType::Path(Some(seg("Mut", Some(seg("Signer", None))))),
        inner_ty: Some("Signer".to_string()),
    };
    let a = Account::try_from_field(&field, vec![Constraint::Init]).ok().unwrap();
    assert_eq!(a.name, "payer");
    assert_eq!(a.ty, "Mut");
    assert!(!a.is_optional && !a.is_array);
    assert_eq!(a.constraints.len(), 1);

    let optional = AccountField {
        name: None,
        ty: AccountFieldType::Path(Some(seg("Option", Some(seg("Program", None))))),
        inner_ty: Some("System".to_string()),
    };
    let a = Account::try_from_field(&optional, vec![]).ok().unwrap();
    assert_eq!(a.name, "random");
    assert_eq!(a.ty, "Program");
    assert!(a.is_optional);

    let array = AccountField {
        name: Some("signers".to_string()),
        ty: AccountFieldType::Array(Some(seg("Signer", None)), ArrayLen::Literal("3".to_string())),
        inner_ty: Some("Signer".to_string()),
    };
    let a = Account::try_from_field(&array, vec![]).ok().unwrap();
    assert!(a.is_array);
    assert_eq!(a.array_size, Some(3));
    assert_eq!(a.const_generic, None);

    let generic = AccountField {
        name: Some("many".to_string()),
        ty: AccountFieldType::Array(Some(seg("Option", Some(seg("Signer", None)))), ArrayLen::Path(vec!["N".to_string()])),
        inner_ty: Some("Signer".to_string()),
    };
    let a = Account::try_from_field(&generic, vec![]).ok().unwrap();
    assert!(a.is_array && a.is_optional);
    assert_eq!(a.const_generic, Some("N".to_string()));

    let cases = vec![
        (AccountField { name: None, ty: AccountFieldType::Path(None), inner_ty: None }, AccountError::MissingInnerType),
        (AccountField { name: None, ty: AccountFieldType::Path(None), inner_ty: Some("T".to_string()) }, AccountError::InvalidType),
        (
            AccountField { name: None, ty: AccountFieldType::Path(Some(seg("Option", None))), inner_ty: Some("T".to_string()) },
            AccountError::InvalidOptionType,
        ),
        (
            AccountField { name: None, ty: AccountFieldType::Array(None, ArrayLen::Other), inner_ty: Some("T".to_string()) },
            AccountError::InvalidElementType,
        ),
        (
            AccountField {
                name: None,
                ty: AccountFieldType::Array(Some(seg("Signer", None)), ArrayLen::Literal("65".to_string())),
                inner_ty: Some("T".to_string()),
            },
            AccountError::InvalidArraySize,
        ),
        (AccountField { name: None, ty: AccountFieldType::Other, inner_ty: Some("T".to_string()) }, AccountError::NotPathOrArray),
    ];
    for (field, err) in cases {
        assert_eq!(Account::try_from_field(&field, vec![]).err(), Some(err));
    }
}

#[test]
fn folding_attributes_twice_changes_nothing_more() {
    let mut remover = AttributeRemover::new().with_attribute("no_size");
    let once = remover.fold_attributes(vec![attr(&["no_size"]), attr(&["doc"]), attr(&["no_size"])]);
    let once_paths: Vec<Vec<String>> = once.iter().map(|a| a.path.clone()).collect();
    let twice = remover.fold_attributes(once);
    let twice_paths: Vec<Vec<String>> = twice.iter().map(|a| a.path.clone()).collect();
    assert_eq!(once_paths, twice_paths);
    assert_eq!(twice_paths, vec![vec!["doc".to_string()]]);
}

#[test]
fn every_plain_account_is_obtained_once() {
    let ctx = Context {
        name: "Plain".to_string(),
        accounts: vec![
            ctx_account("a", vec![], false, None, false),
            ctx_account("b", vec![Constraint::Init], false, None, false),
            ctx_account("c", vec![Constraint::InitIfNeeded, Constraint::Init], false, None, false),
            ctx_account("d", vec![Constraint::Bump(None), Constraint::Init], false, None, false),
        ],
    };
    let mut result = empty_result();
    AssignGenerator::new(&ctx).append(&mut result);
    InitGenerator::new(&ctx).append(&mut result);
    InitIfNeededGenerator::new(&ctx).append(&mut result);
    for index in 0..4 {
        let obtained = result
            .inside
            .iter()
            .filter(|s| match s {
                Step::Assign { account, .. } => *account == index,
                Step::Init { account } => *account == index,
                Step::InitIfNeeded { account, .. } => *account == index,
                _ => false,
            })
            .count();
        assert_eq!(obtained, 1);
    }
}

fn info(tag: u8) -> AccountInfo {
    AccountInfo {
        address: [tag; 32],
        owner: [0; 32],
        lamports: tag as u64,
        data: vec![],
        is_signer: false,
        is_writable: false,
        executable: false,
    }
}

#[test]
fn constructor_binds_fixed_accounts_and_hands_back_the_rest() {
    let ctx = Context {
        name: "Fixed".to_string(),
        accounts: vec![
            ctx_account("a", vec![], false, None, false),
            ctx_account("arr", vec![], false, Some(2), true),
            ctx_account("b", vec![], false, None, false),
        ],
    };
    let infos: Vec<AccountInfo> = (0..6).map(info).collect();
    let split = split_accounts(&ctx, &vec![], &infos).ok().unwrap();
    let names: Vec<&str> = split.bound.iter().map(|(n, _)| n.as_str()).collect();
    assert_eq!(names, vec!["a", "arr_0", "arr_1", "b"]);
    let tags: Vec<u8> = split.bound.iter().map(|(_, i)| i.address[0]).collect();
    assert_eq!(tags, vec![0, 1, 2, 3]);
    assert!(split.arrays.is_empty());
    let rest: Vec<u8> = split.rest.iter().map(|i| i.address[0]).collect();
    assert_eq!(rest, vec![4, 5]);
    let exact = split_accounts(&ctx, &vec![], &infos[..4]).ok().unwrap();
    assert!(exact.rest.is_empty());
    assert_eq!(split_accounts(&ctx, &vec![], &infos[..3]).err(), Some(SplitError::NotEnoughAccountKeys));
    assert_eq!(split_accounts(&ctx, &vec![], &[]).err(), Some(SplitError::NotEnoughAccountKeys));
}

#[test]
fn constructor_fills_const_generic_arrays() {
    let mut generic = ctx_account("many", vec![], false, None, true);
    generic.const_generic = Some("N".to_string());
    let ctx = Context {
        name: "Generic".to_string(),
        accounts: vec![ctx_account("a", vec![], false, None, false), generic],
    };
    let (names, arrays) = account_layout(&ctx);
    assert_eq!(names, vec!["a".to_string()]);
    assert_eq!(arrays, vec![1]);
    let infos: Vec<AccountInfo> = (0..5).map(info).collect();
    let split = split_accounts(&ctx, &vec![3], &infos).ok().unwrap();
    assert_eq!(split.bound.len(), 1);
    assert_eq!(split.bound[0].0, "fixed_0");
    assert_eq!(split.arrays.len(), 1);
    let many: Vec<u8> = split.arrays[0].iter().map(|i| i.address[0]).collect();
    assert_eq!(many, vec![1, 2, 3]);
    assert_eq!(split.rest.len(), 5);
    assert_eq!(split_accounts(&ctx, &vec![5], &infos).err(), Some(SplitError::NotEnoughAccountKeys));
    assert_eq!(split_accounts(&ctx, &vec![0], &infos[..0]).err(), Some(SplitError::NotEnoughAccountKeys));
    assert!(split_accounts(&ctx, &vec![4], &infos).is_ok());
}

use typhoon::borsh_item::{enum_total_len, gen_size, plan_enum, plan_struct, VariantFields};
use typhoon::borsh_layout::SupportedType;

#[test]
fn enum_expansion_plan() {
    let variants = vec![
        VariantFields::Unit,
        VariantFields::Unit,
        VariantFields::Named,
        VariantFields::Unnamed(1),
        VariantFields::Unnamed(2),
    ];
    let plan = plan_enum(&variants, &vec![attr(&["derive"])]);
    assert_eq!(plan.variant_structs, vec![false, false, true, false, true]);
    assert!(plan.needs_lifetime);
    assert!(plan.gen_size);
    let plain = plan_enum(&vec![VariantFields::Unit, VariantFields::Unnamed(1)], &vec![attr(&["no_size"])]);
    assert_eq!(plain.variant_structs, vec![false, false]);
    assert!(!plain.needs_lifetime);
    assert!(!plain.gen_size);
    assert!(gen_size(&vec![attr(&["serde", "no_size"]), attr(&["doc"])]));
    assert!(!gen_size(&vec![attr(&["doc"]), attr(&["no_size"])]));
    assert!(gen_size(&vec![]));
}

#[test]
fn enum_total_len_counts_the_tag() {
    let data = vec![2u8, 7, 0, 0, 0, 0, 0, 0, 0, 9];
    assert_eq!(enum_total_len(&None, &data, 1), Some(1));
    let third = SupportedType::Defined("ThirdVarVariant".to_string(), vec![SupportedType::U64]);
    assert_eq!(enum_total_len(&Some(third), &data, 1), Some(1 + 8));
    let text = SupportedType::Defined("V".to_string(), vec![SupportedType::String]);
    assert_eq!(enum_total_len(&Some(text), &data, 8), None);
}

#[test]
fn struct_expansion_plan() {
    let plan = plan_struct(vec![attr(&["derive"]), attr(&["max_len"]), attr(&["no_size"]), attr(&["doc"])]);
    assert!(!plan.gen_size);
    let paths: Vec<Vec<String>> = plan.attrs.into_iter().map(|a| a.path).collect();
    assert_eq!(paths, vec![vec!["derive".to_string()], vec!["doc".to_string()]]);
    let sized = plan_struct(vec![attr(&["raw_space"])]);
    assert!(sized.gen_size);
    assert!(sized.attrs.is_empty());
}

use typhoon::entrypoint::{emit_context, ContextStruct, EmittedAttr, EmittedField, StructField};

#[test]
fn emitted_context_struct_and_impl_header() {
    let item = ContextStruct {
        name: "Ctx".to_string(),
        attrs: vec![attr(&["doc"]), attr(&["derive"])],
        generics: vec!["'info".to_string()],
        where_clause: None,
        fields: vec![
            StructField { ident: Some("payer".to_string()), ty: "Mut<Signer<'info>>".to_string() },
            StructField { ident: Some("vault".to_string()), ty: "Account<'info, Vault>".to_string() },
        ],
    };
    let ctx = sample_context();
    let mut result = empty_result();
    BumpsGenerator::new().append(&ctx, &mut result);
    result.drop_vars.push("vault_state".to_string());
    let emitted = emit_context(&item, &ctx, &result);
    assert_eq!(emitted.attrs, vec![EmittedAttr::Own(0), EmittedAttr::Own(1), EmittedAttr::GeneratedDoc]);
    assert_eq!(emitted.fields, vec![EmittedField::Own(0), EmittedField::Own(1), EmittedField::Added(0)]);
    assert_eq!(emitted.impl_generics, vec!["'info".to_string(), "'c".to_string()]);
    assert_eq!(emitted.where_predicates, vec!["'c: 'info".to_string()]);
    assert_eq!(emitted.drops, vec!["vault_state".to_string()]);
    assert!(emitted.hands_back_rest);
    assert_eq!(emitted.constructed, vec!["payer".to_string(), "vault".to_string(), "bumps".to_string()]);

    let mut generic = ctx_account("many", vec![], false, None, true);
    generic.const_generic = Some("N".to_string());
    let generic_ctx = Context { name: "G".to_string(), accounts: vec![generic] };
    let bounded = ContextStruct {
        name: "G".to_string(),
        attrs: vec![],
        generics: vec!["'info".to_string(), "const N: usize".to_string()],
        where_clause: Some(vec!["T: Clone".to_string()]),
        fields: vec![StructField { ident: None, ty: "u8".to_string() }],
    };
    let emitted = emit_context(&bounded, &generic_ctx, &empty_result());
    assert_eq!(emitted.attrs, vec![EmittedAttr::GeneratedDoc]);
    assert_eq!(emitted.where_predicates, vec!["T: Clone".to_string(), "'c: 'info".to_string()]);
    assert!(!emitted.hands_back_rest);
    assert!(emitted.constructed.is_empty());
}
