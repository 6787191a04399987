use typhoon::sorter::{
    sort_accounts, Constraint, DependencyLinker, InstructionAccount, ParsingContext, ConstraintToken,
};

fn account(name: &str, constraints: Vec<Constraint>) -> InstructionAccount {
    InstructionAccount { name: name.to_string(), constraints }
}

fn names(ctx: &ParsingContext) -> Vec<String> {
    ctx.accounts.iter().map(|a| a.name.clone()).collect()
}

fn strings(v: &[&str]) -> Vec<String> {
    v.iter().map(|s| s.to_string()).collect()
}

#[test]
fn independent_accounts_sorted_by_name() {
    let mut ctx = ParsingContext {
        accounts: vec![account("c", vec![]), account("a", vec![]), account("b", vec![])],
    };
    sort_accounts(&mut ctx);
    assert_eq!(names(&ctx), strings(&["a", "b", "c"]));
}

#[test]
fn dependencies_come_first() {
    let mut ctx = ParsingContext {
        accounts: vec![
            account("vault", vec![Constraint::Init, Constraint::Payer("payer".to_string())]),
            account(
                "counter",
                vec![Constraint::Seeds(strings(&["vault", "authority"])), Constraint::Bump(None)],
            ),
            account("authority", vec![]),
            account("payer", vec![]),
        ],
    };
    sort_accounts(&mut ctx);
    assert_eq!(names(&ctx), strings(&["authority", "payer", "vault", "counter"]));
}

#[test]
fn cycle_members_follow_in_name_order() {
    let mut ctx = ParsingContext {
        accounts: vec![
            account("b", vec![Constraint::HasOne("a".to_string())]),
            account("a", vec![Constraint::HasOne("b".to_string())]),
            account("z", vec![]),
        ],
    };
    sort_accounts(&mut ctx);
    assert_eq!(names(&ctx), strings(&["z", "a", "b"]));
}

#[test]
fn unknown_dependency_is_ignored() {
    let mut ctx = ParsingContext {
        accounts: vec![
            account("b", vec![Constraint::Address(strings(&["program_id"]))]),
            account("a", vec![]),
        ],
    };
    sort_accounts(&mut ctx);
    assert_eq!(names(&ctx), strings(&["a", "b"]));
}

#[test]
fn created_associated_token_waits_for_programs() {
    let mut ctx = ParsingContext {
        accounts: vec![
            account(
                "ata",
                vec![
                    Constraint::Init,
                    Constraint::AssociatedToken(ConstraintToken::Mint("mint".to_string())),
                ],
            ),
            account("token_program", vec![]),
            account("mint", vec![]),
            account("system_program", vec![]),
        ],
    };
    sort_accounts(&mut ctx);
    assert_eq!(names(&ctx), strings(&["mint", "system_program", "token_program", "ata"]));
}

#[test]
fn empty_and_single_contexts() {
    let mut ctx = ParsingContext { accounts: vec![] };
    sort_accounts(&mut ctx);
    assert!(ctx.accounts.is_empty());
    let mut ctx = ParsingContext { accounts: vec![account("only", vec![])] };
    sort_accounts(&mut ctx);
    assert_eq!(names(&ctx), strings(&["only"]));
}

#[test]
fn dependency_names_in_constraint_order() {
    let deps = DependencyLinker::extract_dependencies(&vec![
        Constraint::Payer("payer".to_string()),
        Constraint::Init,
        Constraint::Token(ConstraintToken::Mint("mint".to_string())),
        Constraint::Token(ConstraintToken::Authority("owner".to_string())),
        Constraint::AssociatedToken(ConstraintToken::Authority("owner".to_string())),
        Constraint::Assert(strings(&["x", "y"])),
    ]);
    assert_eq!(
        deps,
        strings(&["payer", "mint", "owner", "x", "y", "system_program", "token_program"])
    );
}

#[test]
fn linker_collects_added_names() {
    let mut linker = DependencyLinker::new();
    linker.add_dependency(&"first".to_string());
    linker.visit_constraint(&Constraint::HasOne("second".to_string()));
    linker.visit_constraint(&Constraint::Space);
    let deps = DependencyLinker::extract_dependencies(&vec![Constraint::HasOne("x".to_string())]);
    assert_eq!(deps, strings(&["x"]));
}

#[test]
fn declaration_order_does_not_change_the_sorted_order() {
    let declared = || {
        vec![
            account("vault", vec![Constraint::Init, Constraint::Payer("payer".to_string())]),
            account("counter", vec![Constraint::Seeds(strings(&["vault", "authority"])), Constraint::Bump(None)]),
            account("authority", vec![]),
            account("payer", vec![]),
            account("x", vec![Constraint::HasOne("y".to_string())]),
            account("y", vec![Constraint::HasOne("x".to_string())]),
        ]
    };
    let mut first = ParsingContext { accounts: declared() };
    sort_accounts(&mut first);
    let expected = names(&first);
    for rotation in 1..6 {
        let mut accounts = declared();
        accounts.rotate_left(rotation);
        accounts.swap(0, 5);
        let mut ctx = ParsingContext { accounts };
        sort_accounts(&mut ctx);
        assert_eq!(names(&ctx), expected);
    }
}
