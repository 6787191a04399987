use typhoon::naming::is_valid_name;
use typhoon::new_templates;
use typhoon::project::{
    add_router_instruction, check_new_project_names, check_program_name, handler_paths, program_dir,
    project_dir_name,
    program_manifest_entries, router_entry_number, update_mod_lines, update_mod_text,
    AddProgramError, NameError, RouterError, TomlValue,
};
use typhoon::templates::{DependencyVersions, Template, TemplateContext};
use typhoon::text::{
    is_whitespace, decimal_string, join_text_lines, parse_unsigned_i32, same_str, split_text_lines,
    split_text_on, starts_with_after_spaces,
};

fn lines(v: &[&str]) -> Vec<String> {
    v.iter().map(|s| s.to_string()).collect()
}

#[test]
fn valid_names() {
    assert!(is_valid_name("counter"));
    assert!(is_valid_name("my-project_2"));
    assert!(is_valid_name("_private"));
    assert!(is_valid_name("-dash"));
    assert!(is_valid_name("été"));
    assert!(!is_valid_name(""));
    assert!(!is_valid_name("2fast"));
    assert!(!is_valid_name("has space"));
    assert!(!is_valid_name("dot.name"));
    assert!(!is_valid_name("_"));
    assert!(!is_valid_name("-"));
    assert!(!is_valid_name("mod"));
    assert!(!is_valid_name("crate"));
    assert!(is_valid_name("crates"));
}

#[test]
fn new_project_name_checks() {
    assert_eq!(check_new_project_names("proj", &None), Ok(()));
    assert_eq!(check_new_project_names("proj", &Some("counter".to_string())), Ok(()));
    assert_eq!(check_new_project_names("1proj", &Some("counter".to_string())), Err(NameError::InvalidProjectName));
    assert_eq!(check_new_project_names("proj", &Some("fn".to_string())), Err(NameError::InvalidProgramName));
    assert_eq!(check_program_name(""), Err(AddProgramError::EmptyName));
    assert_eq!(check_program_name("x"), Ok(()));
}

#[test]
fn mod_file_gets_module_and_reexport() {
    let content = "use typhoon::prelude::*;\n\nmod initialize;\n\npub use initialize::*;";
    let updated = update_mod_text(content, "NewHandler");
    assert_eq!(
        updated,
        "mod new_handler;\nuse typhoon::prelude::*;\npub use new_handler::*;\n\nmod initialize;\n\npub use initialize::*;"
    );
}

#[test]
fn mod_file_without_use_lines() {
    let updated = update_mod_lines(&lines(&["mod a;", "pub mod b;"]), "c");
    assert_eq!(updated, lines(&["mod c;", "pub use c::*;", "mod a;", "pub mod b;"]));
    let updated = update_mod_lines(&lines(&["  use x::y;", "mod a;", "    use z;", "fn f() {}"]), "c");
    assert_eq!(updated, lines(&["mod c;", "  use x::y;", "mod a;", "    use z;", "pub use c::*;", "fn f() {}"]));
}

const LIB: &str = "use typhoon::prelude::*;\n\npub const ROUTER: EntryFn = basic_router! {\n    0 => initialize,\n    1 => increment,\n    2 => close,\n};\n";

#[test]
fn router_gets_next_instruction() {
    let lib = split_text_lines(LIB);
    let updated = add_router_instruction(&lib, "NewHandler").unwrap();
    let text = join_text_lines(&updated);
    assert!(text.contains("    3 => new_handler,\n};"));
    assert_eq!(updated.len(), lib.len() + 1);
}

#[test]
fn router_numbering_uses_largest_entry() {
    let lib = lines(&[
        "  pub const ROUTER: EntryFn = basic_router! {",
        "    7 => a,",
        "    not an entry",
        "    3 => b,",
        "    99999999999 => c,",
        "};",
    ]);
    let updated = add_router_instruction(&lib, "d").unwrap();
    assert_eq!(updated[5], "    8 => d,");
    assert_eq!(updated[6], "};");
    let empty = lines(&["pub const ROUTER: EntryFn = basic_router! {", "};"]);
    assert_eq!(add_router_instruction(&empty, "first").unwrap()[1], "    0 => first,");
}

#[test]
fn router_errors() {
    assert_eq!(add_router_instruction(&lines(&["fn main() {}"]), "x").err(), Some(RouterError::RouterNotFound));
    assert_eq!(
        add_router_instruction(&lines(&["pub const ROUTER: EntryFn = basic_router! {", "    0 => a,"]), "x").err(),
        Some(RouterError::RouterEndNotFound)
    );
    assert_eq!(
        add_router_instruction(&lines(&["pub const ROUTER: EntryFn = basic_router! {", "    2147483647 => a,", "};"]), "x").err(),
        Some(RouterError::IndexOverflow)
    );
}

#[test]
fn router_entry_numbers() {
    assert_eq!(router_entry_number("    12 => handler_name,"), Some(12));
    assert_eq!(router_entry_number("12=>h,"), Some(12));
    assert_eq!(router_entry_number("    x => h,"), None);
    assert_eq!(router_entry_number("    12 => h"), None);
    assert_eq!(router_entry_number("    3000000000 => h,"), None);
}

#[test]
fn manifest_entries_for_new_program() {
    let (workspace, tests) = program_manifest_entries("NewCounter");
    assert_eq!(workspace.len(), 1);
    assert_eq!(workspace[0].path, "workspace.dependencies.new-counter.path");
    assert!(matches!(&workspace[0].value, TomlValue::Str(v) if v == "programs/new_counter"));
    assert_eq!(tests[0].path, "package.metadata.typhoon.builder-dependencies.new_counter.path");
    assert!(matches!(&tests[0].value, TomlValue::Str(v) if v == "../programs/new_counter"));
    assert_eq!(tests[1].path, "dev-dependencies.new-counter.workspace");
    assert!(matches!(tests[1].value, TomlValue::Bool(true)));
}

fn paths(t: &Template) -> Vec<(String, String)> {
    t.files.iter().map(|f| (f.path_template.clone(), f.content_template.clone())).collect()
}

#[test]
fn workspace_template_files() {
    let t = Template::workspace("MyCounter");
    assert_eq!(t.name, "workspace");
    let files = paths(&t);
    assert_eq!(files.len(), 14);
    assert_eq!(files[0], ("Cargo.toml".to_string(), "Cargo.toml.template".to_string()));
    assert_eq!(files[1], ("programs/my_counter/Cargo.toml".to_string(), "programs/Cargo.toml.template".to_string()));
    assert_eq!(files[10].0, "programs/my_counter/src/contexts/mod.rs");
    assert_eq!(files[13], ("tests/tests/my_counter.rs".to_string(), "tests/tests/integration.rs.template".to_string()));
}

#[test]
fn program_and_handler_template_files() {
    let t = Template::program("counter");
    let files = paths(&t);
    assert_eq!(files.len(), 11);
    assert_eq!(files[2].0, "programs/counter/src/lib.rs");
    assert_eq!(files[10].0, "tests/tests/counter.rs");
    let t = Template::handler("Counter", "ResetAll");
    assert_eq!(t.name, "handler");
    assert_eq!(
        paths(&t),
        vec![
            ("programs/counter/src/handlers/reset_all.rs".to_string(), "programs/src/handlers/generic.rs.template".to_string()),
            ("programs/counter/src/contexts/reset_all.rs".to_string(), "programs/src/contexts/generic.rs.template".to_string()),
        ]
    );
}

#[test]
fn legacy_workspace_template_files() {
    let t = new_templates::Template::workspace("Test Project");
    assert_eq!(t.files.len(), 14);
    assert_eq!(t.files[3].path_template, "programs/test_project/src/lib.rs");
    assert_eq!(t.files[13].path_template, "tests/tests/integration.rs");
    let ctx = new_templates::TemplateContext::for_project("my-project", "\"1\"".to_string(), "\"2\"".to_string(), "\"3\"".to_string());
    assert_eq!(ctx.project_name_snake, "my_project");
    assert_eq!(ctx.project_name_kebab, "my-project");
    assert_eq!(ctx.project_name_title, "My Project");
    assert_eq!(ctx.project_name_pascal, "MyProject");
    assert_eq!(ctx.typhoon_idl_version, "\"3\"");
}

#[test]
fn template_contexts() {
    let ctx = TemplateContext::for_workspace("my-project", None, DependencyVersions::from_version("0.2.0"));
    assert_eq!(ctx.program_name_snake, "my_project");
    assert_eq!(ctx.project_name_pascal, "MyProject");
    assert_eq!(ctx.typhoon_version, "\"0.2.0\"");
    assert_eq!(ctx.instruction_name_snake, "");
    let ctx = TemplateContext::for_workspace("p", Some("Token Vault".to_string()), DependencyVersions::from_paths("/a/lib", "/a/b", "/a/i"));
    assert_eq!(ctx.program_name_kebab, "token-vault");
    assert_eq!(ctx.typhoon_version, "{ path = \"/a/lib\" }");
    assert_eq!(ctx.typhoon_idl_version, "{ path = \"/a/i\" }");
    let ctx = TemplateContext::for_handler("counter", "reset_all", "\"1.0\"");
    assert_eq!(ctx.instruction_name_pascal, "ResetAll");
    assert_eq!(ctx.program_name_pascal, "Counter");
    let ctx = TemplateContext::for_program("new-counter", "\"1.0\"");
    assert_eq!(ctx.project_name_snake, "new_counter");
}

#[test]
fn text_helpers() {
    assert_eq!(split_text_lines("a\n\nb"), lines(&["a", "", "b"]));
    assert_eq!(split_text_lines(""), lines(&[""]));
    assert_eq!(split_text_on("x.y.z", '.'), lines(&["x", "y", "z"]));
    assert_eq!(join_text_lines(&lines(&["a", "", "b"])), "a\n\nb");
    assert!(starts_with_after_spaces(" \t use x;", "use "));
    assert!(!starts_with_after_spaces("pub use x;", "use "));
    assert!(same_str("abc", "abc"));
    assert!(!same_str("abc", "abd"));
    assert_eq!(decimal_string(0), "0");
    assert_eq!(decimal_string(1203), "1203");
    assert_eq!(parse_unsigned_i32("2147483647"), Some(2147483647));
    assert_eq!(parse_unsigned_i32("2147483648"), None);
    assert_eq!(parse_unsigned_i32("007"), Some(7));
}

use typhoon::manifest::{insert_toml_values, ManifestError};
use typhoon::project::TomlEntry;

#[test]
fn manifest_values_are_set_in_place() {
    let text = "[workspace]\nmembers = [\"programs/*\"]\n\n[workspace.dependencies]\ntyphoon = \"0.1\"\n";
    let (entries, _) = program_manifest_entries("NewCounter");
    let updated = insert_toml_values(text, &entries).ok().unwrap();
    assert!(updated.starts_with("[workspace]\nmembers = [\"programs/*\"]\n"));
    assert!(updated.contains("typhoon = \"0.1\""));
    let reparsed: toml_edit::DocumentMut = updated.parse().unwrap();
    assert_eq!(
        reparsed["workspace"]["dependencies"]["new-counter"]["path"].as_str(),
        Some("programs/new_counter")
    );
}

#[test]
fn manifest_errors() {
    let entries = vec![TomlEntry { path: "a.b".to_string(), value: TomlValue::Bool(true) }];
    assert!(matches!(insert_toml_values("a = 1\n", &entries), Err(ManifestError::PathNotFound(p)) if p == "a.b"));
    assert!(matches!(insert_toml_values("[[[", &entries), Err(ManifestError::Parse(_))));
    let updated = insert_toml_values("[a]\n", &entries).ok().unwrap();
    assert!(updated.contains("b = true"));
}

use typhoon::templates::TemplateError;

#[test]
fn files_render_with_context_values() {
    let ctx = TemplateContext::for_program("NewCounter", "0.3.0");
    let (path, content) = ctx
        .render_file("programs/{{program_name_snake}}/src/lib.rs", "version = \"{{typhoon_version}}\"\nname = {{program_name_pascal}}")
        .ok()
        .unwrap();
    assert_eq!(path, "programs/new_counter/src/lib.rs");
    assert_eq!(content, "version = \"0.3.0\"\nname = NewCounter");
    assert!(matches!(ctx.render_file("{{unknown}}", ""), Err(TemplateError::PathTemplate(p, _)) if p == "{{unknown}}"));
    assert!(matches!(ctx.render_file("ok.rs", "{{#if}}"), Err(TemplateError::ContentTemplate(p, _)) if p == "ok.rs"));
    let vars = ctx.vars();
    assert_eq!(vars.len(), 11);
    assert_eq!(vars[3], ("program_name_snake".to_string(), "new_counter".to_string()));
}

#[test]
fn joining_split_text_gives_it_back() {
    for text in ["", "a", "a\nb", "\n\n", "x\n", LIB] {
        assert_eq!(join_text_lines(&split_text_lines(text)), text);
    }
}

#[test]
fn manifest_without_entries_is_kept() {
    let text = "[package]\nname = \"x\"\n";
    assert_eq!(insert_toml_values(text, &vec![]).ok(), Some(text.to_string()));
    assert!(matches!(insert_toml_values("= broken", &vec![]), Err(ManifestError::Parse(_))));
}

#[test]
fn manifest_entries_apply_in_order() {
    let entries = vec![
        TomlEntry { path: "a".to_string(), value: TomlValue::Str("x".to_string()) },
        TomlEntry { path: "a.b".to_string(), value: TomlValue::Bool(true) },
    ];
    assert!(matches!(insert_toml_values("[t]\n", &entries), Err(ManifestError::PathNotFound(p)) if p == "a.b"));
    let nested = vec![
        TomlEntry { path: "p.q.r".to_string(), value: TomlValue::Str("v".to_string()) },
        TomlEntry { path: "p.q.s".to_string(), value: TomlValue::Bool(false) },
    ];
    let updated = insert_toml_values("[p]\n", &nested).ok().unwrap();
    let reparsed: toml_edit::DocumentMut = updated.parse().unwrap();
    assert_eq!(reparsed["p"]["q"]["r"].as_str(), Some("v"));
    assert_eq!(reparsed["p"]["q"]["s"].as_bool(), Some(false));
}

#[test]
fn unicode_white_space_is_skipped() {
    for c in ['\t', '\n', '\r', ' ', '\u{85}', '\u{a0}', '\u{1680}', '\u{2000}', '\u{200a}', '\u{2028}', '\u{3000}'] {
        assert!(is_whitespace(c));
        assert_eq!(is_whitespace(c), c.is_whitespace());
    }
    for c in ['a', '_', '\u{200b}', '\u{feff}', '0'] {
        assert!(!is_whitespace(c));
        assert_eq!(is_whitespace(c), c.is_whitespace());
    }
    assert!(starts_with_after_spaces("\u{3000} mod x;", "mod "));
}

#[test]
fn workspace_paths_of_programs_and_handlers() {
    assert_eq!(project_dir_name("MyProject"), "my-project");
    assert_eq!(program_dir("NewCounter"), vec!["programs".to_string(), "new_counter".to_string()]);
    let paths = handler_paths("NewCounter", "IncrementCount");
    assert_eq!(paths.existing, vec!["handlers".to_string(), "increment_count".to_string()]);
    assert_eq!(
        paths.program_src,
        vec!["programs".to_string(), "new_counter".to_string(), "src".to_string()]
    );
    assert_eq!(paths.module, "increment_count");
}

#[test]
fn adding_a_program_writes_both_manifests() {
    let tests_manifest = "[package]\nname = \"tests\"\n\n[package.metadata.typhoon.builder-dependencies]\ncounter = { path = \"../programs/counter\" }\n\n[dev-dependencies]\ncounter = { workspace = true }\n";
    let (_, entries) = program_manifest_entries("new-counter");
    let updated = insert_toml_values(tests_manifest, &entries).ok().unwrap();
    let doc: toml_edit::DocumentMut = updated.parse().unwrap();
    assert_eq!(
        doc["package"]["metadata"]["typhoon"]["builder-dependencies"]["new_counter"]["path"].as_str(),
        Some("../programs/new_counter")
    );
    assert_eq!(doc["dev-dependencies"]["new-counter"]["workspace"].as_bool(), Some(true));
    assert_eq!(
        doc["package"]["metadata"]["typhoon"]["builder-dependencies"]["counter"]["path"].as_str(),
        Some("../programs/counter")
    );
    assert_eq!(doc["dev-dependencies"]["counter"]["workspace"].as_bool(), Some(true));
    let workspace_manifest = "[workspace]\nmembers = [\"programs/*\"]\n\n[workspace.dependencies]\ncounter = { path = \"programs/counter\" }\n";
    let (ws_entries, _) = program_manifest_entries("new-counter");
    let ws = insert_toml_values(workspace_manifest, &ws_entries).ok().unwrap();
    let ws_doc: toml_edit::DocumentMut = ws.parse().unwrap();
    assert_eq!(ws_doc["workspace"]["dependencies"]["new-counter"]["path"].as_str(), Some("programs/new_counter"));
    assert_eq!(ws_doc["workspace"]["dependencies"]["counter"]["path"].as_str(), Some("programs/counter"));
}

#[test]
fn names_of_ascii_letters_digits_and_dashes() {
    for ok in ["test-project", "counter", "new-counter", "_x", "-a", "Ab9", "été"] {
        assert!(is_valid_name(ok), "{ok}");
    }
    for bad in ["", "1abc", "_", "-", "crate", "my project", "a.b", "9"] {
        assert!(!is_valid_name(bad), "{bad}");
    }
}
