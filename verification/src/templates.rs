//! The files that make up a new workspace, program or handler, and the values that
//! their templates are rendered with.
use crate::naming::{
    kebab_case, pascal_case, snake_case, to_kebab_case, to_pascal_case, to_snake_case,
};
use vstd::prelude::*;
use vstd::string::StringExecFns;

verus! {

/// One file to generate: the template of its path and the name of the template of its
/// content, relative to the template directory.
pub struct TemplateFile {
    pub path_template: String,
    pub content_template: String,
}

/// A named set of files to generate.
pub struct Template {
    pub name: String,
    pub files: Vec<TemplateFile>,
}

/// The values that the templates refer to.
pub struct TemplateContext {
    pub project_name_snake: String,
    pub project_name_kebab: String,
    pub project_name_pascal: String,
    pub program_name_snake: String,
    pub program_name_kebab: String,
    pub program_name_pascal: String,
    pub instruction_name_snake: String,
    pub instruction_name_pascal: String,
    pub typhoon_version: String,
    pub typhoon_builder_version: String,
    pub typhoon_idl_version: String,
}

/// How the generated manifests depend on the framework's crates.
pub struct DependencyVersions {
    pub typhoon: String,
    pub builder: String,
    pub idl: String,
}

/// The path and content template of each file, as characters.
pub open spec fn files_view(files: Seq<TemplateFile>) -> Seq<(Seq<char>, Seq<char>)> {
    files.map_values(|f: TemplateFile| (f.path_template@, f.content_template@))
}

pub open spec fn program_path(snake: Seq<char>, suffix: Seq<char>) -> Seq<char> {
    "programs/"@ + snake + suffix
}

/// The files of a program, `snake` being its snake-case name.
pub open spec fn program_files(snake: Seq<char>) -> Seq<(Seq<char>, Seq<char>)> {
    seq![
        (program_path(snake, "/Cargo.toml"@), "programs/Cargo.toml.template"@),
        (program_path(snake, "/build.rs"@), "programs/build.rs.template"@),
        (program_path(snake, "/src/lib.rs"@), "programs/src/lib.rs.template"@),
        (program_path(snake, "/src/state/mod.rs"@), "programs/src/state/mod.rs.template"@),
        (program_path(snake, "/src/state/counter.rs"@), "programs/src/state/counter.rs.template"@),
        (program_path(snake, "/src/handlers/mod.rs"@), "programs/src/handlers/mod.rs.template"@),
        (
            program_path(snake, "/src/handlers/initialize.rs"@),
            "programs/src/handlers/initialize.rs.template"@,
        ),
        (program_path(snake, "/src/handlers/close.rs"@), "programs/src/handlers/close.rs.template"@),
        (
            program_path(snake, "/src/handlers/increment.rs"@),
            "programs/src/handlers/increment.rs.template"@,
        ),
        (program_path(snake, "/src/contexts/mod.rs"@), "programs/src/contexts/mod.rs.template"@),
    ]
}

/// The test file of a program.
pub open spec fn program_test_file(snake: Seq<char>) -> (Seq<char>, Seq<char>) {
    ("tests/tests/"@ + snake + ".rs"@, "tests/tests/integration.rs.template"@)
}

/// The files of a new workspace whose first program is `snake`.
pub open spec fn workspace_files(snake: Seq<char>) -> Seq<(Seq<char>, Seq<char>)> {
    seq![("Cargo.toml"@, "Cargo.toml.template"@)] + program_files(snake) + seq![
        ("tests/Cargo.toml"@, "tests/Cargo.toml.template"@),
        ("tests/src/lib.rs"@, "tests/src/lib.rs.template"@),
        program_test_file(snake),
    ]
}

/// The files that adding a program generates.
pub open spec fn added_program_files(snake: Seq<char>) -> Seq<(Seq<char>, Seq<char>)> {
    program_files(snake).push(program_test_file(snake))
}

/// The files that adding a handler generates.
pub open spec fn handler_files(program: Seq<char>, instruction: Seq<char>) -> Seq<
    (Seq<char>, Seq<char>),
> {
    seq![
        (
            program_path(program, "/src/handlers/"@ + instruction + ".rs"@),
            "programs/src/handlers/generic.rs.template"@,
        ),
        (
            program_path(program, "/src/contexts/"@ + instruction + ".rs"@),
            "programs/src/contexts/generic.rs.template"@,
        ),
    ]
}

fn file(path: String, content: &str) -> (r: TemplateFile)
    ensures
        r.path_template@ == path@,
        r.content_template@ == content@,
{
    TemplateFile { path_template: path, content_template: content.to_owned() }
}

pub(crate) fn push_file(files: &mut Vec<TemplateFile>, path: String, content: &str)
    ensures
        files_view(final(files)@) == files_view(old(files)@).push((path@, content@)),
{
    let ghost prev = files@;
    files.push(file(path, content));
    assert(files_view(files@) =~= files_view(prev).push((path@, content@)));
}

fn program_file_path(snake: &String, suffix: &str) -> (r: String)
    ensures
        r@ == program_path(snake@, suffix@),
{
    "programs/".to_owned().concat(snake.as_str()).concat(suffix)
}

pub(crate) fn push_program_files(files: &mut Vec<TemplateFile>, snake: &String)
    ensures
        files_view(final(files)@) == files_view(old(files)@) + program_files(snake@),
{
    let ghost start = files_view(files@);
    push_file(files, program_file_path(snake, "/Cargo.toml"), "programs/Cargo.toml.template");
    push_file(files, program_file_path(snake, "/build.rs"), "programs/build.rs.template");
    push_file(files, program_file_path(snake, "/src/lib.rs"), "programs/src/lib.rs.template");
    push_file(
        files,
        program_file_path(snake, "/src/state/mod.rs"),
        "programs/src/state/mod.rs.template",
    );
    push_file(
        files,
        program_file_path(snake, "/src/state/counter.rs"),
        "programs/src/state/counter.rs.template",
    );
    push_file(
        files,
        program_file_path(snake, "/src/handlers/mod.rs"),
        "programs/src/handlers/mod.rs.template",
    );
    push_file(
        files,
        program_file_path(snake, "/src/handlers/initialize.rs"),
        "programs/src/handlers/initialize.rs.template",
    );
    push_file(
        files,
        program_file_path(snake, "/src/handlers/close.rs"),
        "programs/src/handlers/close.rs.template",
    );
    push_file(
        files,
        program_file_path(snake, "/src/handlers/increment.rs"),
        "programs/src/handlers/increment.rs.template",
    );
    push_file(
        files,
        program_file_path(snake, "/src/contexts/mod.rs"),
        "programs/src/contexts/mod.rs.template",
    );
    assert(files_view(files@) =~= start + program_files(snake@));
}

fn push_program_test_file(files: &mut Vec<TemplateFile>, snake: &String)
    ensures
        files_view(final(files)@) == files_view(old(files)@).push(program_test_file(snake@)),
{
    let path = "tests/tests/".to_owned().concat(snake.as_str()).concat(".rs");
    push_file(files, path, "tests/tests/integration.rs.template");
}

impl Template {
    /// The files of a new workspace whose first program is `program_name`.
    pub fn workspace(program_name: &str) -> (r: Self)
        ensures
            r.name@ == "workspace"@,
            files_view(r.files@) == workspace_files(snake_case(program_name@)),
    {
        let snake = to_snake_case(program_name);
        let mut files: Vec<TemplateFile> = Vec::new();
        assert(files_view(files@) =~= Seq::empty());
        push_file(&mut files, "Cargo.toml".to_owned(), "Cargo.toml.template");
        push_program_files(&mut files, &snake);
        push_file(&mut files, "tests/Cargo.toml".to_owned(), "tests/Cargo.toml.template");
        push_file(&mut files, "tests/src/lib.rs".to_owned(), "tests/src/lib.rs.template");
        push_program_test_file(&mut files, &snake);
        assert(files_view(files@) =~= workspace_files(snake@));
        Template { name: "workspace".to_owned(), files }
    }

    /// The files that adding the program `program_name` generates.
    pub fn program(program_name: &str) -> (r: Self)
        ensures
            r.name@ == "program"@,
            files_view(r.files@) == added_program_files(snake_case(program_name@)),
    {
        let snake = to_snake_case(program_name);
        let mut files: Vec<TemplateFile> = Vec::new();
        assert(files_view(files@) =~= Seq::empty());
        push_program_files(&mut files, &snake);
        push_program_test_file(&mut files, &snake);
        assert(files_view(files@) =~= added_program_files(snake@));
        Template { name: "program".to_owned(), files }
    }

    /// The files that adding the handler `instruction_name` to `program_name` generates.
    pub fn handler(program_name: &str, instruction_name: &str) -> (r: Self)
        ensures
            r.name@ == "handler"@,
            files_view(r.files@) == handler_files(
                snake_case(program_name@),
                snake_case(instruction_name@),
            ),
    {
        let program = to_snake_case(program_name);
        let instruction = to_snake_case(instruction_name);
        let mut files: Vec<TemplateFile> = Vec::new();
        assert(files_view(files@) =~= Seq::empty());
        let handler_suffix = "/src/handlers/".to_owned().concat(instruction.as_str()).concat(".rs");
        push_file(
            &mut files,
            program_file_path(&program, handler_suffix.as_str()),
            "programs/src/handlers/generic.rs.template",
        );
        let context_suffix = "/src/contexts/".to_owned().concat(instruction.as_str()).concat(".rs");
        push_file(
            &mut files,
            program_file_path(&program, context_suffix.as_str()),
            "programs/src/contexts/generic.rs.template",
        );
        assert(files_view(files@) =~= handler_files(program@, instruction@));
        Template { name: "handler".to_owned(), files }
    }
}

impl DependencyVersions {
    /// Depends on the published crates of version `version`.
    pub fn from_version(version: &str) -> (r: Self)
        ensures
            r.typhoon@ == "\""@ + version@ + "\""@,
            r.builder@ == r.typhoon@,
            r.idl@ == r.typhoon@,
    {
        let quoted = "\"".to_owned().concat(version).concat("\"");
        let builder = "\"".to_owned().concat(version).concat("\"");
        let idl = "\"".to_owned().concat(version).concat("\"");
        DependencyVersions { typhoon: quoted, builder, idl }
    }

    /// Depends on local crates at these paths.
    pub fn from_paths(lib_path: &str, builder_path: &str, idl_path: &str) -> (r: Self)
        ensures
            r.typhoon@ == "{ path = \""@ + lib_path@ + "\" }"@,
            r.builder@ == "{ path = \""@ + builder_path@ + "\" }"@,
            r.idl@ == "{ path = \""@ + idl_path@ + "\" }"@,
    {
        DependencyVersions {
            typhoon: "{ path = \"".to_owned().concat(lib_path).concat("\" }"),
            builder: "{ path = \"".to_owned().concat(builder_path).concat("\" }"),
            idl: "{ path = \"".to_owned().concat(idl_path).concat("\" }"),
        }
    }
}

impl TemplateContext {
    /// The values for a new workspace: the program is named `program_name`, or, when
    /// none is given, like the project.
    pub fn for_workspace(
        project_name: &str,
        program_name: Option<String>,
        versions: DependencyVersions,
    ) -> (r: Self)
        ensures
            r.project_name_snake@ == snake_case(project_name@),
            r.project_name_kebab@ == kebab_case(project_name@),
            r.project_name_pascal@ == pascal_case(project_name@),
            ({
                let program = match program_name {
                    Some(p) => p@,
                    None => project_name@,
                };
                &&& r.program_name_snake@ == snake_case(program)
                &&& r.program_name_kebab@ == kebab_case(program)
                &&& r.program_name_pascal@ == pascal_case(program)
            }),
            r.instruction_name_snake@ == snake_case(Seq::empty()),
            r.instruction_name_pascal@ == pascal_case(Seq::empty()),
            r.typhoon_version == versions.typhoon,
            r.typhoon_builder_version == versions.builder,
            r.typhoon_idl_version == versions.idl,
    {
        let program = match program_name {
            Some(p) => p,
            None => project_name.to_owned(),
        };
        let empty = "";
        proof {
            reveal_strlit("");
            assert(empty@ =~= Seq::<char>::empty());
        }
        TemplateContext {
            project_name_snake: to_snake_case(project_name),
            project_name_kebab: to_kebab_case(project_name),
            project_name_pascal: to_pascal_case(project_name),
            program_name_snake: to_snake_case(program.as_str()),
            program_name_kebab: to_kebab_case(program.as_str()),
            program_name_pascal: to_pascal_case(program.as_str()),
            instruction_name_snake: to_snake_case(empty),
            instruction_name_pascal: to_pascal_case(empty),
            typhoon_version: versions.typhoon,
            typhoon_builder_version: versions.builder,
            typhoon_idl_version: versions.idl,
        }
    }

    /// The values for a program added to a workspace; the project names are the
    /// program's.
    pub fn for_program(program_name: &str, version: &str) -> (r: Self)
        ensures
            r.project_name_snake@ == snake_case(program_name@),
            r.project_name_kebab@ == kebab_case(program_name@),
            r.project_name_pascal@ == pascal_case(program_name@),
            r.program_name_snake@ == snake_case(program_name@),
            r.program_name_kebab@ == kebab_case(program_name@),
            r.program_name_pascal@ == pascal_case(program_name@),
            r.instruction_name_snake@ == snake_case(Seq::empty()),
            r.instruction_name_pascal@ == pascal_case(Seq::empty()),
            r.typhoon_version@ == version@,
            r.typhoon_builder_version@ == version@,
            r.typhoon_idl_version@ == version@,
    {
        let empty = "";
        proof {
            reveal_strlit("");
            assert(empty@ =~= Seq::<char>::empty());
        }
        TemplateContext {
            project_name_snake: to_snake_case(program_name),
            project_name_kebab: to_kebab_case(program_name),
            project_name_pascal: to_pascal_case(program_name),
            program_name_snake: to_snake_case(program_name),
            program_name_kebab: to_kebab_case(program_name),
            program_name_pascal: to_pascal_case(program_name),
            instruction_name_snake: to_snake_case(empty),
            instruction_name_pascal: to_pascal_case(empty),
            typhoon_version: version.to_owned(),
            typhoon_builder_version: version.to_owned(),
            typhoon_idl_version: version.to_owned(),
        }
    }

    /// The values for a handler `instruction_name` added to `program_name`.
    pub fn for_handler(program_name: &str, instruction_name: &str, version: &str) -> (r: Self)
        ensures
            r.project_name_snake@ == snake_case(program_name@),
            r.project_name_kebab@ == kebab_case(program_name@),
            r.project_name_pascal@ == pascal_case(program_name@),
            r.program_name_snake@ == snake_case(program_name@),
            r.program_name_kebab@ == kebab_case(program_name@),
            r.program_name_pascal@ == pascal_case(program_name@),
            r.instruction_name_snake@ == snake_case(instruction_name@),
            r.instruction_name_pascal@ == pascal_case(instruction_name@),
            r.typhoon_version@ == version@,
            r.typhoon_builder_version@ == version@,
            r.typhoon_idl_version@ == version@,
    {
        TemplateContext {
            project_name_snake: to_snake_case(program_name),
            project_name_kebab: to_kebab_case(program_name),
            project_name_pascal: to_pascal_case(program_name),
            program_name_snake: to_snake_case(program_name),
            program_name_kebab: to_kebab_case(program_name),
            program_name_pascal: to_pascal_case(program_name),
            instruction_name_snake: to_snake_case(instruction_name),
            instruction_name_pascal: to_pascal_case(instruction_name),
            typhoon_version: version.to_owned(),
            typhoon_builder_version: version.to_owned(),
            typhoon_idl_version: version.to_owned(),
        }
    }
}

/// The variables of a context, named as the templates name them, in field order.
pub open spec fn context_vars(ctx: TemplateContext) -> Seq<(Seq<char>, Seq<char>)> {
    seq![
        ("project_name_snake"@, ctx.project_name_snake@),
        ("project_name_kebab"@, ctx.project_name_kebab@),
        ("project_name_pascal"@, ctx.project_name_pascal@),
        ("program_name_snake"@, ctx.program_name_snake@),
        ("program_name_kebab"@, ctx.program_name_kebab@),
        ("program_name_pascal"@, ctx.program_name_pascal@),
        ("instruction_name_snake"@, ctx.instruction_name_snake@),
        ("instruction_name_pascal"@, ctx.instruction_name_pascal@),
        ("typhoon_version"@, ctx.typhoon_version@),
        ("typhoon_builder_version"@, ctx.typhoon_builder_version@),
        ("typhoon_idl_version"@, ctx.typhoon_idl_version@),
    ]
}

pub open spec fn pairs_view(vars: Seq<(String, String)>) -> Seq<(Seq<char>, Seq<char>)> {
    vars.map_values(|p: (String, String)| (p.0@, p.1@))
}

/// What handlebars, in strict mode, renders of `template` with these variables, or
/// `None` when it refuses it.
pub uninterp spec fn rendered(template: Seq<char>, vars: Seq<(Seq<char>, Seq<char>)>) -> Option<
    Seq<char>,
>;

/// Renders `template` with handlebars' `render_template`, in strict mode, the
/// variables forming one map from names to strings. Claimed: the outcome depends on
/// the template and the variables alone; the error's text is handlebars' message.
#[verifier::external_body]
fn render_template(template: &str, vars: &Vec<(String, String)>) -> (r: Result<String, String>)
    ensures
        r matches Ok(s) ==> rendered(template@, pairs_view(vars@)) == Some(s@),
        r is Err ==> rendered(template@, pairs_view(vars@)) is None,
{
    let mut handlebars = handlebars::Handlebars::new();
    handlebars.set_strict_mode(true);
    let data: std::collections::BTreeMap<&str, &str> = vars.iter().map(
        |(k, v)| (k.as_str(), v.as_str()),
    ).collect();
    handlebars.render_template(template, &data).map_err(|e| e.to_string())
}

/// Why a file could not be rendered: the path template of the file, and handlebars'
/// message.
pub enum TemplateError {
    PathTemplate(String, String),
    ContentTemplate(String, String),
}

fn push_var(vars: &mut Vec<(String, String)>, name: &str, value: &String)
    ensures
        pairs_view(final(vars)@) == pairs_view(old(vars)@).push((name@, value@)),
{
    let ghost prev = vars@;
    vars.push((name.to_owned(), value.clone()));
    assert(pairs_view(vars@) =~= pairs_view(prev).push((name@, value@)));
}

impl TemplateContext {
    /// The variables that the templates see.
    pub fn vars(&self) -> (r: Vec<(String, String)>)
        ensures
            pairs_view(r@) == context_vars(*self),
    {
        let mut vars: Vec<(String, String)> = Vec::new();
        push_var(&mut vars, "project_name_snake", &self.project_name_snake);
        push_var(&mut vars, "project_name_kebab", &self.project_name_kebab);
        push_var(&mut vars, "project_name_pascal", &self.project_name_pascal);
        push_var(&mut vars, "program_name_snake", &self.program_name_snake);
        push_var(&mut vars, "program_name_kebab", &self.program_name_kebab);
        push_var(&mut vars, "program_name_pascal", &self.program_name_pascal);
        push_var(&mut vars, "instruction_name_snake", &self.instruction_name_snake);
        push_var(&mut vars, "instruction_name_pascal", &self.instruction_name_pascal);
        push_var(&mut vars, "typhoon_version", &self.typhoon_version);
        push_var(&mut vars, "typhoon_builder_version", &self.typhoon_builder_version);
        push_var(&mut vars, "typhoon_idl_version", &self.typhoon_idl_version);
        assert(pairs_view(vars@) =~= context_vars(*self));
        vars
    }

    /// Renders a file's path template and its content template with this context.
    pub fn render_file(&self, path_template: &str, content_template: &str) -> (r: Result<
        (String, String),
        TemplateError,
    >)
        ensures
            match r {
                Ok((path, content)) => rendered(path_template@, context_vars(*self)) == Some(path@)
                    && rendered(content_template@, context_vars(*self)) == Some(content@),
                Err(TemplateError::PathTemplate(p, _)) => p@ == path_template@ && rendered(
                    path_template@,
                    context_vars(*self),
                ) is None,
                Err(TemplateError::ContentTemplate(p, _)) => p@ == path_template@ && rendered(
                    path_template@,
                    context_vars(*self),
                ) is Some && rendered(content_template@, context_vars(*self)) is None,
            },
    {
        let vars = self.vars();
        let path = match render_template(path_template, &vars) {
            Ok(p) => p,
            Err(e) => {
                return Err(TemplateError::PathTemplate(path_template.to_owned(), e));
            },
        };
        let content = match render_template(content_template, &vars) {
            Ok(c) => c,
            Err(e) => {
                return Err(TemplateError::ContentTemplate(path_template.to_owned(), e));
            },
        };
        Ok((path, content))
    }
}

/// The content template of a program file is named after the file: the file at
/// `programs/<snake><p>` is rendered from `programs<p>.template`, for the same `p`,
/// file by file.
pub proof fn law_program_file_templates_match_paths(snake: Seq<char>)
    ensures
        forall|i: int|
            0 <= i < program_files(snake).len() ==> exists|p: Seq<char>|
                #![trigger program_path(snake, p)]
                #[trigger] program_files(snake)[i] == (program_path(snake, p), "programs"@ + p + ".template"@),
{
    reveal_strlit("programs");
    reveal_strlit(".template");
    reveal_strlit("/Cargo.toml");
    reveal_strlit("programs/Cargo.toml.template");
    assert("programs/Cargo.toml.template"@ =~= "programs"@ + "/Cargo.toml"@ + ".template"@);
    assert(program_files(snake)[0] == (program_path(snake, "/Cargo.toml"@), "programs"@ + "/Cargo.toml"@ + ".template"@));
    reveal_strlit("/build.rs");
    reveal_strlit("programs/build.rs.template");
    assert("programs/build.rs.template"@ =~= "programs"@ + "/build.rs"@ + ".template"@);
    assert(program_files(snake)[1] == (program_path(snake, "/build.rs"@), "programs"@ + "/build.rs"@ + ".template"@));
    reveal_strlit("/src/lib.rs");
    reveal_strlit("programs/src/lib.rs.template");
    assert("programs/src/lib.rs.template"@ =~= "programs"@ + "/src/lib.rs"@ + ".template"@);
    assert(program_files(snake)[2] == (program_path(snake, "/src/lib.rs"@), "programs"@ + "/src/lib.rs"@ + ".template"@));
    reveal_strlit("/src/state/mod.rs");
    reveal_strlit("programs/src/state/mod.rs.template");
    assert("programs/src/state/mod.rs.template"@ =~= "programs"@ + "/src/state/mod.rs"@ + ".template"@);
    assert(program_files(snake)[3] == (program_path(snake, "/src/state/mod.rs"@), "programs"@ + "/src/state/mod.rs"@ + ".template"@));
    reveal_strlit("/src/state/counter.rs");
    reveal_strlit("programs/src/state/counter.rs.template");
    assert("programs/src/state/counter.rs.template"@ =~= "programs"@ + "/src/state/counter.rs"@ + ".template"@);
    assert(program_files(snake)[4] == (program_path(snake, "/src/state/counter.rs"@), "programs"@ + "/src/state/counter.rs"@ + ".template"@));
    reveal_strlit("/src/handlers/mod.rs");
    reveal_strlit("programs/src/handlers/mod.rs.template");
    assert("programs/src/handlers/mod.rs.template"@ =~= "programs"@ + "/src/handlers/mod.rs"@ + ".template"@);
    assert(program_files(snake)[5] == (program_path(snake, "/src/handlers/mod.rs"@), "programs"@ + "/src/handlers/mod.rs"@ + ".template"@));
    reveal_strlit("/src/handlers/initialize.rs");
    reveal_strlit("programs/src/handlers/initialize.rs.template");
    assert("programs/src/handlers/initialize.rs.template"@ =~= "programs"@ + "/src/handlers/initialize.rs"@ + ".template"@);
    assert(program_files(snake)[6] == (program_path(snake, "/src/handlers/initialize.rs"@), "programs"@ + "/src/handlers/initialize.rs"@ + ".template"@));
    reveal_strlit("/src/handlers/close.rs");
    reveal_strlit("programs/src/handlers/close.rs.template");
    assert("programs/src/handlers/close.rs.template"@ =~= "programs"@ + "/src/handlers/close.rs"@ + ".template"@);
    assert(program_files(snake)[7] == (program_path(snake, "/src/handlers/close.rs"@), "programs"@ + "/src/handlers/close.rs"@ + ".template"@));
    reveal_strlit("/src/handlers/increment.rs");
    reveal_strlit("programs/src/handlers/increment.rs.template");
    assert("programs/src/handlers/increment.rs.template"@ =~= "programs"@ + "/src/handlers/increment.rs"@ + ".template"@);
    assert(program_files(snake)[8] == (program_path(snake, "/src/handlers/increment.rs"@), "programs"@ + "/src/handlers/increment.rs"@ + ".template"@));
    reveal_strlit("/src/contexts/mod.rs");
    reveal_strlit("programs/src/contexts/mod.rs.template");
    assert("programs/src/contexts/mod.rs.template"@ =~= "programs"@ + "/src/contexts/mod.rs"@ + ".template"@);
    assert(program_files(snake)[9] == (program_path(snake, "/src/contexts/mod.rs"@), "programs"@ + "/src/contexts/mod.rs"@ + ".template"@));
    assert forall|i: int| 0 <= i < program_files(snake).len() implies exists|p: Seq<char>|
        #![trigger program_path(snake, p)]
        #[trigger] program_files(snake)[i] == (program_path(snake, p), "programs"@ + p + ".template"@) by {
        if i == 0 {
            assert(program_files(snake)[i] == (program_path(snake, "/Cargo.toml"@), "programs"@ + "/Cargo.toml"@ + ".template"@));
        }
        if i == 1 {
            assert(program_files(snake)[i] == (program_path(snake, "/build.rs"@), "programs"@ + "/build.rs"@ + ".template"@));
        }
        if i == 2 {
            assert(program_files(snake)[i] == (program_path(snake, "/src/lib.rs"@), "programs"@ + "/src/lib.rs"@ + ".template"@));
        }
        if i == 3 {
            assert(program_files(snake)[i] == (program_path(snake, "/src/state/mod.rs"@), "programs"@ + "/src/state/mod.rs"@ + ".template"@));
        }
        if i == 4 {
            assert(program_files(snake)[i] == (program_path(snake, "/src/state/counter.rs"@), "programs"@ + "/src/state/counter.rs"@ + ".template"@));
        }
        if i == 5 {
            assert(program_files(snake)[i] == (program_path(snake, "/src/handlers/mod.rs"@), "programs"@ + "/src/handlers/mod.rs"@ + ".template"@));
        }
        if i == 6 {
            assert(program_files(snake)[i] == (program_path(snake, "/src/handlers/initialize.rs"@), "programs"@ + "/src/handlers/initialize.rs"@ + ".template"@));
        }
        if i == 7 {
            assert(program_files(snake)[i] == (program_path(snake, "/src/handlers/close.rs"@), "programs"@ + "/src/handlers/close.rs"@ + ".template"@));
        }
        if i == 8 {
            assert(program_files(snake)[i] == (program_path(snake, "/src/handlers/increment.rs"@), "programs"@ + "/src/handlers/increment.rs"@ + ".template"@));
        }
        if i == 9 {
            assert(program_files(snake)[i] == (program_path(snake, "/src/contexts/mod.rs"@), "programs"@ + "/src/contexts/mod.rs"@ + ".template"@));
        }
    }
}

/// How a file of a new workspace or of an added program gets its content template:
/// a program file from the program template at the same relative path, the program's
/// test file from the integration test template, and any other file from the
/// template named after it.
pub open spec fn template_matches(snake: Seq<char>, path: Seq<char>, template: Seq<char>) -> bool {
    ||| exists|p: Seq<char>|
        #![trigger program_path(snake, p)]
        path == program_path(snake, p) && template == "programs"@ + p + ".template"@
    ||| (path == program_test_file(snake).0 && template == "tests/tests/integration.rs.template"@)
    ||| template == path + ".template"@
}

/// Every file of a new workspace, and every file that adding a program generates, is
/// rendered from the template that matches its path.
pub proof fn law_generated_files_use_matching_templates(snake: Seq<char>)
    ensures
        forall|i: int|
            0 <= i < workspace_files(snake).len() ==> template_matches(
                snake,
                #[trigger] workspace_files(snake)[i].0,
                workspace_files(snake)[i].1,
            ),
        forall|i: int|
            0 <= i < added_program_files(snake).len() ==> template_matches(
                snake,
                #[trigger] added_program_files(snake)[i].0,
                added_program_files(snake)[i].1,
            ),
{
    law_program_file_templates_match_paths(snake);
    let pf = program_files(snake);
    reveal_strlit("Cargo.toml");
    reveal_strlit("Cargo.toml.template");
    reveal_strlit("tests/Cargo.toml");
    reveal_strlit("tests/Cargo.toml.template");
    reveal_strlit("tests/src/lib.rs");
    reveal_strlit("tests/src/lib.rs.template");
    reveal_strlit(".template");
    assert("Cargo.toml.template"@ =~= "Cargo.toml"@ + ".template"@);
    assert("tests/Cargo.toml.template"@ =~= "tests/Cargo.toml"@ + ".template"@);
    assert("tests/src/lib.rs.template"@ =~= "tests/src/lib.rs"@ + ".template"@);
    let w = workspace_files(snake);
    assert forall|i: int| 0 <= i < w.len() implies template_matches(snake, #[trigger] w[i].0, w[i].1) by {
        if 1 <= i <= pf.len() {
            assert(w[i] == pf[i - 1]);
            assert(exists|p: Seq<char>|
                #![trigger program_path(snake, p)]
                #[trigger] pf[i - 1] == (program_path(snake, p), "programs"@ + p + ".template"@));
        }
    }
    let a = added_program_files(snake);
    assert forall|i: int| 0 <= i < a.len() implies template_matches(snake, #[trigger] a[i].0, a[i].1) by {
        if i < pf.len() {
            assert(a[i] == pf[i]);
            assert(exists|p: Seq<char>|
                #![trigger program_path(snake, p)]
                #[trigger] pf[i] == (program_path(snake, p), "programs"@ + p + ".template"@));
        }
    }
}

} // verus!
