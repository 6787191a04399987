//! The files of a new single-program workspace named after its project, and the
//! values their templates are rendered with.
use crate::naming::{
    kebab_case, pascal_case, snake_case, title_case, to_kebab_case, to_pascal_case,
    to_snake_case, to_title_case,
};
use crate::templates::{files_view, program_files, push_file, push_program_files, TemplateFile};
use vstd::prelude::*;

verus! {

/// The values that the templates of a new project refer to.
pub struct TemplateContext {
    pub project_name_snake: String,
    pub project_name_kebab: String,
    pub project_name_title: String,
    pub project_name_pascal: String,
    pub typhoon_version: String,
    pub typhoon_builder_version: String,
    pub typhoon_idl_version: String,
}

/// A named set of files to generate.
pub struct Template {
    pub name: String,
    pub files: Vec<TemplateFile>,
}

/// The files of a new workspace whose program is named after the project, `snake`
/// being the project's snake-case name.
pub open spec fn project_workspace_files(snake: Seq<char>) -> Seq<(Seq<char>, Seq<char>)> {
    seq![("Cargo.toml"@, "Cargo.toml.template"@)] + program_files(snake) + seq![
        ("tests/Cargo.toml"@, "tests/Cargo.toml.template"@),
        ("tests/src/lib.rs"@, "tests/src/lib.rs.template"@),
        ("tests/tests/integration.rs"@, "tests/tests/integration.rs.template"@),
    ]
}

impl Template {
    /// The files of a new workspace for project `project_name`.
    pub fn workspace(project_name: &str) -> (r: Self)
        ensures
            r.name@ == "workspace"@,
            files_view(r.files@) == project_workspace_files(snake_case(project_name@)),
    {
        let snake = to_snake_case(project_name);
        let mut files: Vec<TemplateFile> = Vec::new();
        assert(files_view(files@) =~= Seq::empty());
        push_file(&mut files, "Cargo.toml".to_owned(), "Cargo.toml.template");
        push_program_files(&mut files, &snake);
        push_file(&mut files, "tests/Cargo.toml".to_owned(), "tests/Cargo.toml.template");
        push_file(&mut files, "tests/src/lib.rs".to_owned(), "tests/src/lib.rs.template");
        push_file(
            &mut files,
            "tests/tests/integration.rs".to_owned(),
            "tests/tests/integration.rs.template",
        );
        assert(files_view(files@) =~= project_workspace_files(snake@));
        Template { name: "workspace".to_owned(), files }
    }
}

impl TemplateContext {
    /// The values for project `project_name`, depending on the framework's crates as
    /// `typhoon`, `builder` and `idl` say.
    pub fn for_project(project_name: &str, typhoon: String, builder: String, idl: String) -> (r:
        Self)
        ensures
            r.project_name_snake@ == snake_case(project_name@),
            r.project_name_kebab@ == kebab_case(project_name@),
            r.project_name_title@ == title_case(project_name@),
            r.project_name_pascal@ == pascal_case(project_name@),
            r.typhoon_version == typhoon,
            r.typhoon_builder_version == builder,
            r.typhoon_idl_version == idl,
    {
        TemplateContext {
            project_name_snake: to_snake_case(project_name),
            project_name_kebab: to_kebab_case(project_name),
            project_name_title: to_title_case(project_name),
            project_name_pascal: to_pascal_case(project_name),
            typhoon_version: typhoon,
            typhoon_builder_version: builder,
            typhoon_idl_version: idl,
        }
    }
}

} // verus!
