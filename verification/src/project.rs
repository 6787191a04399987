//! Edits that adding a program or a handler makes to a workspace's files, and the
//! checks on the names of a new project.
use crate::naming::{is_valid_name, kebab_case, snake_case, to_kebab_case, to_snake_case, valid_name};
use crate::text::{
    decimal, decimal_string, join_lines, join_text_lines, parse_unsigned_i32, parsed_i32,
    split_lines, split_text_lines, starts_with, starts_with_after_spaces, trim_start,
};
use vstd::prelude::*;
use vstd::string::StringExecFns;

verus! {

/// The index of the last line that starts, after its leading whitespace, with `use `,
/// among the first `k`; -1 when none does.
pub open spec fn last_use_line(lines: Seq<Seq<char>>, k: nat) -> int
    decreases k,
{
    if k == 0 {
        -1
    } else if starts_with(trim_start(lines[k - 1]), "use "@) {
        k - 1
    } else {
        last_use_line(lines, (k - 1) as nat)
    }
}

/// A module file after a module `name` was added: `mod name;` first, and
/// `pub use name::*;` after the last `use` line, or second when there is none.
pub open spec fn mod_file_added(lines: Seq<Seq<char>>, name: Seq<char>) -> Seq<Seq<char>> {
    let snake = snake_case(name);
    let doc = seq!["mod "@ + snake + ";"@] + lines;
    let last = last_use_line(doc, doc.len());
    let at = if last >= 0 {
        last + 1
    } else {
        1
    };
    doc.insert(at, "pub use "@ + snake + "::*;"@)
}

/// Adds module `mod_name` to the lines of a module file.
pub fn update_mod_lines(lines: &Vec<String>, mod_name: &str) -> (r: Vec<String>)
    ensures
        r.deep_view() == mod_file_added(lines.deep_view(), mod_name@),
{
    let snake = to_snake_case(mod_name);
    let mod_line = "mod ".to_owned().concat(snake.as_str()).concat(";");
    let use_line = "pub use ".to_owned().concat(snake.as_str()).concat("::*;");
    let ghost doc = seq![mod_line@] + lines.deep_view();
    let mut out: Vec<String> = Vec::new();
    out.push(mod_line);
    let mut i: usize = 0;
    while i < lines.len()
        invariant
            i <= lines@.len(),
            doc == seq![mod_line@] + lines.deep_view(),
            out.deep_view() == doc.take(i + 1),
        decreases lines@.len() - i,
    {
        let ghost prev = out.deep_view();
        out.push(lines[i].clone());
        assert(out.deep_view() =~= prev.push(lines@[i as int]@));
        assert(doc.take(i + 2) =~= doc.take(i + 1).push(doc[i + 1]));
        i = i + 1;
    }
    assert(doc.take(lines@.len() + 1 as int) =~= doc);
    let mut k: usize = out.len();
    let mut found = false;
    while k > 0 && !found
        invariant
            k <= out@.len(),
            out.deep_view() == doc,
            last_use_line(doc, doc.len()) == last_use_line(doc, k as nat),
            found ==> k > 0 && starts_with(trim_start(doc[k - 1]), "use "@),
        decreases k + if found { 0int } else { 1int },
    {
        assert(doc[k - 1] == out@[k - 1]@);
        if starts_with_after_spaces(out[k - 1].as_str(), "use ") {
            found = true;
        } else {
            k = k - 1;
        }
    }
    let at = if found {
        k
    } else {
        1
    };
    let ghost prev = out.deep_view();
    out.insert(at, use_line);
    assert(out.deep_view() =~= prev.insert(at as int, use_line@));
    out
}

/// Adds module `mod_name` to the text of a module file.
pub fn update_mod_text(content: &str, mod_name: &str) -> (r: String)
    ensures
        r@ == join_lines(mod_file_added(split_lines(content@), mod_name@)),
{
    let lines = split_text_lines(content);
    let updated = update_mod_lines(&lines, mod_name);
    join_text_lines(&updated)
}

/// What the instruction number pattern of a router line captures: the digits of
/// `^\s*(\d+)\s*=>\s*([\w_]+),`, when the line matches.
pub uninterp spec fn router_entry_capture(line: Seq<char>) -> Option<Seq<char>>;

/// Matches the router entry pattern with the `regex` crate and gives the text of its
/// first group. Claimed: the result depends on the line alone, and a captured group
/// is made of `\d` characters, so it is not empty and has no sign.
#[verifier::external_body]
fn capture_router_entry(line: &str) -> (r: Option<String>)
    ensures
        r matches Some(d) ==> router_entry_capture(line@) == Some(d@),
        r is None ==> router_entry_capture(line@) is None,
        r matches Some(d) ==> d@.len() > 0 && d@[0] != '+' && d@[0] != '-',
{
    let pattern = regex::Regex::new(r"^\s*(\d+)\s*=>\s*([\w_]+),").unwrap();
    pattern.captures(line).map(|cap| cap[1].to_string())
}

/// The instruction number that a router line declares, if it declares one that fits
/// an `i32`.
pub open spec fn entry_number(line: Seq<char>) -> Option<i32> {
    match router_entry_capture(line) {
        Some(digits) => parsed_i32(digits),
        None => None,
    }
}

/// The instruction number of a router line.
pub fn router_entry_number(line: &str) -> (r: Option<i32>)
    ensures
        r == entry_number(line@),
{
    match capture_router_entry(line) {
        Some(digits) => parse_unsigned_i32(digits.as_str()),
        None => None,
    }
}

/// The header of the router in a program's `lib.rs`.
pub open spec fn router_header() -> Seq<char> {
    "pub const ROUTER: EntryFn = basic_router! {"@
}

/// The first line at or after `from` that starts, after its leading whitespace, with
/// `prefix`; -1 when none does.
pub open spec fn first_line_from(lines: Seq<Seq<char>>, prefix: Seq<char>, from: int) -> int
    decreases lines.len() - from,
{
    if from < 0 || from >= lines.len() {
        -1
    } else if starts_with(trim_start(lines[from]), prefix) {
        from
    } else {
        first_line_from(lines, prefix, from + 1)
    }
}

/// The largest instruction number declared by lines `lo` to `hi - 1`, at least -1.
pub open spec fn last_entry_number(lines: Seq<Seq<char>>, lo: int, hi: int) -> int
    decreases hi - lo,
{
    if hi <= lo {
        -1
    } else {
        let prev = last_entry_number(lines, lo, hi - 1);
        match entry_number(lines[hi - 1]) {
            Some(v) => if v > prev {
                v as int
            } else {
                prev
            },
            None => prev,
        }
    }
}

/// Why a router could not be extended.
#[derive(Debug, Clone, Copy, PartialEq, Eq, Structural)]
pub enum RouterError {
    /// No line holds the router header.
    RouterNotFound,
    /// No line closes the router.
    RouterEndNotFound,
    /// The largest instruction number is `i32::MAX`, so no next number exists.
    IndexOverflow,
}

/// The router line for instruction `number`, handled by `handler`.
pub open spec fn router_line(number: nat, handler: Seq<char>) -> Seq<char> {
    "    "@ + decimal(number) + " => "@ + handler + ","@
}

/// A program's `lib.rs` lines after instruction `instruction` was added to its router:
/// a line for the next instruction number, just before the line that closes the router.
pub open spec fn router_added(lines: Seq<Seq<char>>, instruction: Seq<char>) -> Result<
    Seq<Seq<char>>,
    RouterError,
> {
    let start = first_line_from(lines, router_header(), 0);
    if start < 0 {
        Err(RouterError::RouterNotFound)
    } else {
        let end = first_line_from(lines, "};"@, start);
        if end < 0 {
            Err(RouterError::RouterEndNotFound)
        } else {
            let last = last_entry_number(lines, start + 1, end);
            if last >= i32::MAX {
                Err(RouterError::IndexOverflow)
            } else {
                Ok(lines.insert(end, router_line((last + 1) as nat, snake_case(instruction))))
            }
        }
    }
}

fn first_line_index(lines: &Vec<String>, prefix: &str, from: usize) -> (r: Option<usize>)
    requires
        from <= lines@.len(),
    ensures
        match r {
            Some(i) => first_line_from(lines.deep_view(), prefix@, from as int) == i as int && from
                <= i < lines@.len(),
            None => first_line_from(lines.deep_view(), prefix@, from as int) == -1,
        },
{
    let mut i: usize = from;
    while i < lines.len()
        invariant
            from <= i <= lines@.len(),
            first_line_from(lines.deep_view(), prefix@, from as int) == first_line_from(
                lines.deep_view(),
                prefix@,
                i as int,
            ),
        decreases lines@.len() - i,
    {
        assert(lines.deep_view()[i as int] == lines@[i as int]@);
        if starts_with_after_spaces(lines[i].as_str(), prefix) {
            return Some(i);
        }
        i = i + 1;
    }
    None
}

/// Adds instruction `instruction` to the router of a program's `lib.rs` lines.
pub fn add_router_instruction(lines: &Vec<String>, instruction: &str) -> (r: Result<
    Vec<String>,
    RouterError,
>)
    ensures
        match r {
            Ok(new_lines) => router_added(lines.deep_view(), instruction@) == Ok::<
                Seq<Seq<char>>,
                RouterError,
            >(new_lines.deep_view()),
            Err(e) => router_added(lines.deep_view(), instruction@) == Err::<
                Seq<Seq<char>>,
                RouterError,
            >(e),
        },
{
    let ghost lv = lines.deep_view();
    let header = "pub const ROUTER: EntryFn = basic_router! {";
    let start = match first_line_index(lines, header, 0) {
        Some(s) => s,
        None => {
            return Err(RouterError::RouterNotFound);
        },
    };
    let end = match first_line_index(lines, "};", start) {
        Some(e) => e,
        None => {
            return Err(RouterError::RouterEndNotFound);
        },
    };
    let n: usize = lines.len();
    assert(start < n && start <= end);
    let mut last: i32 = -1;
    let mut i: usize = start + 1;
    assert(last_entry_number(lv, start + 1, start + 1) == -1);
    while i < end
        invariant
            lv == lines.deep_view(),
            start <= end < lines@.len(),
            start + 1 <= i,
            i <= end || i == start + 1,
            last == last_entry_number(lv, start + 1, i as int),
            last >= -1,
        decreases end - i,
    {
        assert(lv[i as int] == lines@[i as int]@);
        match router_entry_number(lines[i].as_str()) {
            Some(idx) => {
                if idx > last {
                    last = idx;
                }
            },
            None => {},
        }
        i = i + 1;
    }
    proof {
        if i != end {
            assert(last_entry_number(lv, start + 1, end as int) == -1);
        }
    }
    if last == i32::MAX {
        return Err(RouterError::IndexOverflow);
    }
    let number = decimal_string((last + 1) as u64);
    let snake = to_snake_case(instruction);
    let line = "    ".to_owned().concat(number.as_str()).concat(" => ").concat(snake.as_str()).concat(
        ",",
    );
    let mut out: Vec<String> = Vec::new();
    let mut k: usize = 0;
    while k < lines.len()
        invariant
            k <= lines@.len(),
            lv == lines.deep_view(),
            out.deep_view() == lv.take(k as int),
        decreases lines@.len() - k,
    {
        let ghost prev = out.deep_view();
        out.push(lines[k].clone());
        assert(out.deep_view() =~= prev.push(lv[k as int]));
        assert(lv.take(k + 1) =~= lv.take(k as int).push(lv[k as int]));
        k = k + 1;
    }
    assert(lv.take(lv.len() as int) =~= lv);
    let ghost prev = out.deep_view();
    out.insert(end, line);
    assert(out.deep_view() =~= prev.insert(end as int, line@));
    Ok(out)
}

/// A value to store in a TOML document.
pub enum TomlValue {
    Str(String),
    Bool(bool),
}

/// A dotted key path and the value to store there.
pub struct TomlEntry {
    pub path: String,
    pub value: TomlValue,
}

/// The entries that adding program `program` writes to the workspace manifest and to
/// the tests manifest.
pub fn program_manifest_entries(program: &str) -> (r: (Vec<TomlEntry>, Vec<TomlEntry>))
    ensures
        r.0@.len() == 1,
        r.0@[0].path@ == "workspace.dependencies."@ + kebab_case(program@) + ".path"@,
        r.0@[0].value matches TomlValue::Str(v) && v@ == "programs/"@ + snake_case(program@),
        r.1@.len() == 2,
        r.1@[0].path@ == "package.metadata.typhoon.builder-dependencies."@ + snake_case(
            program@,
        ) + ".path"@,
        r.1@[0].value matches TomlValue::Str(v) && v@ == "../programs/"@ + snake_case(program@),
        r.1@[1].path@ == "dev-dependencies."@ + kebab_case(program@) + ".workspace"@,
        r.1@[1].value == TomlValue::Bool(true),
{
    let snake = to_snake_case(program);
    let kebab = to_kebab_case(program);
    let mut workspace: Vec<TomlEntry> = Vec::new();
    workspace.push(
        TomlEntry {
            path: "workspace.dependencies.".to_owned().concat(kebab.as_str()).concat(".path"),
            value: TomlValue::Str("programs/".to_owned().concat(snake.as_str())),
        },
    );
    let mut tests: Vec<TomlEntry> = Vec::new();
    tests.push(
        TomlEntry {
            path: "package.metadata.typhoon.builder-dependencies.".to_owned().concat(
                snake.as_str(),
            ).concat(".path"),
            value: TomlValue::Str("../programs/".to_owned().concat(snake.as_str())),
        },
    );
    tests.push(
        TomlEntry {
            path: "dev-dependencies.".to_owned().concat(kebab.as_str()).concat(".workspace"),
            value: TomlValue::Bool(true),
        },
    );
    (workspace, tests)
}

/// Why the names of a new project were refused.
#[derive(Debug, Clone, Copy, PartialEq, Eq, Structural)]
pub enum NameError {
    InvalidProjectName,
    InvalidProgramName,
}

/// Checks the names of a new project: the project name, then the program name when one
/// is given.
pub fn check_new_project_names(project_name: &str, program_name: &Option<String>) -> (r: Result<
    (),
    NameError,
>)
    ensures
        !valid_name(project_name@) ==> r == Err::<(), NameError>(NameError::InvalidProjectName),
        valid_name(project_name@) ==> match program_name {
            Some(p) => if valid_name(p@) {
                r is Ok
            } else {
                r == Err::<(), NameError>(NameError::InvalidProgramName)
            },
            None => r is Ok,
        },
{
    if !is_valid_name(project_name) {
        return Err(NameError::InvalidProjectName);
    }
    match program_name {
        Some(p) => {
            if !is_valid_name(p.as_str()) {
                return Err(NameError::InvalidProgramName);
            }
        },
        None => {},
    }
    Ok(())
}

/// Why a program could not be added.
#[derive(Debug, Clone, Copy, PartialEq, Eq, Structural)]
pub enum AddProgramError {
    EmptyName,
}

/// Checks the name of a program to add: it must not be empty.
pub fn check_program_name(program: &str) -> (r: Result<(), AddProgramError>)
    ensures
        r is Ok <==> program@.len() > 0,
        r matches Err(e) ==> e == AddProgramError::EmptyName,
{
    if program.is_empty() {
        Err(AddProgramError::EmptyName)
    } else {
        Ok(())
    }
}


/// The name of the directory of a new project: the project's name in kebab case.
pub fn project_dir_name(project_name: &str) -> (r: String)
    ensures
        r@ == kebab_case(project_name@),
{
    to_kebab_case(project_name)
}

/// The path, from the project directory, of a program's directory: the program is
/// refused when it exists.
pub fn program_dir(program: &str) -> (r: Vec<String>)
    ensures
        r.deep_view() == seq!["programs"@, snake_case(program@)],
{
    let r = vec![String::from_str("programs"), to_snake_case(program)];
    assert(r.deep_view() =~= seq!["programs"@, snake_case(program@)]);
    r
}

/// Where adding a handler looks and writes, from the project directory.
pub struct HandlerPaths {
    /// The directory whose existence refuses the handler.
    pub existing: Vec<String>,
    /// The source directory of the program that gets the handler.
    pub program_src: Vec<String>,
    /// The module of the handler, added to the program's `contexts` and `handlers`.
    pub module: String,
}

/// The paths of a handler `instruction` of `program`.
pub fn handler_paths(program: &str, instruction: &str) -> (r: HandlerPaths)
    ensures
        r.existing.deep_view() == seq!["handlers"@, snake_case(instruction@)],
        r.program_src.deep_view() == seq!["programs"@, snake_case(program@), "src"@],
        r.module@ == snake_case(instruction@),
{
    let existing = vec![String::from_str("handlers"), to_snake_case(instruction)];
    let program_src = vec![String::from_str("programs"), to_snake_case(program), String::from_str("src")];
    assert(existing.deep_view() =~= seq!["handlers"@, snake_case(instruction@)]);
    assert(program_src.deep_view() =~= seq!["programs"@, snake_case(program@), "src"@]);
    HandlerPaths { existing, program_src, module: to_snake_case(instruction) }
}

} // verus!
