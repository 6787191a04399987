//! Names of projects, programs and instructions: validity and case conversions.
use crate::text::same_str;
use vstd::prelude::*;
use vstd::string::StrSliceExecFns;

verus! {

/// What heck's `ToSnakeCase::to_snake_case` makes of a string.
pub uninterp spec fn snake_case(s: Seq<char>) -> Seq<char>;

/// What heck's `ToKebabCase::to_kebab_case` makes of a string.
pub uninterp spec fn kebab_case(s: Seq<char>) -> Seq<char>;

/// What heck's `ToPascalCase::to_pascal_case` makes of a string.
pub uninterp spec fn pascal_case(s: Seq<char>) -> Seq<char>;

/// What heck's `ToTitleCase::to_title_case` makes of a string.
pub uninterp spec fn title_case(s: Seq<char>) -> Seq<char>;

/// heck's `to_snake_case`. Claimed: the result depends on the characters of `s` alone.
#[verifier::external_body]
pub(crate) fn to_snake_case(s: &str) -> (r: String)
    ensures
        r@ == snake_case(s@),
{
    heck::ToSnakeCase::to_snake_case(s)
}

/// heck's `to_kebab_case`. Claimed: the result depends on the characters of `s` alone.
#[verifier::external_body]
pub(crate) fn to_kebab_case(s: &str) -> (r: String)
    ensures
        r@ == kebab_case(s@),
{
    heck::ToKebabCase::to_kebab_case(s)
}

/// heck's `to_pascal_case`. Claimed: the result depends on the characters of `s` alone.
#[verifier::external_body]
pub(crate) fn to_pascal_case(s: &str) -> (r: String)
    ensures
        r@ == pascal_case(s@),
{
    heck::ToPascalCase::to_pascal_case(s)
}

/// heck's `to_title_case`. Claimed: the result depends on the characters of `s` alone.
#[verifier::external_body]
pub(crate) fn to_title_case(s: &str) -> (r: String)
    ensures
        r@ == title_case(s@),
{
    heck::ToTitleCase::to_title_case(s)
}

/// What `char::is_alphabetic` answers for a character beyond ASCII (the Unicode
/// Alphabetic property).
pub uninterp spec fn char_is_alphabetic(c: char) -> bool;

/// What `char::is_alphanumeric` answers for a character beyond ASCII.
pub uninterp spec fn char_is_alphanumeric(c: char) -> bool;

/// An ASCII letter.
pub open spec fn ascii_letter(c: char) -> bool {
    ('a' <= c && c <= 'z') || ('A' <= c && c <= 'Z')
}

/// An ASCII digit.
pub open spec fn ascii_digit(c: char) -> bool {
    '0' <= c && c <= '9'
}

/// Whether `c` is alphabetic: among ASCII characters, the letters.
pub open spec fn alphabetic(c: char) -> bool {
    if (c as u32) < 0x80 {
        ascii_letter(c)
    } else {
        char_is_alphabetic(c)
    }
}

/// Whether `c` is alphanumeric: among ASCII characters, the letters and the digits.
pub open spec fn alphanumeric(c: char) -> bool {
    if (c as u32) < 0x80 {
        ascii_letter(c) || ascii_digit(c)
    } else {
        char_is_alphanumeric(c)
    }
}

/// `char::is_alphabetic`. Claimed: among ASCII characters it holds of the letters
/// alone, the only ASCII characters with the Unicode Alphabetic property; beyond
/// ASCII, the answer depends on the character alone.
#[verifier::external_body]
fn is_alphabetic(c: char) -> (r: bool)
    ensures
        (c as u32) < 0x80 ==> r == ascii_letter(c),
        (c as u32) >= 0x80 ==> r == char_is_alphabetic(c),
{
    c.is_alphabetic()
}

/// `char::is_alphanumeric`. Claimed: among ASCII characters it holds of the letters
/// and the digits alone; beyond ASCII, the answer depends on the character alone and,
/// as its documentation says (alphabetic or numeric), holds of every alphabetic one.
#[verifier::external_body]
fn is_alphanumeric(c: char) -> (r: bool)
    ensures
        (c as u32) < 0x80 ==> r == (ascii_letter(c) || ascii_digit(c)),
        (c as u32) >= 0x80 ==> r == char_is_alphanumeric(c),
        (c as u32) >= 0x80 && char_is_alphabetic(c) ==> r,
{
    c.is_alphanumeric()
}

/// The words that cannot name a project or a program.
pub open spec fn is_reserved_word(s: Seq<char>) -> bool {
    ||| s == "mod"@
    ||| s == "fn"@
    ||| s == "pub"@
    ||| s == "use"@
    ||| s == "struct"@
    ||| s == "enum"@
    ||| s == "impl"@
    ||| s == "self"@
    ||| s == "super"@
    ||| s == "crate"@
}

pub open spec fn is_name_char(c: char) -> bool {
    alphanumeric(c) || c == '_' || c == '-'
}

/// A valid name starts with a letter, `_` or `-`, holds only alphanumeric characters,
/// `_` and `-`, is neither `_` nor `-` alone, and is not a reserved word.
pub open spec fn valid_name(s: Seq<char>) -> bool {
    &&& s.len() > 0
    &&& (alphabetic(s[0]) || s[0] == '_' || s[0] == '-')
    &&& forall|i: int| 0 <= i < s.len() ==> is_name_char(#[trigger] s[i])
    &&& s != "_"@
    &&& s != "-"@
    &&& !is_reserved_word(s)
}

/// Whether `s` can name a project or a program.
pub fn is_valid_name(s: &str) -> (r: bool)
    ensures
        r == valid_name(s@),
{
    let n = s.unicode_len();
    if n == 0 {
        return false;
    }
    let first = s.get_char(0);
    if !(is_alphabetic(first) || first == '_' || first == '-') {
        return false;
    }
    let mut i: usize = 0;
    while i < n
        invariant
            n == s@.len(),
            i <= n,
            forall|j: int| 0 <= j < i ==> is_name_char(#[trigger] s@[j]),
        decreases n - i,
    {
        let c = s.get_char(i);
        if !(is_alphanumeric(c) || c == '_' || c == '-') {
            assert(!is_name_char(s@[i as int]));
            return false;
        }
        i = i + 1;
    }
    if same_str(s, "_") || same_str(s, "-") {
        return false;
    }
    !(same_str(s, "mod") || same_str(s, "fn") || same_str(s, "pub") || same_str(s, "use")
        || same_str(s, "struct") || same_str(s, "enum") || same_str(s, "impl") || same_str(
        s,
        "self",
    ) || same_str(s, "super") || same_str(s, "crate"))
}

} // verus!
