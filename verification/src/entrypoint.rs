//! How the constructor generated for a context takes its accounts from those handed
//! to an instruction.
use crate::account::AccountInfo;
use crate::generators::{account_layout, fixed_names, generic_arrays, Context, GeneratorResult};
use crate::remover::Attribute;
use crate::text::{decimal, decimal_string};
use vstd::prelude::*;
use vstd::string::StringExecFns;

verus! {

/// Why the accounts handed to an instruction could not be split.
#[derive(Debug, Clone, Copy, PartialEq, Eq, Structural)]
pub enum SplitError {
    /// Fewer accounts than the context takes.
    NotEnoughAccountKeys,
}

/// The accounts of an instruction as the constructor of a context splits them.
pub struct AccountSplit<'a> {
    /// Each name bound to a fixed account, with that account, in order.
    pub bound: Vec<(String, &'a AccountInfo)>,
    /// The accounts of each array sized by a const generic parameter, in order.
    pub arrays: Vec<&'a [AccountInfo]>,
    /// The accounts handed back to the caller.
    pub rest: &'a [AccountInfo],
}

/// The number of accounts taken by the first `j` arrays sized by a const generic
/// parameter, whose lengths are `sizes`.
pub open spec fn generic_taken(sizes: Seq<usize>, j: int) -> int
    decreases j,
{
    if j <= 0 {
        0
    } else {
        generic_taken(sizes, j - 1) + sizes[j - 1]
    }
}

/// The name that the constructor binds to fixed account `i`: the account's name from
/// the layout; `fixed_<i>` when the context has arrays sized by a const generic
/// parameter, as the constructor then destructures the fixed accounts.
pub open spec fn bound_name(names: Seq<Seq<char>>, has_generic: bool, i: int) -> Seq<char> {
    if has_generic {
        "fixed_"@ + decimal(i as nat)
    } else {
        names[i]
    }
}

/// The number of arrays of a context sized by a const generic parameter.
pub open spec fn generic_count(context: Context) -> int {
    generic_arrays(context.accounts@, context.accounts@.len() as int).len() as int
}

/// Splits the accounts handed to an instruction as the generated constructor does.
/// The fixed accounts come first, bound in order to the names of `account_layout`
/// (to `fixed_<i>` when there are arrays sized by a const generic parameter);
/// then each array sized by a const generic parameter takes the next accounts, as
/// many as its parameter's value in `generic_sizes`. It fails with
/// `NotEnoughAccountKeys` when there are fewer accounts than that. Without such
/// arrays, the accounts after the fixed ones are handed back; with them, the
/// accounts are handed back as they came.
pub fn split_accounts<'a>(context: &Context, generic_sizes: &Vec<usize>, accounts: &'a [AccountInfo]) -> (r:
    Result<AccountSplit<'a>, SplitError>)
    requires
        generic_sizes@.len() == generic_count(*context),
    ensures
        ({
            let names = fixed_names(context.accounts@, context.accounts@.len() as int);
            let k = names.len() as int;
            let total = k + generic_taken(generic_sizes@, generic_sizes@.len() as int);
            &&& r is Err <==> accounts@.len() < total
            &&& r matches Err(e) ==> e == SplitError::NotEnoughAccountKeys
            &&& r matches Ok(s) ==> {
                &&& s.bound@.len() == k
                &&& forall|i: int|
                    0 <= i < k ==> (#[trigger] s.bound@[i]).0@ == bound_name(
                        names,
                        generic_sizes@.len() > 0,
                        i,
                    ) && *s.bound@[i].1 == accounts@[i]
                &&& s.arrays@.len() == generic_sizes@.len()
                &&& forall|j: int|
                    0 <= j < generic_sizes@.len() ==> (#[trigger] s.arrays@[j])@ == accounts@.subrange(
                        k + generic_taken(generic_sizes@, j),
                        k + generic_taken(generic_sizes@, j + 1),
                    )
                &&& s.rest@ == if generic_sizes@.len() == 0 {
                    accounts@.subrange(k, accounts@.len() as int)
                } else {
                    accounts@
                }
            }
        }),
{
    let (names, _) = account_layout(context);
    let ghost nv = names.deep_view();
    let fixed = names.len();
    assert(fixed == nv.len());
    if accounts.len() < fixed {
        proof {
            lemma_generic_taken_nonneg(generic_sizes@, generic_sizes@.len() as int);
        }
        return Err(SplitError::NotEnoughAccountKeys);
    }
    let mut bound: Vec<(String, &'a AccountInfo)> = Vec::new();
    let mut i: usize = 0;
    while i < fixed
        invariant
            i <= fixed,
            fixed == names@.len(),
            fixed <= accounts@.len(),
            nv == names.deep_view(),
            bound@.len() == i,
            forall|t: int|
                0 <= t < i ==> (#[trigger] bound@[t]).0@ == bound_name(nv, generic_sizes@.len() > 0, t)
                    && *bound@[t].1 == accounts@[t],
        decreases fixed - i,
    {
        let name = if generic_sizes.len() > 0 {
            String::from_str("fixed_").concat(decimal_string(i as u64).as_str())
        } else {
            names[i].clone()
        };
        assert(name@ == bound_name(nv, generic_sizes@.len() > 0, i as int));
        bound.push((name, &accounts[i]));
        i = i + 1;
    }
    let (_, after) = accounts.split_at(fixed);
    let mut arrays: Vec<&'a [AccountInfo]> = Vec::new();
    let mut remaining: &'a [AccountInfo] = after;
    let mut offset: usize = fixed;
    let mut j: usize = 0;
    while j < generic_sizes.len()
        invariant
            j <= generic_sizes@.len(),
            fixed == fixed_names(context.accounts@, context.accounts@.len() as int).len(),
            accounts.len() == accounts@.len(),
            fixed <= offset <= accounts@.len(),
            offset == fixed + generic_taken(generic_sizes@, j as int),
            remaining@ == accounts@.subrange(offset as int, accounts@.len() as int),
            arrays@.len() == j,
            forall|t: int|
                0 <= t < j ==> (#[trigger] arrays@[t])@ == accounts@.subrange(
                    fixed + generic_taken(generic_sizes@, t),
                    fixed + generic_taken(generic_sizes@, t + 1),
                ),
        decreases generic_sizes@.len() - j,
    {
        let size = generic_sizes[j];
        assert(remaining@.len() == accounts@.len() - offset);
        assert(generic_taken(generic_sizes@, j + 1) == generic_taken(generic_sizes@, j as int) + size);
        if remaining.len() < size {
            proof {
                lemma_generic_taken_grows(generic_sizes@, j as int + 1, generic_sizes@.len() as int);
            }
            return Err(SplitError::NotEnoughAccountKeys);
        }
        let (taken, left) = remaining.split_at(size);
        assert(taken@ =~= accounts@.subrange(offset as int, offset + size));
        assert(left@ =~= accounts@.subrange(offset + size, accounts@.len() as int));
        arrays.push(taken);
        remaining = left;
        offset = offset + size;
        j = j + 1;
    }
    let rest = if generic_sizes.len() == 0 {
        after
    } else {
        accounts
    };
    Ok(AccountSplit { bound, arrays, rest })
}

proof fn lemma_generic_taken_nonneg(sizes: Seq<usize>, j: int)
    ensures
        generic_taken(sizes, j) >= 0,
    decreases j,
{
    if j > 0 {
        lemma_generic_taken_nonneg(sizes, j - 1);
    }
}

proof fn lemma_generic_taken_grows(sizes: Seq<usize>, j: int, n: int)
    requires
        j <= n,
    ensures
        generic_taken(sizes, j) <= generic_taken(sizes, n),
    decreases n - j,
{
    if n > j {
        lemma_generic_taken_grows(sizes, j, n - 1);
    }
}

/// A field of a struct: its name, if it has one, and its type as written.
pub struct StructField {
    pub ident: Option<String>,
    pub ty: String,
}

/// The struct of a context as written: its name, attributes, generic parameters,
/// the predicates of its where clause when it has one, and its fields.
pub struct ContextStruct {
    pub name: String,
    pub attrs: Vec<Attribute>,
    pub generics: Vec<String>,
    pub where_clause: Option<Vec<String>>,
    pub fields: Vec<StructField>,
}

/// An attribute of the emitted struct: one of the struct's own, by position, or the
/// `# Generated` documentation that shows the emitted code.
#[derive(Debug, Clone, Copy, PartialEq, Eq, Structural)]
pub enum EmittedAttr {
    Own(usize),
    GeneratedDoc,
}

/// A field of the emitted struct: one of the struct's own, or one that a generator
/// added, by position.
#[derive(Debug, Clone, Copy, PartialEq, Eq, Structural)]
pub enum EmittedField {
    Own(usize),
    Added(usize),
}

/// What is emitted for a context: the struct, with its attributes and fields, and the
/// header and end of the constructor's impl, `impl<generics> HandlerContext<'_,
/// 'info, 'c> for Name<own generics> where predicates`.
pub struct EmittedContext {
    pub attrs: Vec<EmittedAttr>,
    pub fields: Vec<EmittedField>,
    /// The generic parameters of the impl.
    pub impl_generics: Vec<String>,
    /// The predicates of the impl's where clause.
    pub where_predicates: Vec<String>,
    /// The variables dropped after the generated steps.
    pub drops: Vec<String>,
    /// Whether the accounts after the fixed ones are handed back to the caller.
    pub hands_back_rest: bool,
    /// The fields, by name, of the value that the constructor returns.
    pub constructed: Vec<String>,
}

/// The names of the named fields among the first `k`, in order.
pub open spec fn named_fields(fields: Seq<StructField>, k: int) -> Seq<Seq<char>>
    decreases k,
{
    if k <= 0 {
        Seq::empty()
    } else {
        named_fields(fields, k - 1) + match fields[k - 1].ident {
            Some(n) => seq![n@],
            None => Seq::empty(),
        }
    }
}

/// Emits a context: its struct keeps its attributes and gets the generated
/// documentation after them; it keeps its fields and gets the generators' new fields
/// after them; the impl adds the lifetime `'c` to the struct's generic parameters and
/// the predicate `'c: 'info` to its where clause (a new one when it has none); the
/// constructor drops the generators' variables, hands back the accounts after the
/// fixed ones unless some array is sized by a const generic parameter, and returns
/// the struct's named fields, then the new fields.
pub fn emit_context(item: &ContextStruct, context: &Context, result: &GeneratorResult) -> (r: EmittedContext)
    ensures
        r.attrs@ == Seq::new(item.attrs@.len(), |i: int| EmittedAttr::Own(i as usize)).push(
            EmittedAttr::GeneratedDoc,
        ),
        r.fields@ == Seq::new(item.fields@.len(), |i: int| EmittedField::Own(i as usize)) + Seq::new(
            result.new_fields@.len(),
            |i: int| EmittedField::Added(i as usize),
        ),
        r.impl_generics.deep_view() == item.generics.deep_view().push("'c"@),
        r.where_predicates.deep_view() == match item.where_clause {
            Some(p) => p.deep_view(),
            None => Seq::empty(),
        }.push("'c: 'info"@),
        r.drops.deep_view() == result.drop_vars.deep_view(),
        r.hands_back_rest == (generic_count(*context) == 0),
        r.constructed.deep_view() == named_fields(item.fields@, item.fields@.len() as int) + result.new_fields@.map_values(
            |f: crate::generators::NewField| f.name@,
        ),
{
    let mut attrs: Vec<EmittedAttr> = Vec::new();
    let mut i: usize = 0;
    while i < item.attrs.len()
        invariant
            i <= item.attrs@.len(),
            attrs@ == Seq::new(i as nat, |j: int| EmittedAttr::Own(j as usize)),
        decreases item.attrs@.len() - i,
    {
        attrs.push(EmittedAttr::Own(i));
        i = i + 1;
        assert(attrs@ =~= Seq::new(i as nat, |j: int| EmittedAttr::Own(j as usize)));
    }
    attrs.push(EmittedAttr::GeneratedDoc);
    let mut fields: Vec<EmittedField> = Vec::new();
    let mut constructed: Vec<String> = Vec::new();
    let mut i: usize = 0;
    while i < item.fields.len()
        invariant
            i <= item.fields@.len(),
            fields@ == Seq::new(i as nat, |j: int| EmittedField::Own(j as usize)),
            constructed.deep_view() == named_fields(item.fields@, i as int),
        decreases item.fields@.len() - i,
    {
        fields.push(EmittedField::Own(i));
        let ghost prev = constructed.deep_view();
        match &item.fields[i].ident {
            Some(n) => {
                constructed.push(n.clone());
                assert(constructed.deep_view() =~= prev.push(n@));
            },
            None => {},
        }
        i = i + 1;
        assert(fields@ =~= Seq::new(i as nat, |j: int| EmittedField::Own(j as usize)));
        assert(constructed.deep_view() =~= named_fields(item.fields@, i as int));
    }
    let ghost own_fields = fields@;
    let ghost own_names = constructed.deep_view();
    let mut k: usize = 0;
    while k < result.new_fields.len()
        invariant
            k <= result.new_fields@.len(),
            fields@ == own_fields + Seq::new(k as nat, |j: int| EmittedField::Added(j as usize)),
            constructed.deep_view() == own_names + result.new_fields@.take(k as int).map_values(
                |f: crate::generators::NewField| f.name@,
            ),
        decreases result.new_fields@.len() - k,
    {
        fields.push(EmittedField::Added(k));
        let ghost prev = constructed.deep_view();
        constructed.push(result.new_fields[k].name.clone());
        assert(constructed.deep_view() =~= prev.push(result.new_fields@[k as int].name@));
        k = k + 1;
        assert(fields@ =~= own_fields + Seq::new(k as nat, |j: int| EmittedField::Added(j as usize)));
        assert(result.new_fields@.take(k as int) =~= result.new_fields@.take(k - 1).push(
            result.new_fields@[k - 1],
        ));
        assert(constructed.deep_view() =~= own_names + result.new_fields@.take(k as int).map_values(
            |f: crate::generators::NewField| f.name@,
        ));
    }
    assert(result.new_fields@.take(result.new_fields@.len() as int) =~= result.new_fields@);
    let impl_generics = push_text(&item.generics, "'c");
    let where_predicates = match &item.where_clause {
        Some(p) => push_text(p, "'c: 'info"),
        None => push_text(&Vec::new(), "'c: 'info"),
    };
    let drops = copy_texts(&result.drop_vars);
    let (_, generic) = account_layout(context);
    EmittedContext {
        attrs,
        fields,
        impl_generics,
        where_predicates,
        drops,
        hands_back_rest: generic.len() == 0,
        constructed,
    }
}

/// A copy of `texts`.
fn copy_texts(texts: &Vec<String>) -> (r: Vec<String>)
    ensures
        r.deep_view() == texts.deep_view(),
{
    let mut r: Vec<String> = Vec::new();
    let mut i: usize = 0;
    while i < texts.len()
        invariant
            i <= texts@.len(),
            r.deep_view() == texts.deep_view().take(i as int),
        decreases texts@.len() - i,
    {
        let ghost prev = r.deep_view();
        r.push(texts[i].clone());
        assert(r.deep_view() =~= prev.push(texts@[i as int]@));
        i = i + 1;
        assert(r.deep_view() =~= texts.deep_view().take(i as int));
    }
    assert(r.deep_view() =~= texts.deep_view());
    r
}

/// A copy of `texts` with `last` after them.
fn push_text(texts: &Vec<String>, last: &str) -> (r: Vec<String>)
    ensures
        r.deep_view() == texts.deep_view().push(last@),
{
    let mut r = copy_texts(texts);
    let ghost prev = r.deep_view();
    r.push(String::from_str(last));
    assert(r.deep_view() =~= prev.push(last@));
    r
}

} // verus!
