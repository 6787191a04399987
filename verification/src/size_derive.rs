//! The space expression that the `BorshSize` derive writes for a struct or an enum:
//! the sum of its fields' maximal encoded lengths, a string or a vector taking the
//! maximal length given by its `max_len` attribute, a `raw_space` attribute giving
//! the space outright.
use vstd::prelude::*;
use vstd::string::StringExecFns;

verus! {

/// The first generic argument of a path segment.
pub enum GenericArg {
    /// The segment has no angle-bracketed arguments.
    NotAngle,
    /// The first argument is a type.
    FirstType(Box<FieldType>),
    /// The first argument is not a type.
    FirstNotType,
}

/// The type of a field, as far as the derive looks at it. `text` is the type as
/// written.
pub enum FieldType {
    /// `[elem; len]`, `len` being the length expression as written.
    Array { elem: Box<FieldType>, len: String },
    /// A path; `name` is its last segment, if it has one.
    Path { name: Option<String>, first_arg: GenericArg, text: String },
    /// Any other type.
    Other { text: String },
}

/// One argument of a size attribute: a raw space, or a maximal length, as written.
pub struct SizeArg {
    pub is_raw: bool,
    pub value: String,
}

/// A field: whether it has a name, the arguments of each of its size attributes, and
/// its type.
pub struct SizeField {
    pub named: bool,
    pub size_attrs: Vec<Vec<SizeArg>>,
    pub ty: FieldType,
}

/// Why the space of a field cannot be written.
#[derive(Debug, Clone, Copy, PartialEq, Eq, Structural)]
pub enum SizeError {
    /// A string or a vector without a maximal length.
    NoMaxLen,
    /// A path without segments.
    InvalidPath,
    /// A vector whose arguments are not in angle brackets.
    InvalidArguments,
    /// A vector whose first argument is not a type.
    FirstArgNotType,
    /// A field without a name.
    TupleField,
    /// A field with more than one size attribute.
    ConflictingAttributes,
}

/// The argument that applies at this level: the last one.
pub open spec fn current_arg(args: Seq<SizeArg>) -> Option<SizeArg> {
    if args.len() > 0 {
        Some(args.last())
    } else {
        None
    }
}

/// The arguments left for the levels inside.
pub open spec fn inner_args(args: Seq<SizeArg>) -> Seq<SizeArg> {
    if args.len() > 0 {
        args.drop_last()
    } else {
        args
    }
}

/// The space of a type that states its own: its `SIZE` constant.
pub open spec fn size_of_text(text: Seq<char>) -> Seq<char> {
    "<"@ + text + " as BorshSize>::SIZE"@
}

/// The space expression of a value of type `t`, the size arguments applying from the
/// outermost level inwards, each level taking the last argument left.
pub open spec fn size_expr(t: FieldType, args: Seq<SizeArg>) -> Result<Seq<char>, SizeError>
    decreases t,
{
    let cur = current_arg(args);
    let rest = inner_args(args);
    if cur is Some && cur->0.is_raw {
        Ok(cur->0.value@)
    } else {
        match t {
            FieldType::Array { elem, len } => match size_expr(*elem, rest) {
                Ok(inner) => Ok("("@ + len@ + " * "@ + inner + ")"@),
                Err(e) => Err(e),
            },
            FieldType::Path { name, first_arg, text } => match name {
                None => Err(SizeError::InvalidPath),
                Some(n) => if n@ == "String"@ {
                    match cur {
                        Some(a) => Ok("(4 + "@ + a.value@ + ")"@),
                        None => Err(SizeError::NoMaxLen),
                    }
                } else if n@ == "Vec"@ {
                    match cur {
                        None => Err(SizeError::NoMaxLen),
                        Some(a) => match first_arg {
                            GenericArg::NotAngle => Err(SizeError::InvalidArguments),
                            GenericArg::FirstNotType => Err(SizeError::FirstArgNotType),
                            GenericArg::FirstType(inner_ty) => match size_expr(*inner_ty, rest) {
                                Ok(inner) => Ok("(4 + "@ + inner + " * "@ + a.value@ + ")"@),
                                Err(e) => Err(e),
                            },
                        },
                    }
                } else {
                    Ok(size_of_text(text@))
                },
            },
            FieldType::Other { text } => Ok(size_of_text(text@)),
        }
    }
}

/// The arguments left once the space of `t` is written.
pub open spec fn args_left(t: FieldType, args: Seq<SizeArg>) -> Seq<SizeArg>
    decreases t,
{
    let cur = current_arg(args);
    let rest = inner_args(args);
    if cur is Some && cur->0.is_raw {
        rest
    } else {
        match t {
            FieldType::Array { elem, .. } => args_left(*elem, rest),
            FieldType::Path { name: Some(n), first_arg: GenericArg::FirstType(inner_ty), .. } => if n@
                == "Vec"@ && cur is Some {
                args_left(*inner_ty, rest)
            } else {
                rest
            },
            _ => rest,
        }
    }
}

fn pop_arg(args: &mut Vec<SizeArg>) -> (r: Option<SizeArg>)
    ensures
        r == current_arg(old(args)@),
        final(args)@ == inner_args(old(args)@),
{
    args.pop()
}

/// Writes the space expression of a value of type `value`, taking the size arguments
/// from the end of `args`.
pub fn expr_from_ty(value: &FieldType, args: &mut Vec<SizeArg>) -> (r: Result<String, SizeError>)
    ensures
        match r {
            Ok(s) => size_expr(*value, old(args)@) == Ok::<Seq<char>, SizeError>(s@),
            Err(e) => size_expr(*value, old(args)@) == Err::<Seq<char>, SizeError>(e),
        },
        (r is Ok ==> final(args)@ == args_left(*value, old(args)@)),
    decreases value,
{
    let current = pop_arg(args);
    let arg: Option<String> = match current {
        Some(a) => {
            if a.is_raw {
                return Ok(a.value);
            }
            Some(a.value)
        },
        None => None,
    };
    match value {
        FieldType::Array { elem, len } => {
            let inner = match expr_from_ty(elem, args) {
                Ok(i) => i,
                Err(e) => {
                    return Err(e);
                },
            };
            Ok("(".to_owned().concat(len.as_str()).concat(" * ").concat(inner.as_str()).concat(")"))
        },
        FieldType::Path { name, first_arg, text } => match name {
            None => Err(SizeError::InvalidPath),
            Some(n) => {
                if crate::text::same_str(n.as_str(), "String") {
                    match arg {
                        Some(a) => {
                            proof {
                                reveal_strlit("String");
                                reveal_strlit("Vec");
                            }
                            assert("String"@.len() == 6 && "Vec"@.len() == 3);
                            Ok("(4 + ".to_owned().concat(a.as_str()).concat(")"))
                        },
                        None => Err(SizeError::NoMaxLen),
                    }
                } else if crate::text::same_str(n.as_str(), "Vec") {
                    match arg {
                        None => Err(SizeError::NoMaxLen),
                        Some(a) => match first_arg {
                            GenericArg::NotAngle => Err(SizeError::InvalidArguments),
                            GenericArg::FirstNotType => Err(SizeError::FirstArgNotType),
                            GenericArg::FirstType(inner_ty) => {
                                let inner = match expr_from_ty(inner_ty, args) {
                                    Ok(i) => i,
                                    Err(e) => {
                                        return Err(e);
                                    },
                                };
                                Ok(
                                    "(4 + ".to_owned().concat(inner.as_str()).concat(" * ").concat(
                                        a.as_str(),
                                    ).concat(")"),
                                )
                            },
                        },
                    }
                } else {
                    Ok("<".to_owned().concat(text.as_str()).concat(" as BorshSize>::SIZE"))
                }
            },
        },
        FieldType::Other { text } => Ok(
            "<".to_owned().concat(text.as_str()).concat(" as BorshSize>::SIZE"),
        ),
    }
}

/// The space expression of a field: its type with the arguments of its size
/// attribute, if it has one.
pub open spec fn field_size(f: SizeField) -> Result<Seq<char>, SizeError> {
    if !f.named {
        Err(SizeError::TupleField)
    } else if f.size_attrs@.len() > 1 {
        Err(SizeError::ConflictingAttributes)
    } else if f.size_attrs@.len() == 1 {
        size_expr(f.ty, f.size_attrs@[0]@)
    } else {
        size_expr(f.ty, Seq::empty())
    }
}

fn copy_args(args: &Vec<SizeArg>) -> (r: Vec<SizeArg>)
    ensures
        r@.len() == args@.len(),
        forall|i: int|
            0 <= i < r@.len() ==> (#[trigger] r@[i]).is_raw == args@[i].is_raw && r@[i].value@
                == args@[i].value@,
{
    let mut out: Vec<SizeArg> = Vec::new();
    let mut i: usize = 0;
    while i < args.len()
        invariant
            i <= args@.len(),
            out@.len() == i,
            forall|k: int|
                0 <= k < i ==> (#[trigger] out@[k]).is_raw == args@[k].is_raw && out@[k].value@
                    == args@[k].value@,
        decreases args@.len() - i,
    {
        out.push(SizeArg { is_raw: args[i].is_raw, value: args[i].value.clone() });
        i = i + 1;
    }
    out
}

proof fn lemma_size_expr_views(t: FieldType, a: Seq<SizeArg>, b: Seq<SizeArg>)
    requires
        a.len() == b.len(),
        forall|i: int| 0 <= i < a.len() ==> (#[trigger] a[i]).is_raw == b[i].is_raw && a[i].value@ == b[i].value@,
    ensures
        size_expr(t, a) == size_expr(t, b),
    decreases t,
{
    let (ra, rb) = (inner_args(a), inner_args(b));
    assert(ra.len() == rb.len());
    assert forall|i: int| 0 <= i < ra.len() implies (#[trigger] ra[i]).is_raw == rb[i].is_raw && ra[i].value@ == rb[i].value@ by {
        assert(ra[i] == a[i] && rb[i] == b[i]);
    }
    if a.len() > 0 {
        assert(a.last() == a[a.len() - 1] && b.last() == b[b.len() - 1]);
    }
    match t {
        FieldType::Array { elem, .. } => {
            lemma_size_expr_views(*elem, ra, rb);
        },
        FieldType::Path { first_arg: GenericArg::FirstType(inner_ty), .. } => {
            lemma_size_expr_views(*inner_ty, ra, rb);
        },
        _ => {},
    }
}

/// The space expression of one field.
pub fn ty_len(field: &SizeField) -> (r: Result<String, SizeError>)
    ensures
        match r {
            Ok(s) => field_size(*field) == Ok::<Seq<char>, SizeError>(s@),
            Err(e) => field_size(*field) == Err::<Seq<char>, SizeError>(e),
        },
{
    if !field.named {
        return Err(SizeError::TupleField);
    }
    if field.size_attrs.len() > 1 {
        return Err(SizeError::ConflictingAttributes);
    }
    let mut args: Vec<SizeArg> = if field.size_attrs.len() == 1 {
        copy_args(&field.size_attrs[0])
    } else {
        Vec::new()
    };
    proof {
        if field.size_attrs@.len() == 1 {
            lemma_size_expr_views(field.ty, args@, field.size_attrs@[0]@);
        } else {
            assert(args@ =~= Seq::<SizeArg>::empty());
        }
    }
    expr_from_ty(&field.ty, &mut args)
}

/// The space expression of a list of fields: `0`, then ` + ` and each field's.
pub open spec fn fields_size(fields: Seq<SizeField>, k: int) -> Result<Seq<char>, Seq<SizeError>>
    decreases k,
{
    if k <= 0 {
        Ok("0"@)
    } else {
        match fields_size(fields, k - 1) {
            Ok(prev) => match field_size(fields[k - 1]) {
                Ok(f) => Ok(prev + " + "@ + f),
                Err(e) => Err(seq![e]),
            },
            Err(es) => match field_size(fields[k - 1]) {
                Ok(_) => Err(es),
                Err(e) => Err(es.push(e)),
            },
        }
    }
}

/// The space expression of the fields of a struct or of an enum variant; every field
/// whose space cannot be written gives its error.
pub fn get_len_expr_from_fields(fields: &Vec<SizeField>) -> (r: Result<String, Vec<SizeError>>)
    ensures
        match r {
            Ok(s) => fields_size(fields@, fields@.len() as int) == Ok::<Seq<char>, Seq<SizeError>>(
                s@,
            ),
            Err(es) => fields_size(fields@, fields@.len() as int) == Err::<
                Seq<char>,
                Seq<SizeError>,
            >(es@),
        },
{
    let mut expr = "0".to_owned();
    let mut errors: Vec<SizeError> = Vec::new();
    let mut i: usize = 0;
    while i < fields.len()
        invariant
            i <= fields@.len(),
            fields_size(fields@, i as int) == if errors@.len() == 0 {
                Ok::<Seq<char>, Seq<SizeError>>(expr@)
            } else {
                Err::<Seq<char>, Seq<SizeError>>(errors@)
            },
        decreases fields@.len() - i,
    {
        let ghost prev_errors = errors@;
        match ty_len(&fields[i]) {
            Ok(f) => {
                if errors.len() == 0 {
                    expr = expr.concat(" + ").concat(f.as_str());
                }
            },
            Err(e) => {
                errors.push(e);
                assert(prev_errors.len() == 0 ==> errors@ =~= seq![e]);
            },
        }
        i = i + 1;
    }
    if errors.len() == 0 {
        Ok(expr)
    } else {
        Err(errors)
    }
}

/// The largest of the expressions from `k` on, written as nested `max` calls ending
/// in `0`.
pub open spec fn max_expr(items: Seq<Seq<char>>, k: int) -> Seq<char>
    decreases items.len() - k,
{
    if k < 0 || k >= items.len() {
        "0"@
    } else {
        "max("@ + items[k] + ", "@ + max_expr(items, k + 1) + ")"@
    }
}

/// The largest of the expressions, as nested `max` calls.
pub fn gen_max(items: &Vec<String>) -> (r: String)
    ensures
        r@ == max_expr(items.deep_view(), 0),
{
    let mut acc = "0".to_owned();
    let mut k: usize = items.len();
    while k > 0
        invariant
            k <= items@.len(),
            acc@ == max_expr(items.deep_view(), k as int),
        decreases k,
    {
        k = k - 1;
        assert(items.deep_view()[k as int] == items@[k as int]@);
        acc = "max(".to_owned().concat(items[k].as_str()).concat(", ").concat(acc.as_str()).concat(
            ")",
        );
    }
    acc
}

/// The `SIZE` of a struct: the space expression of its fields.
pub fn borsh_size_gen_struct(fields: &Vec<SizeField>) -> (r: Result<String, Vec<SizeError>>)
    ensures
        match r {
            Ok(s) => fields_size(fields@, fields@.len() as int) == Ok::<Seq<char>, Seq<SizeError>>(
                s@,
            ),
            Err(es) => fields_size(fields@, fields@.len() as int) == Err::<
                Seq<char>,
                Seq<SizeError>,
            >(es@),
        },
{
    get_len_expr_from_fields(fields)
}

/// The errors of the variants among the first `k` whose space cannot be written, in
/// order.
pub open spec fn enum_errors(variants: Seq<Vec<SizeField>>, k: int) -> Seq<SizeError>
    decreases k,
{
    if k <= 0 {
        Seq::empty()
    } else {
        enum_errors(variants, k - 1) + match fields_size(variants[k - 1]@, variants[k - 1]@.len() as int) {
            Err(es) => es,
            Ok(_) => Seq::empty(),
        }
    }
}

/// The `SIZE` of an enum: one byte for the variant, then the largest of its
/// variants' space expressions; the errors of all variants, in order, when some
/// cannot be written.
pub fn borsh_size_gen_enum(variants: &Vec<Vec<SizeField>>) -> (r: Result<String, Vec<SizeError>>)
    ensures
        (forall|v: int|
            0 <= v < variants@.len() ==> #[trigger] fields_size(
                variants@[v]@,
                variants@[v]@.len() as int,
            ) is Ok) ==> (r matches Ok(s) && s@ == "1 + "@ + max_expr(
            Seq::new(
                variants@.len(),
                |v: int|
                    fields_size(variants@[v]@, variants@[v]@.len() as int)->Ok_0,
            ),
            0,
        )),
        r matches Err(es) ==> (es@ == enum_errors(variants@, variants@.len() as int) && exists|
            v: int,
        |
            0 <= v < variants@.len() && #[trigger] fields_size(
                variants@[v]@,
                variants@[v]@.len() as int,
            ) is Err),
{
    let mut exprs: Vec<String> = Vec::new();
    let mut errors: Vec<SizeError> = Vec::new();
    let mut failed = false;
    let mut v: usize = 0;
    while v < variants.len()
        invariant
            v <= variants@.len(),
            !failed ==> exprs.deep_view() == Seq::new(
                v as nat,
                |w: int| fields_size(variants@[w]@, variants@[w]@.len() as int)->Ok_0,
            ),
            !failed ==> forall|w: int|
                0 <= w < v ==> #[trigger] fields_size(variants@[w]@, variants@[w]@.len() as int) is Ok,
            failed ==> exists|w: int|
                0 <= w < v && #[trigger] fields_size(variants@[w]@, variants@[w]@.len() as int) is Err,
            errors@ == enum_errors(variants@, v as int),
            !failed ==> errors@.len() == 0,
        decreases variants@.len() - v,
    {
        let ghost prev_errors = errors@;
        match get_len_expr_from_fields(&variants[v]) {
            Ok(e) => {
                assert(errors@ =~= enum_errors(variants@, v + 1));
                if !failed {
                    let ghost prev = exprs.deep_view();
                    let ghost ev = e@;
                    exprs.push(e);
                    assert(exprs.deep_view() =~= prev.push(ev));
                    assert(exprs.deep_view() =~= Seq::new(
                        (v + 1) as nat,
                        |w: int| fields_size(variants@[w]@, variants@[w]@.len() as int)->Ok_0,
                    ));
                }
            },
            Err(es) => {
                failed = true;
                let ghost before = errors@;
                let mut k: usize = 0;
                while k < es.len()
                    invariant
                        k <= es@.len(),
                        errors@ == before + es@.take(k as int),
                    decreases es@.len() - k,
                {
                    errors.push(es[k]);
                    k = k + 1;
                    assert(errors@ =~= before + es@.take(k as int));
                }
                assert(es@.take(es@.len() as int) =~= es@);
            },
        }
        v = v + 1;
    }
    if failed {
        Err(errors)
    } else {
        let max = gen_max(&exprs);
        Ok("1 + ".to_owned().concat(max.as_str()))
    }
}

} // verus!
