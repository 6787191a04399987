//! What the borsh attribute macro expands an item into: for a struct, the accessor
//! type, the item without its helper attributes, and the size constant unless the
//! item asks for none; for an enum, a struct of accessors for each variant with
//! several fields, and a `total_len` of the tag byte and the variant's data.
use crate::borsh_layout::{end_of, fits, lemma_end_after, SupportedType};
use crate::remover::{attribute_ident, kept_attributes, Attribute, AttributeRemover};
use crate::text::same_str;
use vstd::prelude::*;

verus! {

/// The fields of an enum variant: named, unnamed (how many), or none.
pub enum VariantFields {
    Named,
    Unnamed(usize),
    Unit,
}

/// The expansion of an enum: whether each variant gets a struct of accessors of its
/// own, whether the enum then takes a lifetime, and whether its size is generated.
pub struct EnumPlan {
    pub variant_structs: Vec<bool>,
    pub needs_lifetime: bool,
    pub gen_size: bool,
}

/// An item whose attributes hold `no_size` gets no size constant.
pub open spec fn asks_no_size(attrs: Seq<Attribute>) -> bool {
    exists|i: int| 0 <= i < attrs.len() && attribute_ident(#[trigger] attrs[i]) == Some("no_size"@)
}

/// A variant gets a struct of accessors when its fields are named, or unnamed and
/// more than one.
pub open spec fn has_variant_struct(v: VariantFields) -> bool {
    match v {
        VariantFields::Named => true,
        VariantFields::Unnamed(n) => n > 1,
        VariantFields::Unit => false,
    }
}

/// Whether the size constant of an item with these attributes is generated.
pub fn gen_size(attrs: &Vec<Attribute>) -> (r: bool)
    ensures
        r == !asks_no_size(attrs@),
{
    let mut i: usize = 0;
    while i < attrs.len()
        invariant
            i <= attrs@.len(),
            forall|j: int| 0 <= j < i ==> attribute_ident(#[trigger] attrs@[j]) != Some("no_size"@),
        decreases attrs@.len() - i,
    {
        let a = &attrs[i];
        if a.path.len() == 1 && same_str(a.path[0].as_str(), "no_size") {
            assert(attribute_ident(attrs@[i as int]) == Some("no_size"@));
            return false;
        }
        i = i + 1;
    }
    true
}

/// The expansion of an enum with these variants and attributes.
pub fn plan_enum(variants: &Vec<VariantFields>, attrs: &Vec<Attribute>) -> (r: EnumPlan)
    ensures
        r.variant_structs@.len() == variants@.len(),
        forall|i: int| 0 <= i < variants@.len() ==> r.variant_structs@[i] == has_variant_struct(#[trigger] variants@[i]),
        r.needs_lifetime == exists|i: int| 0 <= i < variants@.len() && has_variant_struct(#[trigger] variants@[i]),
        r.gen_size == !asks_no_size(attrs@),
{
    let mut structs: Vec<bool> = Vec::new();
    let mut needs_lifetime = false;
    let mut i: usize = 0;
    while i < variants.len()
        invariant
            i <= variants@.len(),
            structs@.len() == i,
            forall|j: int| 0 <= j < i ==> structs@[j] == has_variant_struct(#[trigger] variants@[j]),
            needs_lifetime == exists|j: int| 0 <= j < i && has_variant_struct(#[trigger] variants@[j]),
        decreases variants@.len() - i,
    {
        let with_struct = match &variants[i] {
            VariantFields::Named => true,
            VariantFields::Unnamed(n) => *n > 1,
            VariantFields::Unit => false,
        };
        structs.push(with_struct);
        if with_struct {
            needs_lifetime = true;
        }
        i = i + 1;
    }
    EnumPlan { variant_structs: structs, needs_lifetime, gen_size: gen_size(attrs) }
}

/// The `total_len` of an enum value whose variant's data starts at `offset`: the
/// tag byte, and the length of the variant's struct when it has one (`variant`, a
/// defined type). `None` when reading the variant's length goes past the data, or
/// when the total does not fit.
pub fn enum_total_len(variant: &Option<SupportedType>, data: &[u8], offset: usize) -> (r: Option<usize>)
    ensures
        match *variant {
            None => r == Some(1usize),
            Some(t) => match r {
                Some(total) => end_of(t, data@, offset as int) matches Some(e) && total == 1 + e - offset,
                None => !fits(end_of(t, data@, offset as int)) || end_of(t, data@, offset as int) == Some(
                    offset + usize::MAX,
                ),
            },
        },
{
    match variant {
        None => Some(1),
        Some(t) => match t.read_len(data, offset) {
            Some(e) => {
                proof {
                    lemma_end_after(*t, data@, offset as int);
                }
                (e - offset).checked_add(1)
            },
            None => None,
        },
    }
}

/// The expansion of a struct: whether its size is generated, and the attributes
/// that the struct keeps once the macro's helper attributes are removed.
pub struct StructPlan {
    pub gen_size: bool,
    pub attrs: Vec<Attribute>,
}

/// The expansion of a struct with these attributes.
pub fn plan_struct(attrs: Vec<Attribute>) -> (r: StructPlan)
    ensures
        r.gen_size == !asks_no_size(attrs@),
        r.attrs@ == kept_attributes(seq!["max_len", "raw_space", "no_size"], attrs@),
{
    let size = gen_size(&attrs);
    let mut remover = AttributeRemover::new().with_attribute("max_len").with_attribute("raw_space").with_attribute(
        "no_size",
    );
    assert(remover.0@ =~= seq!["max_len", "raw_space", "no_size"]);
    let kept = remover.fold_attributes(attrs);
    StructPlan { gen_size: size, attrs: kept }
}

} // verus!
