//! How the accessor that the borsh attribute macro generates for a field reads its
//! value: the type it returns, the way it reads, and, for an element read inside an
//! array, how far the offset moves after it.
use crate::borsh_layout::{end_of, fixed_len, prefix_at, prefix_end, SupportedType};
use crate::text::{decimal, decimal_string};
use vstd::prelude::*;
use vstd::string::StringExecFns;

verus! {

/// The type that a generated read returns.
#[derive(Debug, PartialEq, Eq)]
pub enum OutputType {
    Bool,
    U8,
    I8,
    U16,
    I16,
    U32,
    I32,
    U64,
    I64,
    U128,
    I128,
    /// `&str`.
    Str,
    /// `&Pubkey`.
    PubkeyRef,
    Option(Box<OutputType>),
    /// `BorshVector<T>`.
    Vector(Box<OutputType>),
    /// `[T; n]`.
    Array(Box<OutputType>, usize),
    /// A reference to the defined type's generated accessor.
    DefinedRef,
}

/// How a generated read gets its value from the bytes at the offset.
#[derive(Debug, PartialEq, Eq)]
pub enum ReadStep {
    /// The type's `BorshAccessor::convert`.
    Convert,
    /// A four-byte little-endian length, then that many bytes taken as UTF-8.
    LengthPrefixedStr,
    /// No read is generated.
    Nothing,
    /// `BorshAccessor::convert` of `BorshVector` over the element's output type.
    ConvertVector,
    /// `n` elements, each read with the element's read, one after the other.
    Repeat(Box<ReadExpr>, usize),
}

/// How far a read of an element moves the offset after it.
#[derive(Debug, PartialEq, Eq)]
pub enum Advance {
    /// By a fixed number of bytes.
    By(usize),
    /// By the four bytes of the length and the length read.
    ByStrLen,
    /// By the `total_len` of the defined value read.
    ByTotalLen,
}

/// A generated read: how it reads, how far it moves the offset when reading an
/// element (`None` otherwise), and the type it returns.
#[derive(Debug, PartialEq, Eq)]
pub struct ReadExpr {
    pub step: ReadStep,
    pub advance: Option<Advance>,
    pub output: OutputType,
}

/// The macro can generate the read of a value of `t` (read as an element when
/// `is_inner`): it refuses a vector or an array read as an element.
pub open spec fn reads_ok(t: SupportedType, is_inner: bool) -> bool
    decreases t,
{
    match t {
        SupportedType::Option(inner) => reads_ok(*inner, true),
        SupportedType::Vec(inner) => !is_inner && reads_ok(*inner, true),
        SupportedType::Array(inner, _) => !is_inner && reads_ok(*inner, true),
        _ => true,
    }
}

/// The read that the macro generates for a value of `t`.
pub open spec fn read_expr_of(t: SupportedType, is_inner: bool) -> ReadExpr
    decreases t,
{
    let fixed = |w: usize, output: OutputType|
        ReadExpr {
            step: ReadStep::Convert,
            advance: if is_inner {
                Some(Advance::By(w))
            } else {
                None
            },
            output,
        };
    match t {
        SupportedType::Bool => fixed(1, OutputType::Bool),
        SupportedType::U8 => fixed(1, OutputType::U8),
        SupportedType::I8 => fixed(1, OutputType::I8),
        SupportedType::U16 => fixed(2, OutputType::U16),
        SupportedType::I16 => fixed(2, OutputType::I16),
        SupportedType::U32 => fixed(4, OutputType::U32),
        SupportedType::I32 => fixed(4, OutputType::I32),
        SupportedType::U64 => fixed(8, OutputType::U64),
        SupportedType::I64 => fixed(8, OutputType::I64),
        SupportedType::U128 => fixed(16, OutputType::U128),
        SupportedType::I128 => fixed(16, OutputType::I128),
        SupportedType::Pubkey => fixed(32, OutputType::PubkeyRef),
        SupportedType::String => ReadExpr {
            step: ReadStep::LengthPrefixedStr,
            advance: if is_inner {
                Some(Advance::ByStrLen)
            } else {
                None
            },
            output: OutputType::Str,
        },
        SupportedType::Option(inner) => ReadExpr {
            step: ReadStep::Nothing,
            advance: None,
            output: OutputType::Option(Box::new(read_expr_of(*inner, true).output)),
        },
        SupportedType::Vec(inner) => ReadExpr {
            step: ReadStep::ConvertVector,
            advance: None,
            output: OutputType::Vector(Box::new(read_expr_of(*inner, true).output)),
        },
        SupportedType::Array(inner, n) => ReadExpr {
            step: ReadStep::Repeat(Box::new(read_expr_of(*inner, true)), n),
            advance: None,
            output: OutputType::Array(Box::new(read_expr_of(*inner, true).output), n),
        },
        SupportedType::Defined(_, _) => ReadExpr {
            step: ReadStep::Convert,
            advance: if is_inner {
                Some(Advance::ByTotalLen)
            } else {
                None
            },
            output: OutputType::DefinedRef,
        },
    }
}

fn fixed_read(w: usize, output: OutputType, is_inner: bool) -> (r: ReadExpr)
    ensures
        r == (ReadExpr {
            step: ReadStep::Convert,
            advance: if is_inner {
                Some(Advance::By(w))
            } else {
                None
            },
            output,
        }),
{
    ReadExpr {
        step: ReadStep::Convert,
        advance: if is_inner {
            Some(Advance::By(w))
        } else {
            None
        },
        output,
    }
}

impl SupportedType {
    /// The read that the macro generates for a value of this type, read as an
    /// element of an array when `is_inner`.
    pub fn gen_read_expr(&self, is_inner: bool) -> (r: ReadExpr)
        requires
            reads_ok(*self, is_inner),
        ensures
            r == read_expr_of(*self, is_inner),
        decreases self,
    {
        match self {
            SupportedType::Bool => fixed_read(1, OutputType::Bool, is_inner),
            SupportedType::U8 => fixed_read(1, OutputType::U8, is_inner),
            SupportedType::I8 => fixed_read(1, OutputType::I8, is_inner),
            SupportedType::U16 => fixed_read(2, OutputType::U16, is_inner),
            SupportedType::I16 => fixed_read(2, OutputType::I16, is_inner),
            SupportedType::U32 => fixed_read(4, OutputType::U32, is_inner),
            SupportedType::I32 => fixed_read(4, OutputType::I32, is_inner),
            SupportedType::U64 => fixed_read(8, OutputType::U64, is_inner),
            SupportedType::I64 => fixed_read(8, OutputType::I64, is_inner),
            SupportedType::U128 => fixed_read(16, OutputType::U128, is_inner),
            SupportedType::I128 => fixed_read(16, OutputType::I128, is_inner),
            SupportedType::Pubkey => fixed_read(32, OutputType::PubkeyRef, is_inner),
            SupportedType::String => ReadExpr {
                step: ReadStep::LengthPrefixedStr,
                advance: if is_inner {
                    Some(Advance::ByStrLen)
                } else {
                    None
                },
                output: OutputType::Str,
            },
            SupportedType::Option(inner) => {
                let element = inner.gen_read_expr(true);
                ReadExpr {
                    step: ReadStep::Nothing,
                    advance: None,
                    output: OutputType::Option(Box::new(element.output)),
                }
            },
            SupportedType::Vec(inner) => {
                let element = inner.gen_read_expr(true);
                ReadExpr {
                    step: ReadStep::ConvertVector,
                    advance: None,
                    output: OutputType::Vector(Box::new(element.output)),
                }
            },
            SupportedType::Array(inner, n) => {
                let element = inner.gen_read_expr(true);
                let output = inner.gen_read_expr(true).output;
                ReadExpr {
                    step: ReadStep::Repeat(Box::new(element), *n),
                    advance: None,
                    output: OutputType::Array(Box::new(output), *n),
                }
            },
            SupportedType::Defined(_, _) => ReadExpr {
                step: ReadStep::Convert,
                advance: if is_inner {
                    Some(Advance::ByTotalLen)
                } else {
                    None
                },
                output: OutputType::DefinedRef,
            },
        }
    }
}

/// Where an element that a read moves past by `a` ends, reading as the generated
/// code does: a fixed width, a length prefix, or the defined value's `total_len`.
pub open spec fn advanced_end(a: Advance, t: SupportedType, data: Seq<u8>, off: int) -> Option<int> {
    match a {
        Advance::By(w) => Some(off + w),
        Advance::ByStrLen => if 0 <= off && off + 4 <= data.len() {
            Some(off + 4 + prefix_at(data, off))
        } else {
            None
        },
        Advance::ByTotalLen => match t {
            SupportedType::Defined(_, fields) => prefix_end(fields@, data, off, fields@.len() as int),
            _ => None,
        },
    }
}

/// Reading an element moves the offset exactly to where the layout says the element
/// ends, for every type whose element read moves the offset.
pub proof fn law_element_read_moves_to_its_end(t: SupportedType, data: Seq<u8>, off: int)
    requires
        read_expr_of(t, true).advance is Some,
    ensures
        advanced_end(read_expr_of(t, true).advance->0, t, data, off) == end_of(t, data, off),
{
    match t {
        SupportedType::Option(_) | SupportedType::Vec(_) | SupportedType::Array(_, _) => {},
        SupportedType::String | SupportedType::Defined(_, _) => {},
        _ => {
            assert(fixed_len(t) is Some);
        },
    }
}

/// The name of the accessor methods of field `i`: its identifier, or `field_<i>` for
/// a field without one.
pub open spec fn field_ident(ident: Option<Seq<char>>, i: nat) -> Seq<char> {
    match ident {
        Some(name) => name,
        None => "field_"@ + decimal(i),
    }
}

/// The accessor methods generated for a struct with these fields: for each field, by
/// its name, an offset method `<name>_offset`, and a read method `<name>` unless its
/// read is `Nothing`.
pub struct FieldAccessor {
    pub name: String,
    pub has_read: bool,
    pub read: ReadExpr,
}

/// The accessors generated for the fields of a struct, given each field's identifier
/// (if any) and type.
pub fn field_accessors(fields: &Vec<(Option<String>, SupportedType)>) -> (r: Vec<FieldAccessor>)
    requires
        forall|i: int| 0 <= i < fields@.len() ==> reads_ok(#[trigger] fields@[i].1, false),
    ensures
        r@.len() == fields@.len(),
        forall|i: int|
            0 <= i < fields@.len() ==> {
                let (ident, t) = #[trigger] fields@[i];
                &&& r@[i].name@ == field_ident(
                    match ident {
                        Some(s) => Some(s@),
                        None => None,
                    },
                    i as nat,
                )
                &&& r@[i].read == read_expr_of(t, false)
                &&& r@[i].has_read == !(read_expr_of(t, false).step is Nothing)
            },
{
    let mut r: Vec<FieldAccessor> = Vec::new();
    let mut i: usize = 0;
    while i < fields.len()
        invariant
            i <= fields@.len(),
            r@.len() == i,
            forall|j: int| 0 <= j < fields@.len() ==> reads_ok(#[trigger] fields@[j].1, false),
            forall|j: int|
                0 <= j < i ==> {
                    let (ident, t) = #[trigger] fields@[j];
                    &&& r@[j].name@ == field_ident(
                        match ident {
                            Some(s) => Some(s@),
                            None => None,
                        },
                        j as nat,
                    )
                    &&& r@[j].read == read_expr_of(t, false)
                    &&& r@[j].has_read == !(read_expr_of(t, false).step is Nothing)
                },
        decreases fields@.len() - i,
    {
        let (ident, t) = &fields[i];
        let name = match ident {
            Some(s) => s.clone(),
            None => String::from_str("field_").concat(decimal_string(i as u64).as_str()),
        };
        let read = t.gen_read_expr(false);
        let has_read = match read.step {
            ReadStep::Nothing => false,
            _ => true,
        };
        r.push(FieldAccessor { name, has_read, read });
        i = i + 1;
    }
    r
}

} // verus!
