//! What deriving `AccountState` on a type produces: its owner and discriminator
//! impls, a `SPACE` constant unless the type asks for none, and the seeds of its
//! primary keys.
use crate::account_keys::{keys_of, keys_view, Fields, KeyError, PrimaryKeys};
use crate::remover::{attribute_ident, Attribute};
use crate::text::same_str;
use vstd::prelude::*;

verus! {

/// Why `AccountState` cannot be derived.
#[derive(Debug, Clone, Copy, PartialEq, Eq, Structural)]
pub enum DeriveError {
    /// The item is not a struct.
    InvalidAccountType,
    /// The primary keys were refused.
    Keys(KeyError),
}

/// What the derive generates for a struct.
pub struct AccountDerive {
    /// Whether the `SPACE` constant is generated.
    pub has_space: bool,
    /// The primary keys, whose seeds the derive implements.
    pub keys: PrimaryKeys,
}

/// A type whose attributes hold `no_space` gets no `SPACE` constant.
pub open spec fn asks_no_space(attrs: Seq<Attribute>) -> bool {
    exists|i: int| 0 <= i < attrs.len() && attribute_ident(#[trigger] attrs[i]) == Some("no_space"@)
}

/// Derives `AccountState` for an item: refused when the item is not a struct, or when
/// its fields are not named; else the `SPACE` constant unless `no_space` is among its
/// attributes, and the fields marked `#[key]`, in order.
pub fn derive_account(is_struct: bool, attrs: &Vec<Attribute>, fields: &Fields) -> (r: Result<
    AccountDerive,
    DeriveError,
>)
    ensures
        !is_struct ==> r == Err::<AccountDerive, DeriveError>(DeriveError::InvalidAccountType),
        is_struct ==> match *fields {
            Fields::Named(fs) => r matches Ok(d) && d.has_space == !asks_no_space(attrs@) && keys_view(
                d.keys.0@,
            ) == keys_of(fs@, fs@.len() as int),
            _ => r == Err::<AccountDerive, DeriveError>(DeriveError::Keys(KeyError::UnnamedFields)),
        },
{
    if !is_struct {
        return Err(DeriveError::InvalidAccountType);
    }
    let mut has_space = true;
    let mut i: usize = 0;
    while i < attrs.len()
        invariant
            i <= attrs@.len(),
            has_space == !exists|j: int| 0 <= j < i && attribute_ident(#[trigger] attrs@[j]) == Some("no_space"@),
        decreases attrs@.len() - i,
    {
        let a = &attrs[i];
        if a.path.len() == 1 && same_str(a.path[0].as_str(), "no_space") {
            assert(attribute_ident(attrs@[i as int]) == Some("no_space"@));
            has_space = false;
        }
        i = i + 1;
    }
    match PrimaryKeys::try_from(fields) {
        Ok(keys) => Ok(AccountDerive { has_space, keys }),
        Err(e) => Err(DeriveError::Keys(e)),
    }
}

} // verus!
