//! Zero-copy borsh access, account validation rules and project tooling logic.
use vstd::prelude::*;

pub mod le;
pub mod accessor;
pub mod vector;
pub mod writer;
pub mod size;
pub mod size_derive;
pub mod borsh_laws;
pub mod borsh_layout;
pub mod borsh_encoding;
pub mod read_expr;
pub mod borsh_item;
pub mod discriminator;
pub mod account;
pub mod account_keys;
pub mod account_derive;
pub mod sorter;
pub mod sorter_laws;
pub mod text;
pub mod naming;
pub mod templates;
pub mod project;
pub mod manifest;
pub mod account_gen;
pub mod generators;
pub mod entrypoint;
pub mod remover;
pub mod cli;
pub mod new_templates;

verus! {

} // verus!
