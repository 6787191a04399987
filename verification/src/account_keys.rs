//! The primary keys of an account state type and the PDA seeds they make: the
//! lowercase name of the type, then the bytes of each key in declaration order.
use crate::account::Address;
use crate::le::le_bytes;
use crate::remover::Attribute;
use crate::text::same_str;
use vstd::prelude::*;
use vstd::utf8::encode_utf8;

verus! {

/// A field of a struct: its name, its attributes, and the identifier that its type
/// is, when the type is a single identifier.
pub struct Field {
    pub ident: Option<String>,
    pub attrs: Vec<Attribute>,
    pub ty: Option<String>,
}

/// The fields of a struct.
pub enum Fields {
    Named(Vec<Field>),
    Unnamed(Vec<Field>),
    Unit,
}

/// A field marked `#[key]`.
pub struct PrimaryKey {
    pub name: String,
    pub ty: Option<String>,
}

/// The primary keys of a struct, in declaration order.
pub struct PrimaryKeys(pub Vec<PrimaryKey>);

/// The types a key may have.
#[derive(Debug, Clone, Copy, PartialEq, Eq, Structural)]
pub enum KeyType {
    Address,
    U64,
    U32,
    U16,
    U8,
}

/// Why the keys of a struct were refused.
#[derive(Debug, Clone, Copy, PartialEq, Eq, Structural)]
pub enum KeyError {
    /// Only structs with named fields have keys.
    UnnamedFields,
    /// The key has a type that cannot be used as a key.
    InvalidKeyType,
}

/// `#[key]`: the bare path `key`.
pub open spec fn is_key_attribute(a: Attribute) -> bool {
    a.path@.len() == 1 && a.path@[0]@ == "key"@ && a.tokens@.len() == 0
}

pub open spec fn has_key_attribute(f: Field) -> bool {
    exists|i: int| 0 <= i < f.attrs@.len() && is_key_attribute(#[trigger] f.attrs@[i])
}

/// The keys among the first `k` fields, as (name, type) pairs.
pub open spec fn keys_of(fields: Seq<Field>, k: int) -> Seq<(Seq<char>, Option<Seq<char>>)>
    decreases k,
{
    if k <= 0 {
        Seq::empty()
    } else {
        let prev = keys_of(fields, k - 1);
        let f = fields[k - 1];
        if has_key_attribute(f) && f.ident is Some {
            prev.push(
                (
                    f.ident->0@,
                    match f.ty {
                        Some(t) => Some(t@),
                        None => None,
                    },
                ),
            )
        } else {
            prev
        }
    }
}

pub open spec fn keys_view(keys: Seq<PrimaryKey>) -> Seq<(Seq<char>, Option<Seq<char>>)> {
    keys.map_values(
        |k: PrimaryKey|
            (
                k.name@,
                match k.ty {
                    Some(t) => Some(t@),
                    None => None,
                },
            ),
    )
}

/// The key type that a type identifier names.
pub open spec fn key_type_of(ty: Option<Seq<char>>) -> Option<KeyType> {
    match ty {
        Some(t) => if t == "Address"@ {
            Some(KeyType::Address)
        } else if t == "u64"@ {
            Some(KeyType::U64)
        } else if t == "u32"@ {
            Some(KeyType::U32)
        } else if t == "u16"@ {
            Some(KeyType::U16)
        } else if t == "u8"@ {
            Some(KeyType::U8)
        } else {
            None
        },
        None => None,
    }
}

fn is_key_attr(a: &Attribute) -> (r: bool)
    ensures
        r == is_key_attribute(*a),
{
    a.path.len() == 1 && same_str(a.path[0].as_str(), "key") && a.tokens.as_str().unicode_len()
        == 0
}

fn clone_opt(o: &Option<String>) -> (r: Option<String>)
    ensures
        match *o {
            Some(s) => r matches Some(t) && t@ == s@,
            None => r is None,
        },
{
    match o {
        Some(s) => Some(s.clone()),
        None => None,
    }
}

impl PrimaryKeys {
    /// The fields marked `#[key]` that have a name, in order.
    pub fn try_from(fields: &Fields) -> (r: Result<PrimaryKeys, KeyError>)
        ensures
            match *fields {
                Fields::Named(fs) => r matches Ok(keys) && keys_view(keys.0@) == keys_of(
                    fs@,
                    fs@.len() as int,
                ),
                _ => r == Err::<PrimaryKeys, KeyError>(KeyError::UnnamedFields),
            },
    {
        match fields {
            Fields::Named(fs) => {
                let mut keys: Vec<PrimaryKey> = Vec::new();
                let mut i: usize = 0;
                while i < fs.len()
                    invariant
                        i <= fs@.len(),
                        keys_view(keys@) == keys_of(fs@, i as int),
                    decreases fs@.len() - i,
                {
                    let f = &fs[i];
                    let mut has_key = false;
                    let mut j: usize = 0;
                    while j < f.attrs.len()
                        invariant
                            j <= f.attrs@.len(),
                            has_key == exists|t: int| 0 <= t < j && is_key_attribute(#[trigger] f.attrs@[t]),
                        decreases f.attrs@.len() - j,
                    {
                        if is_key_attr(&f.attrs[j]) {
                            has_key = true;
                        }
                        j = j + 1;
                    }
                    let ghost prev = keys@;
                    if has_key {
                        match &f.ident {
                            Some(name) => {
                                keys.push(PrimaryKey { name: name.clone(), ty: clone_opt(&f.ty) });
                                assert(keys_view(keys@) =~= keys_view(prev).push(
                                    (name@, match f.ty {
                                        Some(t) => Some(t@),
                                        None => None,
                                    }),
                                ));
                            },
                            None => {},
                        }
                    }
                    assert(keys_view(keys@) == keys_of(fs@, i + 1));
                    i = i + 1;
                }
                Ok(PrimaryKeys(keys))
            },
            _ => Err(KeyError::UnnamedFields),
        }
    }

    /// The type of each key in the seeds, or the error for a key whose type cannot
    /// be one; nothing when there is no key.
    pub fn split_for_impl(&self) -> (r: Vec<Result<KeyType, KeyError>>)
        ensures
            r@.len() == self.0@.len(),
            forall|i: int|
                0 <= i < r@.len() ==> #[trigger] r@[i] == match key_type_of(keys_view(self.0@)[i].1) {
                    Some(t) => Ok(t),
                    None => Err(KeyError::InvalidKeyType),
                },
    {
        let mut out: Vec<Result<KeyType, KeyError>> = Vec::new();
        let mut i: usize = 0;
        while i < self.0.len()
            invariant
                i <= self.0@.len(),
                out@.len() == i,
                forall|t: int|
                    0 <= t < i ==> #[trigger] out@[t] == match key_type_of(keys_view(self.0@)[t].1) {
                        Some(k) => Ok(k),
                        None => Err(KeyError::InvalidKeyType),
                    },
            decreases self.0@.len() - i,
        {
            out.push(self.0[i].seeds_field_ty());
            i = i + 1;
        }
        out
    }
}

impl PrimaryKey {
    /// The type of this key in the seeds.
    pub fn seeds_field_ty(&self) -> (r: Result<KeyType, KeyError>)
        ensures
            r == match key_type_of(
                match self.ty {
                    Some(t) => Some(t@),
                    None => None,
                },
            ) {
                Some(t) => Ok(t),
                None => Err(KeyError::InvalidKeyType),
            },
    {
        match &self.ty {
            None => Err(KeyError::InvalidKeyType),
            Some(t) => {
                let t = t.as_str();
                if same_str(t, "Address") {
                    Ok(KeyType::Address)
                } else if same_str(t, "u64") {
                    Ok(KeyType::U64)
                } else if same_str(t, "u32") {
                    Ok(KeyType::U32)
                } else if same_str(t, "u16") {
                    Ok(KeyType::U16)
                } else if same_str(t, "u8") {
                    Ok(KeyType::U8)
                } else {
                    Err(KeyError::InvalidKeyType)
                }
            },
        }
    }
}

/// The value of a key.
pub enum KeyValue {
    Address(Address),
    U64(u64),
    U32(u32),
    U16(u16),
    U8(u8),
}

/// The seed bytes of a key: an address as it is, a number in little endian.
pub open spec fn key_bytes(v: KeyValue) -> Seq<u8> {
    match v {
        KeyValue::Address(a) => a@,
        KeyValue::U64(x) => le_bytes(x as nat, 8),
        KeyValue::U32(x) => le_bytes(x as nat, 4),
        KeyValue::U16(x) => le_bytes(x as nat, 2),
        KeyValue::U8(x) => le_bytes(x as nat, 1),
    }
}

/// What `str::to_lowercase` makes of a string.
pub uninterp spec fn lowercase(s: Seq<char>) -> Seq<char>;

/// `str::to_lowercase`. Claimed: the result depends on the characters of `s` alone.
#[verifier::external_body]
fn to_lowercase(s: &str) -> (r: String)
    ensures
        r@ == lowercase(s@),
{
    s.to_lowercase()
}

fn number_bytes(x: u64, n: usize) -> (r: Vec<u8>)
    ensures
        r@ == le_bytes(x as nat, n as nat),
{
    let mut out: Vec<u8> = Vec::new();
    let mut v: u64 = x;
    let mut i: usize = 0;
    while i < n
        invariant
            i <= n,
            out@ + le_bytes(v as nat, (n - i) as nat) == le_bytes(x as nat, n as nat),
        decreases n - i,
    {
        let b = (v % 256) as u8;
        let ghost prev = out@;
        out.push(b);
        proof {
            assert(le_bytes(v as nat, (n - i) as nat) =~= seq![b] + le_bytes(
                (v / 256) as nat,
                (n - i - 1) as nat,
            ));
            assert(out@ + le_bytes((v / 256) as nat, (n - i - 1) as nat) =~= prev + le_bytes(
                v as nat,
                (n - i) as nat,
            ));
        }
        v = v / 256;
        i = i + 1;
    }
    assert(out@ =~= out@ + le_bytes(v as nat, 0));
    out
}

/// The seed bytes of a key.
pub fn key_seed(v: &KeyValue) -> (r: Vec<u8>)
    ensures
        r@ == key_bytes(*v),
{
    match v {
        KeyValue::Address(a) => {
            let mut out: Vec<u8> = Vec::new();
            let mut i: usize = 0;
            while i < 32
                invariant
                    a@.len() == 32,
                    i <= 32,
                    out@ == a@.take(i as int),
                decreases 32 - i,
            {
                out.push(a[i]);
                i = i + 1;
                assert(out@ =~= a@.take(i as int));
            }
            assert(a@.take(32) =~= a@);
            out
        },
        KeyValue::U64(x) => number_bytes(*x, 8),
        KeyValue::U32(x) => number_bytes(*x as u64, 4),
        KeyValue::U16(x) => number_bytes(*x as u64, 2),
        KeyValue::U8(x) => number_bytes(*x as u64, 1),
    }
}

/// The seeds of an account of type `account_name` with these key values: the bytes
/// of the lowercase type name, then each key's bytes.
pub open spec fn seeds_of(account_name: Seq<char>, keys: Seq<KeyValue>) -> Seq<Seq<u8>> {
    seq![encode_utf8(lowercase(account_name))] + keys.map_values(|k: KeyValue| key_bytes(k))
}

/// The bytes of each seed.
pub open spec fn seeds_view(seeds: Seq<Vec<u8>>) -> Seq<Seq<u8>> {
    seeds.map_values(|b: Vec<u8>| b@)
}

/// The seeds of an account: what the generated `as_seeds` returns.
pub fn as_seeds(account_name: &str, keys: &Vec<KeyValue>) -> (r: Vec<Vec<u8>>)
    ensures
        seeds_view(r@) == seeds_of(account_name@, keys@),
{
    let base = to_lowercase(account_name);
    let bytes = base.as_str().as_bytes();
    let mut first: Vec<u8> = Vec::new();
    let mut i: usize = 0;
    while i < bytes.len()
        invariant
            i <= bytes@.len(),
            first@ == bytes@.take(i as int),
        decreases bytes@.len() - i,
    {
        first.push(bytes[i]);
        i = i + 1;
        assert(first@ =~= bytes@.take(i as int));
    }
    assert(bytes@.take(bytes@.len() as int) =~= bytes@);
    let mut out: Vec<Vec<u8>> = Vec::new();
    out.push(first);
    assert(seeds_view(out@) =~= seeds_of(account_name@, keys@.take(0)));
    let mut k: usize = 0;
    while k < keys.len()
        invariant
            k <= keys@.len(),
            seeds_view(out@) == seeds_of(account_name@, keys@.take(k as int)),
        decreases keys@.len() - k,
    {
        let ghost prev = out@;
        out.push(key_seed(&keys[k]));
        assert(keys@.take(k + 1) =~= keys@.take(k as int).push(keys@[k as int]));
        assert(seeds_view(out@) =~= seeds_view(prev).push(key_bytes(keys@[k as int])));
        k = k + 1;
        assert(seeds_view(out@) =~= seeds_of(account_name@, keys@.take(k as int)));
    }
    assert(keys@.take(keys@.len() as int) =~= keys@);
    out
}

/// The seeds followed by the bump: what the generated `seeds_with_bump` returns.
pub fn seeds_with_bump(account_name: &str, keys: &Vec<KeyValue>, bump: &[u8]) -> (r: Vec<Vec<u8>>)
    ensures
        seeds_view(r@) == seeds_of(account_name@, keys@).push(bump@),
{
    let mut seeds = as_seeds(account_name, keys);
    let mut b: Vec<u8> = Vec::new();
    let mut i: usize = 0;
    while i < bump.len()
        invariant
            i <= bump@.len(),
            b@ == bump@.take(i as int),
        decreases bump@.len() - i,
    {
        b.push(bump[i]);
        i = i + 1;
        assert(b@ =~= bump@.take(i as int));
    }
    assert(bump@.take(bump@.len() as int) =~= bump@);
    let ghost prev = seeds@;
    seeds.push(b);
    assert(seeds_view(seeds@) =~= seeds_view(prev).push(bump@));
    seeds
}

/// The kind of a key value.
pub open spec fn value_kind(v: KeyValue) -> KeyType {
    match v {
        KeyValue::Address(_) => KeyType::Address,
        KeyValue::U64(_) => KeyType::U64,
        KeyValue::U32(_) => KeyType::U32,
        KeyValue::U16(_) => KeyType::U16,
        KeyValue::U8(_) => KeyType::U8,
    }
}

/// The Rust type that a key of each kind is declared with.
pub open spec fn declared_type(v: KeyValue) -> Seq<char> {
    match v {
        KeyValue::Address(_) => "Address"@,
        KeyValue::U64(_) => "u64"@,
        KeyValue::U32(_) => "u32"@,
        KeyValue::U16(_) => "u16"@,
        KeyValue::U8(_) => "u8"@,
    }
}

/// The width of the seed field generated for a key type: `[u8; 32]` for an address,
/// `[u8; 8]`, `[u8; 4]`, `[u8; 2]`, `[u8; 1]` for the numbers.
pub open spec fn seed_width(t: KeyType) -> nat {
    match t {
        KeyType::Address => 32,
        KeyType::U64 => 8,
        KeyType::U32 => 4,
        KeyType::U16 => 2,
        KeyType::U8 => 1,
    }
}

/// Each key type is accepted: a key declared with the type of a key value maps to the
/// kind of that value, whose seed field is exactly as wide as the value's seed bytes.
/// Types other than `Address`, `u64`, `u32`, `u16` and `u8` are refused.
pub proof fn law_key_types_and_seed_widths(v: KeyValue, t: Seq<char>)
    ensures
        key_type_of(Some(declared_type(v))) == Some(value_kind(v)),
        key_bytes(v).len() == seed_width(value_kind(v)),
        key_type_of(Some(t)) is None <==> (t != "Address"@ && t != "u64"@ && t != "u32"@ && t != "u16"@ && t
            != "u8"@),
        key_type_of(None) is None,
{
    reveal_strlit("Address");
    reveal_strlit("u64");
    reveal_strlit("u32");
    reveal_strlit("u16");
    reveal_strlit("u8");
    assert("Address"@.len() == 7);
    assert("u64"@.len() == 3 && "u32"@.len() == 3 && "u16"@.len() == 3 && "u8"@.len() == 2);
    assert("u64"@ != "Address"@ && "u32"@ != "Address"@ && "u16"@ != "Address"@ && "u8"@ != "Address"@);
    assert("u32"@[1] != "u64"@[1] && "u16"@[1] != "u64"@[1] && "u16"@[1] != "u32"@[1]);
    assert("u8"@.len() != "u64"@.len());
    assert(key_type_of(Some("Address"@)) == Some(KeyType::Address));
    assert(key_type_of(Some("u64"@)) == Some(KeyType::U64));
    assert(key_type_of(Some("u32"@)) == Some(KeyType::U32));
    assert(key_type_of(Some("u16"@)) == Some(KeyType::U16));
    assert(key_type_of(Some("u8"@)) == Some(KeyType::U8));
    match v {
        KeyValue::Address(_) => {},
        KeyValue::U64(x) => crate::le::lemma_le_bytes_len(x as nat, 8),
        KeyValue::U32(x) => crate::le::lemma_le_bytes_len(x as nat, 4),
        KeyValue::U16(x) => crate::le::lemma_le_bytes_len(x as nat, 2),
        KeyValue::U8(x) => crate::le::lemma_le_bytes_len(x as nat, 1),
    }
}

} // verus!
