//! The checks that turn a raw account into a typed account.
//!
//! An [`AccountInfo`] holds, as plain values, what the checks read of an account
//! that a transaction passed to the program.
use crate::discriminator::{discriminator_matches, Discriminator};
use core::marker::PhantomData;
use vstd::prelude::*;

verus! {

/// A 32-byte account or program address.
pub type Address = [u8; 32];

/// What the checks read of an account.
pub struct AccountInfo {
    pub address: Address,
    pub owner: Address,
    pub lamports: u64,
    pub data: Vec<u8>,
    pub is_signer: bool,
    pub is_writable: bool,
    pub executable: bool,
}

/// Why an account was refused.
#[derive(Debug, Clone, Copy, PartialEq, Eq, Structural)]
pub enum Error {
    AccountDataTooSmall,
    AccountDiscriminatorMismatch,
    InvalidAccountOwner,
    UninitializedAccount,
    IncorrectProgramId,
    AccountNotSigner,
    BorshIoError,
}

/// The address of the system program: all zero bytes.
pub open spec fn is_zero_address(a: Seq<u8>) -> bool {
    forall|i: int| 0 <= i < a.len() ==> a[i] == 0
}

/// Whether an address is all zero bytes.
pub fn address_is_zero(a: &Address) -> (r: bool)
    ensures
        r == is_zero_address(a@),
{
    let mut i: usize = 0;
    while i < 32
        invariant
            a@.len() == 32,
            i <= 32,
            forall|j: int| 0 <= j < i ==> a@[j] == 0,
        decreases 32 - i,
    {
        if a[i] != 0 {
            return false;
        }
        i = i + 1;
    }
    true
}

/// Whether two addresses are equal.
pub fn address_eq(a: &Address, b: &Address) -> (r: bool)
    ensures
        r == (a@ == b@),
{
    let mut i: usize = 0;
    while i < 32
        invariant
            a@.len() == 32,
            b@.len() == 32,
            i <= 32,
            forall|j: int| 0 <= j < i ==> a@[j] == b@[j],
        decreases 32 - i,
    {
        if a[i] != b[i] {
            return false;
        }
        i = i + 1;
    }
    assert(a@ =~= b@);
    true
}

/// Whether `list` holds `a`.
pub fn addresses_contain(list: &[Address], a: &Address) -> (r: bool)
    ensures
        r == exists|i: int| 0 <= i < list@.len() && list@[i]@ == a@,
{
    let mut i: usize = 0;
    while i < list.len()
        invariant
            i <= list@.len(),
            forall|j: int| 0 <= j < i ==> list@[j]@ != a@,
        decreases list@.len() - i,
    {
        if address_eq(&list[i], a) {
            return true;
        }
        i = i + 1;
    }
    false
}

/// A program whose address can be recognised.
pub trait CheckProgramId {
    spec fn is_program_address(address: Seq<u8>) -> bool;

    fn address_eq(program_id: &Address) -> (r: bool)
        ensures
            r == Self::is_program_address(program_id@),
    ;
}

/// The system program.
pub struct System;

impl CheckProgramId for System {
    open spec fn is_program_address(address: Seq<u8>) -> bool {
        is_zero_address(address)
    }

    fn address_eq(program_id: &Address) -> (r: bool) {
        address_is_zero(program_id)
    }
}

/// A type whose accounts belong to one program.
pub trait Owner {
    const OWNER: Address;
}

/// A type whose accounts may belong to any of several programs.
pub trait Owners {
    const OWNERS: &'static [Address];
}

/// A type with a rule on which programs may own its accounts.
pub trait CheckOwner {
    spec fn allowed_owner(owner: Seq<u8>) -> bool;

    fn owned_by(owner: &Address) -> (r: bool)
        ensures
            r == Self::allowed_owner(owner@),
    ;
}

/// A type whose accounts belong to one program accepts that program as owner.
impl<T> CheckOwner for T where T: Owner {
    open spec fn allowed_owner(owner: Seq<u8>) -> bool {
        owner == T::OWNER@
    }

    fn owned_by(owner: &Address) -> (r: bool) {
        let expected = T::OWNER;
        address_eq(owner, &expected)
    }
}

/// A set of program addresses that an interface accepts.
pub trait ProgramIds {
    const IDS: &'static [Address];
}

/// A typed account that can be made of a raw account after checks.
pub trait FromAccountInfo<'a>: Sized {
    /// What the checks of this account type give on `info`.
    spec fn checked(info: AccountInfo) -> Result<(), Error>;

    fn try_from_info(info: &'a AccountInfo) -> (r: Result<Self, Error>)
        ensures
            r is Ok <==> Self::checked(*info) is Ok,
            r matches Err(e) ==> Self::checked(*info) == Err::<(), Error>(e),
    ;
}

/// The checks shared by accounts that hold typed state: length, discriminator,
/// owner, and, for accounts of the system program, a balance.
pub open spec fn state_checks<T: Discriminator>(info: AccountInfo, owner_allowed: bool) -> Result<
    (),
    Error,
> {
    let dlen = T::DISCRIMINATOR@.len();
    if info.data@.len() < dlen {
        Err(Error::AccountDataTooSmall)
    } else if info.data@.take(dlen as int) != T::DISCRIMINATOR@ {
        Err(Error::AccountDiscriminatorMismatch)
    } else if !owner_allowed {
        Err(Error::InvalidAccountOwner)
    } else if is_zero_address(info.owner@) && info.lamports == 0 {
        Err(Error::UninitializedAccount)
    } else {
        Ok(())
    }
}

/// Runs [`state_checks`], given whether the owner is allowed.
fn check_state<T: Discriminator>(info: &AccountInfo, owner_allowed: bool) -> (r: Result<(), Error>)
    ensures
        r == state_checks::<T>(*info, owner_allowed),
{
    if info.data.len() < T::DISCRIMINATOR.len() {
        return Err(Error::AccountDataTooSmall);
    }
    if !discriminator_matches::<T>(info.data.as_slice()) {
        return Err(Error::AccountDiscriminatorMismatch);
    }
    if !owner_allowed {
        return Err(Error::InvalidAccountOwner);
    }
    if System::address_eq(&info.owner) {
        if info.lamports == 0 {
            return Err(Error::UninitializedAccount);
        }
    }
    Ok(())
}

/// An account that holds state of type `T`.
pub struct Account<'a, T> where T: Discriminator {
    pub info: &'a AccountInfo,
    _phantom: PhantomData<T>,
}

impl<'a, T> FromAccountInfo<'a> for Account<'a, T> where T: CheckOwner + Discriminator {
    open spec fn checked(info: AccountInfo) -> Result<(), Error> {
        state_checks::<T>(info, T::allowed_owner(info.owner@))
    }

    fn try_from_info(info: &'a AccountInfo) -> (r: Result<Self, Error>)
        ensures
            r matches Ok(acc) ==> acc.raw() == *info,
    {
        let owner_allowed = T::owned_by(&info.owner);
        match check_state::<T>(info, owner_allowed) {
            Ok(()) => Ok(Account { info, _phantom: PhantomData }),
            Err(e) => Err(e),
        }
    }
}

/// An account whose state of type `T` is decoded when the account is checked.
pub struct BorshAccount<'a, T> {
    pub info: &'a AccountInfo,
    pub data: T,
}

impl<'a, T> BorshAccount<'a, T> where T: Owner + Discriminator {
    /// The checks before decoding: length, discriminator, owner `T::OWNER`, balance.
    pub open spec fn checked(info: AccountInfo) -> Result<(), Error> {
        state_checks::<T>(info, info.owner@ == T::OWNER@)
    }

    /// Checks the account, then decodes its state from the bytes after the
    /// discriminator with `decode`; a state that does not decode is a borsh error.
    pub fn try_from_info<F>(info: &'a AccountInfo, decode: F) -> (r: Result<Self, Error>) where
        F: Fn(&[u8]) -> Option<T>,

        requires
            forall|bytes: &[u8]| #[trigger] decode.requires((bytes,)),
        ensures
            Self::checked(*info) is Err ==> r == Err::<Self, Error>(
                Self::checked(*info)->Err_0,
            ),
            Self::checked(*info) is Ok ==> exists|bytes: &[u8], v: Option<T>|
                #![trigger decode.ensures((bytes,), v)]
                {
                    &&& bytes@ == info.data@.skip(T::DISCRIMINATOR@.len() as int)
                    &&& decode.ensures((bytes,), v)
                    &&& (v matches Some(d) ==> (r matches Ok(acc) && acc.data == d))
                    &&& (v is None ==> r == Err::<Self, Error>(Error::BorshIoError))
                },
            r matches Ok(acc) ==> acc.info == info,
            r matches Err(e) ==> Self::checked(*info) is Err || e == Error::BorshIoError,
    {
        let owner = T::OWNER;
        let owner_allowed = address_eq(&info.owner, &owner);
        match check_state::<T>(info, owner_allowed) {
            Ok(()) => {
                let bytes = vstd::slice::slice_subrange(
                    info.data.as_slice(),
                    T::DISCRIMINATOR.len(),
                    info.data.len(),
                );
                assert(bytes@ =~= info.data@.skip(T::DISCRIMINATOR@.len() as int));
                let decoded = decode(bytes);
                let ghost v = decoded;
                let r = match decoded {
                    Some(data) => Ok(BorshAccount { info, data }),
                    None => Err(Error::BorshIoError),
                };
                assert(decode.ensures((bytes,), v));
                r
            },
            Err(e) => Err(e),
        }
    }
}

/// An account of a type that several programs may own.
pub struct InterfaceAccount<'a, T> where T: Discriminator {
    pub info: &'a AccountInfo,
    _phantom: PhantomData<T>,
}

impl<'a, T> FromAccountInfo<'a> for InterfaceAccount<'a, T> where T: Discriminator + Owners {
    open spec fn checked(info: AccountInfo) -> Result<(), Error> {
        state_checks::<T>(
            info,
            exists|i: int| 0 <= i < T::OWNERS@.len() && T::OWNERS@[i]@ == info.owner@,
        )
    }

    fn try_from_info(info: &'a AccountInfo) -> (r: Result<Self, Error>)
        ensures
            r matches Ok(acc) ==> acc.raw() == *info,
    {
        let owner_allowed = addresses_contain(T::OWNERS, &info.owner);
        match check_state::<T>(info, owner_allowed) {
            Ok(()) => Ok(InterfaceAccount { info, _phantom: PhantomData }),
            Err(e) => Err(e),
        }
    }
}

/// An executable account whose address is one of the programs of `T`.
pub struct Interface<'a, T> {
    pub info: &'a AccountInfo,
    _phantom: PhantomData<T>,
}

impl<'a, T> FromAccountInfo<'a> for Interface<'a, T> where T: ProgramIds {
    open spec fn checked(info: AccountInfo) -> Result<(), Error> {
        if !(exists|i: int| 0 <= i < T::IDS@.len() && T::IDS@[i]@ == info.address@) {
            Err(Error::IncorrectProgramId)
        } else if !info.executable {
            Err(Error::InvalidAccountOwner)
        } else {
            Ok(())
        }
    }

    fn try_from_info(info: &'a AccountInfo) -> (r: Result<Self, Error>)
        ensures
            r matches Ok(acc) ==> acc.raw() == *info,
    {
        if !addresses_contain(T::IDS, &info.address) {
            return Err(Error::IncorrectProgramId);
        }
        if !info.executable {
            return Err(Error::InvalidAccountOwner);
        }
        Ok(Interface { info, _phantom: PhantomData })
    }
}

/// The executable account of program `T`.
pub struct Program<'a, T> {
    pub info: &'a AccountInfo,
    _phantom: PhantomData<T>,
}

impl<'a, T> FromAccountInfo<'a> for Program<'a, T> where T: CheckProgramId {
    open spec fn checked(info: AccountInfo) -> Result<(), Error> {
        if !T::is_program_address(info.address@) {
            Err(Error::IncorrectProgramId)
        } else if !info.executable {
            Err(Error::InvalidAccountOwner)
        } else {
            Ok(())
        }
    }

    fn try_from_info(info: &'a AccountInfo) -> (r: Result<Self, Error>)
        ensures
            r matches Ok(acc) ==> acc.raw() == *info,
    {
        if !T::address_eq(&info.address) {
            return Err(Error::IncorrectProgramId);
        }
        if !info.executable {
            return Err(Error::InvalidAccountOwner);
        }
        Ok(Program { info, _phantom: PhantomData })
    }
}

/// An account owned by the system program.
pub struct SystemAccount<'a> {
    pub info: &'a AccountInfo,
}

impl<'a> FromAccountInfo<'a> for SystemAccount<'a> {
    open spec fn checked(info: AccountInfo) -> Result<(), Error> {
        if !is_zero_address(info.owner@) {
            Err(Error::InvalidAccountOwner)
        } else {
            Ok(())
        }
    }

    fn try_from_info(info: &'a AccountInfo) -> (r: Result<Self, Error>)
        ensures
            r matches Ok(acc) ==> acc.raw() == *info,
    {
        if !System::address_eq(&info.owner) {
            return Err(Error::InvalidAccountOwner);
        }
        Ok(SystemAccount { info })
    }
}

/// An account taken without checks.
pub struct UncheckedAccount<'a> {
    pub info: &'a AccountInfo,
}

impl<'a> FromAccountInfo<'a> for UncheckedAccount<'a> {
    open spec fn checked(info: AccountInfo) -> Result<(), Error> {
        Ok(())
    }

    fn try_from_info(info: &'a AccountInfo) -> (r: Result<Self, Error>)
        ensures
            r matches Ok(acc) ==> acc.raw() == *info,
    {
        Ok(UncheckedAccount { info })
    }
}

/// How a signer account is checked.
pub trait SignerCheck {
    spec fn signer_checked(info: AccountInfo) -> Result<(), Error>;

    fn check(info: &AccountInfo) -> (r: Result<(), Error>)
        ensures
            r == Self::signer_checked(*info),
    ;
}

/// The account must have signed the transaction.
pub struct Check;

impl SignerCheck for Check {
    open spec fn signer_checked(info: AccountInfo) -> Result<(), Error> {
        if info.is_signer {
            Ok(())
        } else {
            Err(Error::AccountNotSigner)
        }
    }

    fn check(info: &AccountInfo) -> (r: Result<(), Error>) {
        if info.is_signer {
            Ok(())
        } else {
            Err(Error::AccountNotSigner)
        }
    }
}

/// The signature is not checked.
pub struct NoCheck;

impl SignerCheck for NoCheck {
    open spec fn signer_checked(info: AccountInfo) -> Result<(), Error> {
        Ok(())
    }

    fn check(info: &AccountInfo) -> (r: Result<(), Error>) {
        Ok(())
    }
}

/// An account of type `T` that signed the transaction (checked by `C`).
pub struct Signer<'a, T, C> where C: SignerCheck {
    pub acc: T,
    _phantom: PhantomData<&'a C>,
}

impl<'a, T, C> FromAccountInfo<'a> for Signer<'a, T, C> where
    C: SignerCheck,
    T: FromAccountInfo<'a>,
 {
    open spec fn checked(info: AccountInfo) -> Result<(), Error> {
        match C::signer_checked(info) {
            Err(e) => Err(e),
            Ok(()) => T::checked(info),
        }
    }

    fn try_from_info(info: &'a AccountInfo) -> (r: Result<Self, Error>) {
        match C::check(info) {
            Err(e) => Err(e),
            Ok(()) => match T::try_from_info(info) {
                Ok(acc) => Ok(Signer { acc, _phantom: PhantomData }),
                Err(e) => Err(e),
            },
        }
    }
}

/// A writable account of type `T`.
pub struct Mut<T>(pub T);

impl<'a, T> FromAccountInfo<'a> for Mut<T> where T: FromAccountInfo<'a> {
    open spec fn checked(info: AccountInfo) -> Result<(), Error> {
        T::checked(info)
    }

    fn try_from_info(info: &'a AccountInfo) -> (r: Result<Self, Error>) {
        match T::try_from_info(info) {
            Ok(acc) => Ok(Mut(acc)),
            Err(e) => Err(e),
        }
    }
}

/// An optional account: the all-zero address stands for its absence.
impl<'a, T> FromAccountInfo<'a> for Option<T> where T: FromAccountInfo<'a> {
    open spec fn checked(info: AccountInfo) -> Result<(), Error> {
        if is_zero_address(info.address@) {
            Ok(())
        } else {
            T::checked(info)
        }
    }

    fn try_from_info(info: &'a AccountInfo) -> (r: Result<Self, Error>) {
        if address_is_zero(&info.address) {
            Ok(None)
        } else {
            match T::try_from_info(info) {
                Ok(acc) => Ok(Some(acc)),
                Err(e) => Err(e),
            }
        }
    }
}

/// A typed account that gives access to the raw account it was made of.
pub trait ReadableAccount {
    /// The raw account.
    spec fn raw(&self) -> AccountInfo;

    fn as_info(&self) -> (r: &AccountInfo)
        ensures
            *r == self.raw(),
    ;

    /// The account's address.
    fn address(&self) -> (r: &Address)
        ensures
            *r == self.raw().address,
    {
        &self.as_info().address
    }

    /// Whether the account is owned by `owner`.
    fn owned_by(&self, owner: &Address) -> (r: bool)
        ensures
            r == (self.raw().owner@ == owner@),
    {
        address_eq(&self.as_info().owner, owner)
    }

    /// The account's balance.
    fn lamports(&self) -> (r: u64)
        ensures
            r == self.raw().lamports,
    {
        self.as_info().lamports
    }

    /// The account's data.
    fn raw_data(&self) -> (r: &[u8])
        ensures
            r@ == self.raw().data@,
    {
        self.as_info().data.as_slice()
    }
}

/// A typed account that signed the transaction.
pub trait SignerAccount: ReadableAccount {}

impl<'a, T> ReadableAccount for Account<'a, T> where T: Discriminator {
    closed spec fn raw(&self) -> AccountInfo {
        *self.info
    }

    fn as_info(&self) -> (r: &AccountInfo) {
        self.info
    }
}

impl<'a, T> ReadableAccount for BorshAccount<'a, T> {
    closed spec fn raw(&self) -> AccountInfo {
        *self.info
    }

    fn as_info(&self) -> (r: &AccountInfo) {
        self.info
    }
}

impl<'a, T> ReadableAccount for InterfaceAccount<'a, T> where T: Discriminator {
    closed spec fn raw(&self) -> AccountInfo {
        *self.info
    }

    fn as_info(&self) -> (r: &AccountInfo) {
        self.info
    }
}

impl<'a, T> ReadableAccount for Interface<'a, T> {
    closed spec fn raw(&self) -> AccountInfo {
        *self.info
    }

    fn as_info(&self) -> (r: &AccountInfo) {
        self.info
    }
}

impl<'a, T> ReadableAccount for Program<'a, T> {
    closed spec fn raw(&self) -> AccountInfo {
        *self.info
    }

    fn as_info(&self) -> (r: &AccountInfo) {
        self.info
    }
}

impl<'a> ReadableAccount for SystemAccount<'a> {
    closed spec fn raw(&self) -> AccountInfo {
        *self.info
    }

    fn as_info(&self) -> (r: &AccountInfo) {
        self.info
    }
}

impl<'a> ReadableAccount for UncheckedAccount<'a> {
    closed spec fn raw(&self) -> AccountInfo {
        *self.info
    }

    fn as_info(&self) -> (r: &AccountInfo) {
        self.info
    }
}

impl<'a, T, C> ReadableAccount for Signer<'a, T, C> where T: ReadableAccount, C: SignerCheck {
    closed spec fn raw(&self) -> AccountInfo {
        self.acc.raw()
    }

    fn as_info(&self) -> (r: &AccountInfo) {
        self.acc.as_info()
    }
}

impl<'a, T, C> SignerAccount for Signer<'a, T, C> where T: ReadableAccount, C: SignerCheck {}

impl<T> ReadableAccount for Mut<T> where T: ReadableAccount {
    closed spec fn raw(&self) -> AccountInfo {
        self.0.raw()
    }

    fn as_info(&self) -> (r: &AccountInfo) {
        self.0.as_info()
    }
}

impl<'a, T, C> SignerAccount for Mut<Signer<'a, T, C>> where T: ReadableAccount, C: SignerCheck {}

/// An interface account accepts every one of its listed owners: when the data is long
/// enough and starts with the discriminator, and the account is not an unfunded
/// system account, the checks pass exactly when the owner is one of `T::OWNERS`,
/// whichever place it has in the list; otherwise they fail with `InvalidAccountOwner`.
pub proof fn law_interface_account_accepts_every_owner<'a, T: Discriminator + Owners>(info: AccountInfo)
    requires
        info.data@.len() >= T::DISCRIMINATOR@.len(),
        info.data@.take(T::DISCRIMINATOR@.len() as int) == T::DISCRIMINATOR@,
        !(is_zero_address(info.owner@) && info.lamports == 0),
    ensures
        forall|i: int|
            0 <= i < T::OWNERS@.len() && #[trigger] T::OWNERS@[i]@ == info.owner@
                ==> <InterfaceAccount<'a, T> as FromAccountInfo<'a>>::checked(info) == Ok::<(), Error>(()),
        (forall|i: int| 0 <= i < T::OWNERS@.len() ==> #[trigger] T::OWNERS@[i]@ != info.owner@)
            ==> <InterfaceAccount<'a, T> as FromAccountInfo<'a>>::checked(info) == Err::<(), Error>(
            Error::InvalidAccountOwner,
        ),
{
}

} // verus!
