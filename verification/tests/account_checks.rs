use typhoon::account::{
    Account, AccountInfo, Address, BorshAccount, Check, CheckProgramId, Error,
    FromAccountInfo, Interface, InterfaceAccount, Mut, NoCheck, Owner, Owners, Program,
    ProgramIds, ReadableAccount, Signer, System, SystemAccount, UncheckedAccount,
};
use typhoon::discriminator::{discriminator_matches, simd_compare_discriminator, Discriminator};

const PROGRAM: Address = [7u8; 32];
const OTHER: Address = [8u8; 32];

struct Counter;

impl Discriminator for Counter {
    const DISCRIMINATOR: &'static [u8] = &[1, 2, 3, 4];
}

impl Owner for Counter {
    const OWNER: Address = PROGRAM;
}

impl Owners for Counter {
    const OWNERS: &'static [Address] = &[OTHER, PROGRAM];
}

struct Programs;

impl ProgramIds for Programs {
    const IDS: &'static [Address] = &[PROGRAM, OTHER];
}

fn info(address: Address, owner: Address, lamports: u64, data: Vec<u8>) -> AccountInfo {
    AccountInfo {
        address,
        owner,
        lamports,
        data,
        is_signer: false,
        is_writable: false,
        executable: false,
    }
}

#[test]
fn state_account_accepted() {
    let acc = info([1; 32], PROGRAM, 10, vec![1, 2, 3, 4, 9]);
    assert!(<Account<Counter> as FromAccountInfo>::try_from_info(&acc).is_ok());
}

#[test]
fn state_account_too_small() {
    let acc = info([1; 32], PROGRAM, 10, vec![1, 2, 3]);
    assert_eq!(
        <Account<Counter> as FromAccountInfo>::try_from_info(&acc).err(),
        Some(Error::AccountDataTooSmall)
    );
}

#[test]
fn state_account_wrong_discriminator() {
    let acc = info([1; 32], PROGRAM, 10, vec![1, 2, 3, 5]);
    assert_eq!(
        <Account<Counter> as FromAccountInfo>::try_from_info(&acc).err(),
        Some(Error::AccountDiscriminatorMismatch)
    );
}

#[test]
fn state_account_wrong_owner() {
    let acc = info([1; 32], OTHER, 10, vec![1, 2, 3, 4]);
    assert_eq!(
        <Account<Counter> as FromAccountInfo>::try_from_info(&acc).err(),
        Some(Error::InvalidAccountOwner)
    );
}

#[test]
fn interface_account_accepts_any_listed_owner() {
    let acc = info([1; 32], OTHER, 10, vec![1, 2, 3, 4]);
    assert!(<InterfaceAccount<Counter> as FromAccountInfo>::try_from_info(&acc).is_ok());
    let acc = info([1; 32], [9; 32], 10, vec![1, 2, 3, 4]);
    assert_eq!(
        <InterfaceAccount<Counter> as FromAccountInfo>::try_from_info(&acc).err(),
        Some(Error::InvalidAccountOwner)
    );
}

#[test]
fn system_owned_state_without_lamports_is_uninitialized() {
    struct Free;
    impl Discriminator for Free {
        const DISCRIMINATOR: &'static [u8] = &[];
    }
    impl Owner for Free {
        const OWNER: Address = [0; 32];
    }
    let acc = info([1; 32], [0; 32], 0, vec![]);
    assert_eq!(
        <Account<Free> as FromAccountInfo>::try_from_info(&acc).err(),
        Some(Error::UninitializedAccount)
    );
    let acc = info([1; 32], [0; 32], 1, vec![]);
    assert!(<Account<Free> as FromAccountInfo>::try_from_info(&acc).is_ok());
}

struct Config {
    value: u16,
}

impl Discriminator for Config {
    const DISCRIMINATOR: &'static [u8] = &[1, 2, 3, 4];
}

impl Owner for Config {
    const OWNER: Address = PROGRAM;
}

fn decode_config(bytes: &[u8]) -> Option<Config> {
    if bytes.len() == 2 {
        Some(Config { value: u16::from_le_bytes([bytes[0], bytes[1]]) })
    } else {
        None
    }
}

#[test]
fn borsh_account_decodes_after_discriminator() {
    let acc = info([1; 32], PROGRAM, 10, vec![1, 2, 3, 4, 42, 1]);
    let decoded = BorshAccount::<Config>::try_from_info(&acc, decode_config);
    assert_eq!(decoded.map(|a| a.data.value).ok(), Some(298));

    let short = info([1; 32], PROGRAM, 10, vec![1, 2, 3, 4, 42]);
    let decoded = BorshAccount::<Config>::try_from_info(&short, decode_config);
    assert_eq!(decoded.err().map(|e| e), Some(Error::BorshIoError));

    let foreign = info([1; 32], OTHER, 10, vec![1, 2, 3, 4, 42, 0]);
    let decoded = BorshAccount::<Config>::try_from_info(&foreign, decode_config);
    assert_eq!(decoded.err(), Some(Error::InvalidAccountOwner));
}

#[test]
fn program_accounts() {
    let mut system = info([0; 32], [0; 32], 1, vec![]);
    system.executable = true;
    assert!(<Program<System> as FromAccountInfo>::try_from_info(&system).is_ok());
    let mut other = info([5; 32], [0; 32], 1, vec![]);
    other.executable = true;
    assert_eq!(
        <Program<System> as FromAccountInfo>::try_from_info(&other).err(),
        Some(Error::IncorrectProgramId)
    );
    let not_exec = info([0; 32], [0; 32], 1, vec![]);
    assert_eq!(
        <Program<System> as FromAccountInfo>::try_from_info(&not_exec).err(),
        Some(Error::InvalidAccountOwner)
    );
    assert!(System::address_eq(&[0; 32]));
    assert!(!System::address_eq(&[1; 32]));

    let mut listed = info(OTHER, [0; 32], 1, vec![]);
    listed.executable = true;
    assert!(<Interface<Programs> as FromAccountInfo>::try_from_info(&listed).is_ok());
    let mut unlisted = info([3; 32], [0; 32], 1, vec![]);
    unlisted.executable = true;
    assert_eq!(
        <Interface<Programs> as FromAccountInfo>::try_from_info(&unlisted).err(),
        Some(Error::IncorrectProgramId)
    );
}

#[test]
fn system_and_unchecked_accounts() {
    let acc = info([1; 32], [0; 32], 0, vec![]);
    assert!(<SystemAccount as FromAccountInfo>::try_from_info(&acc).is_ok());
    let acc = info([1; 32], PROGRAM, 0, vec![]);
    assert_eq!(
        <SystemAccount as FromAccountInfo>::try_from_info(&acc).err(),
        Some(Error::InvalidAccountOwner)
    );
    assert!(<UncheckedAccount as FromAccountInfo>::try_from_info(&acc).is_ok());
}

#[test]
fn signer_checks() {
    let mut acc = info([1; 32], [0; 32], 0, vec![]);
    assert_eq!(
        <Signer<UncheckedAccount, Check> as FromAccountInfo>::try_from_info(&acc).err(),
        Some(Error::AccountNotSigner)
    );
    assert!(<Signer<UncheckedAccount, NoCheck> as FromAccountInfo>::try_from_info(&acc).is_ok());
    acc.is_signer = true;
    assert!(<Signer<UncheckedAccount, Check> as FromAccountInfo>::try_from_info(&acc).is_ok());
    assert!(<Mut<Signer<UncheckedAccount, Check>> as FromAccountInfo>::try_from_info(&acc).is_ok());
}

#[test]
fn optional_account_absent_at_zero_address() {
    let absent = info([0; 32], PROGRAM, 0, vec![]);
    let r = <Option<SystemAccount> as FromAccountInfo>::try_from_info(&absent);
    assert!(matches!(r, Ok(None)));
    let present = info([1; 32], [0; 32], 0, vec![]);
    let r = <Option<SystemAccount> as FromAccountInfo>::try_from_info(&present);
    assert!(matches!(r, Ok(Some(_))));
    let refused = info([1; 32], PROGRAM, 0, vec![]);
    let r = <Option<SystemAccount> as FromAccountInfo>::try_from_info(&refused);
    assert_eq!(r.err(), Some(Error::InvalidAccountOwner));
}

#[test]
fn discriminator_comparison() {
    assert!(simd_compare_discriminator(&[1, 2, 3, 4, 5], &[1, 2, 3], 3));
    assert!(!simd_compare_discriminator(&[1, 2, 4], &[1, 2, 3], 3));
    assert!(discriminator_matches::<Counter>(&[1, 2, 3, 4]));
    assert!(!discriminator_matches::<Counter>(&[1, 2, 3, 0, 0]));
}

#[test]
fn readable_accounts_expose_the_raw_account() {
    let mut acc = info([2; 32], PROGRAM, 77, vec![1, 2, 3, 4, 5]);
    acc.is_signer = true;
    let signer = <Mut<Signer<Account<Counter>, Check>> as FromAccountInfo>::try_from_info(&acc)
        .ok()
        .unwrap();
    assert_eq!(signer.address(), &[2; 32]);
    assert!(signer.owned_by(&PROGRAM));
    assert!(!signer.owned_by(&OTHER));
    assert_eq!(signer.lamports(), 77);
    assert_eq!(signer.raw_data(), &[1, 2, 3, 4, 5]);
}
