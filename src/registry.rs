use vstd::prelude::*;
use crate::name::{is_valid_name, same_text, name_chars_ok, name_length_ok, valid_name, MAX_NAME_LEN, MIN_NAME_LEN};
use crate::pubkey::Pubkey;

verus! {

/// Length of one registration year, in seconds (365 days).
pub const SECONDS_PER_YEAR: i64 = 31_536_000;

/// Registration fee set by `initialize`, in lamports.
pub const DEFAULT_FEE_LAMPORTS: u64 = 100_000_000;

/// Most years that one `renew_name` call may add.
pub const MAX_RENEWAL_YEARS: u8 = 5;

/// The protocol-wide configuration and counter.
#[derive(Clone, Copy, Debug)]
pub struct Registry {
    pub authority: Pubkey,
    pub total_registered: u64,
    pub fee_lamports: u64,
}

/// Ownership and lifetime of one registered name.
#[derive(Debug)]
pub struct NameRecord {
    pub name: String,
    pub owner: Pubkey,
    pub resolver: Pubkey,
    pub registered_at: i64,
    pub expires_at: i64,
}

/// The mathematical value of a `NameRecord`.
pub struct NameEntry {
    pub name: Seq<char>,
    pub owner: Pubkey,
    pub resolver: Pubkey,
    pub registered_at: i64,
    pub expires_at: i64,
}

impl View for NameRecord {
    type V = NameEntry;

    open spec fn view(&self) -> NameEntry {
        NameEntry {
            name: self.name@,
            owner: self.owner,
            resolver: self.resolver,
            registered_at: self.registered_at,
            expires_at: self.expires_at,
        }
    }
}

impl NameRecord {
    /// A copy of this record.
    pub fn duplicate(&self) -> (r: NameRecord)
        ensures
            r@ == self@,
    {
        NameRecord {
            name: self.name.clone(),
            owner: self.owner,
            resolver: self.resolver,
            registered_at: self.registered_at,
            expires_at: self.expires_at,
        }
    }
}

#[derive(Clone, Copy, Debug, PartialEq, Eq, Structural)]
pub enum MnsError {
    /// The name is shorter than 3 or longer than 12 characters.
    InvalidNameLength,
    /// The name holds a character outside `[a-z0-9_]`.
    InvalidNameCharacters,
    /// The signer does not own the name.
    NotOwner,
    /// The signer is not the registry authority.
    Unauthorized,
    /// The renewal period is not between 1 and 5 years.
    InvalidRenewalPeriod,
    /// The account to be created exists already.
    AlreadyInUse,
    /// The account operated on does not exist.
    AccountNotFound,
    /// A counter, timestamp or fee would leave its integer range.
    ArithmeticOverflow,
}

/// Emitted by `initialize`.
#[derive(Clone, Copy, Debug)]
pub struct RegistryInitialized {
    pub authority: Pubkey,
    pub timestamp: i64,
}

/// Emitted by `register_name`.
#[derive(Debug)]
pub struct NameRegistered {
    pub name: String,
    pub owner: Pubkey,
    pub expires_at: i64,
}

/// Emitted by `transfer_name`.
#[derive(Debug)]
pub struct NameTransferred {
    pub name: String,
    pub from: Pubkey,
    pub to: Pubkey,
}

/// Emitted by `set_resolver`.
#[derive(Debug)]
pub struct ResolverUpdated {
    pub name: String,
    pub resolver: Pubkey,
}

/// Emitted by `renew_name`.
#[derive(Debug)]
pub struct NameRenewed {
    pub name: String,
    pub new_expiry: i64,
}

/// A value transfer that the ledger performs atomically with the state change.
#[derive(Clone, Copy, Debug)]
pub struct FeeTransfer {
    pub from: Pubkey,
    pub to: Pubkey,
    pub lamports: u64,
}

/// Signer and clock reading for `initialize`.
#[derive(Clone, Copy, Debug)]
pub struct Initialize {
    pub authority: Pubkey,
    pub now: i64,
}

/// Signer, fee destination and clock reading for `register_name`.
#[derive(Clone, Copy, Debug)]
pub struct RegisterName {
    pub owner: Pubkey,
    pub treasury: Pubkey,
    pub now: i64,
}

/// Signer and recipient for `transfer_name`.
#[derive(Clone, Copy, Debug)]
pub struct TransferName {
    pub owner: Pubkey,
    pub new_owner: Pubkey,
}

/// Signer for `set_resolver`.
#[derive(Clone, Copy, Debug)]
pub struct SetResolver {
    pub owner: Pubkey,
}

/// Signer and fee destination for `renew_name`.
#[derive(Clone, Copy, Debug)]
pub struct RenewName {
    pub owner: Pubkey,
    pub treasury: Pubkey,
}

/// Signer for `update_fee`.
#[derive(Clone, Copy, Debug)]
pub struct UpdateRegistry {
    pub authority: Pubkey,
}

/// The mathematical value of the registry's accounts.
pub struct RegistryModel {
    pub registry: Option<Registry>,
    pub entries: Seq<NameEntry>,
}

pub open spec fn holds_at(es: Seq<NameEntry>, i: int, name: Seq<char>) -> bool {
    0 <= i < es.len() && es[i].name == name
}

pub open spec fn is_registered(es: Seq<NameEntry>, name: Seq<char>) -> bool {
    exists|i: int| holds_at(es, i, name)
}

pub open spec fn index_of(es: Seq<NameEntry>, name: Seq<char>) -> int {
    choose|i: int| holds_at(es, i, name)
}

/// The record stored under `name`, if any.
pub open spec fn lookup(es: Seq<NameEntry>, name: Seq<char>) -> Option<NameEntry> {
    if is_registered(es, name) {
        Some(es[index_of(es, name)])
    } else {
        None
    }
}

impl RegistryModel {
    /// Names are unique and valid.
    pub open spec fn wf(self) -> bool {
        &&& forall|i: int, j: int|
            0 <= i < self.entries.len() && 0 <= j < self.entries.len() && i != j
                ==> #[trigger] self.entries[i].name != #[trigger] self.entries[j].name
        &&& forall|i: int| 0 <= i < self.entries.len() ==> valid_name(#[trigger] self.entries[i].name)
    }
}

/// The error `initialize` fails with, if any.
pub open spec fn initialize_error(m: RegistryModel) -> Option<MnsError> {
    if m.registry is Some {
        Some(MnsError::AlreadyInUse)
    } else {
        None
    }
}

pub open spec fn initialize_effect(m: RegistryModel, ctx: Initialize) -> RegistryModel {
    RegistryModel {
        registry: Some(
            Registry {
                authority: ctx.authority,
                total_registered: 0,
                fee_lamports: DEFAULT_FEE_LAMPORTS,
            },
        ),
        entries: m.entries,
    }
}

/// The error `register_name` fails with, if any, in the order of the checks.
pub open spec fn register_error(m: RegistryModel, ctx: RegisterName, name: Seq<char>) -> Option<MnsError> {
    if m.registry is None {
        Some(MnsError::AccountNotFound)
    } else if is_registered(m.entries, name) {
        Some(MnsError::AlreadyInUse)
    } else if !name_length_ok(name) {
        Some(MnsError::InvalidNameLength)
    } else if !name_chars_ok(name) {
        Some(MnsError::InvalidNameCharacters)
    } else if ctx.now + SECONDS_PER_YEAR > i64::MAX {
        Some(MnsError::ArithmeticOverflow)
    } else if m.registry->0.total_registered == u64::MAX {
        Some(MnsError::ArithmeticOverflow)
    } else {
        None
    }
}

/// The record that `register_name` creates.
pub open spec fn new_entry(ctx: RegisterName, name: Seq<char>) -> NameEntry {
    NameEntry {
        name,
        owner: ctx.owner,
        resolver: Pubkey::spec_zero(),
        registered_at: ctx.now,
        expires_at: (ctx.now + SECONDS_PER_YEAR) as i64,
    }
}

pub open spec fn register_effect(m: RegistryModel, ctx: RegisterName, name: Seq<char>) -> RegistryModel {
    let reg = m.registry->0;
    RegistryModel {
        registry: Some(
            Registry {
                authority: reg.authority,
                total_registered: (reg.total_registered + 1) as u64,
                fee_lamports: reg.fee_lamports,
            },
        ),
        entries: m.entries.push(new_entry(ctx, name)),
    }
}

/// The error that an owner-gated operation on `name` by `signer` fails with, if any.
pub open spec fn owner_error(m: RegistryModel, name: Seq<char>, signer: Pubkey) -> Option<MnsError> {
    if !is_registered(m.entries, name) {
        Some(MnsError::AccountNotFound)
    } else if lookup(m.entries, name)->0.owner != signer {
        Some(MnsError::NotOwner)
    } else {
        None
    }
}

/// `m` with the record of `name` replaced by `e`.
pub open spec fn with_entry(m: RegistryModel, name: Seq<char>, e: NameEntry) -> RegistryModel {
    RegistryModel { registry: m.registry, entries: m.entries.update(index_of(m.entries, name), e) }
}

pub open spec fn transfer_effect(m: RegistryModel, ctx: TransferName, name: Seq<char>) -> RegistryModel {
    let e = lookup(m.entries, name)->0;
    with_entry(
        m,
        name,
        NameEntry {
            name: e.name,
            owner: ctx.new_owner,
            resolver: e.resolver,
            registered_at: e.registered_at,
            expires_at: e.expires_at,
        },
    )
}

pub open spec fn set_resolver_effect(m: RegistryModel, name: Seq<char>, resolver: Pubkey) -> RegistryModel {
    let e = lookup(m.entries, name)->0;
    with_entry(
        m,
        name,
        NameEntry {
            name: e.name,
            owner: e.owner,
            resolver,
            registered_at: e.registered_at,
            expires_at: e.expires_at,
        },
    )
}

/// Seconds that `years` of renewal add.
pub open spec fn extension(years: u8) -> int {
    years as int * SECONDS_PER_YEAR
}

/// The fee for renewing for `years`.
pub open spec fn renewal_fee(m: RegistryModel, years: u8) -> int {
    m.registry->0.fee_lamports as int * years as int
}

/// The error `renew_name` fails with, if any, in the order of the checks.
pub open spec fn renew_error(m: RegistryModel, ctx: RenewName, name: Seq<char>, years: u8) -> Option<MnsError> {
    if m.registry is None {
        Some(MnsError::AccountNotFound)
    } else if owner_error(m, name, ctx.owner) is Some {
        owner_error(m, name, ctx.owner)
    } else if years < 1 || years > MAX_RENEWAL_YEARS {
        Some(MnsError::InvalidRenewalPeriod)
    } else if lookup(m.entries, name)->0.expires_at + extension(years) > i64::MAX {
        Some(MnsError::ArithmeticOverflow)
    } else if renewal_fee(m, years) > u64::MAX {
        Some(MnsError::ArithmeticOverflow)
    } else {
        None
    }
}

pub open spec fn renew_effect(m: RegistryModel, name: Seq<char>, years: u8) -> RegistryModel {
    let e = lookup(m.entries, name)->0;
    with_entry(
        m,
        name,
        NameEntry {
            name: e.name,
            owner: e.owner,
            resolver: e.resolver,
            registered_at: e.registered_at,
            expires_at: (e.expires_at + extension(years)) as i64,
        },
    )
}

/// The error `update_fee` fails with, if any.
pub open spec fn update_fee_error(m: RegistryModel, ctx: UpdateRegistry) -> Option<MnsError> {
    if m.registry is None {
        Some(MnsError::AccountNotFound)
    } else if m.registry->0.authority != ctx.authority {
        Some(MnsError::Unauthorized)
    } else {
        None
    }
}

pub open spec fn update_fee_effect(m: RegistryModel, new_fee: u64) -> RegistryModel {
    let reg = m.registry->0;
    RegistryModel {
        registry: Some(
            Registry {
                authority: reg.authority,
                total_registered: reg.total_registered,
                fee_lamports: new_fee,
            },
        ),
        entries: m.entries,
    }
}

/// The registry's accounts: the singleton configuration, once created, and
/// one record per registered name.
pub struct RegistryAccounts {
    registry: Option<Registry>,
    records: Vec<NameRecord>,
}

impl View for RegistryAccounts {
    type V = RegistryModel;

    closed spec fn view(&self) -> RegistryModel {
        RegistryModel {
            registry: self.registry,
            entries: self.records@.map_values(|r: NameRecord| r@),
        }
    }
}

impl RegistryAccounts {
    pub open spec fn wf(&self) -> bool {
        self@.wf()
    }

    /// Accounts with no registry and no names.
    pub fn new() -> (r: RegistryAccounts)
        ensures
            r.wf(),
            r@.registry is None,
            r@.entries.len() == 0,
    {
        let r = RegistryAccounts { registry: None, records: Vec::new() };
        assert(r@.entries =~= Seq::<NameEntry>::empty());
        r
    }

    /// Accounts holding `registry` and `records`, provided that the records'
    /// names are valid and distinct.
    pub fn from_parts(registry: Option<Registry>, records: Vec<NameRecord>) -> (r: Option<RegistryAccounts>)
        ensures
            match r {
                Some(a) => {
                    &&& a.wf()
                    &&& a@.registry == registry
                    &&& a@.entries == records@.map_values(|x: NameRecord| x@)
                },
                None => !(RegistryModel { registry, entries: records@.map_values(|x: NameRecord| x@) }).wf(),
            },
    {
        let ghost es = records@.map_values(|x: NameRecord| x@);
        let mut i: usize = 0;
        while i < records.len()
            invariant
                0 <= i <= records@.len(),
                es == records@.map_values(|x: NameRecord| x@),
                forall|a: int| 0 <= a < i ==> valid_name(#[trigger] es[a].name),
                forall|a: int, b: int| 0 <= a < i && 0 <= b < i && a != b ==> #[trigger] es[a].name != #[trigger] es[b].name,
            decreases records@.len() - i,
        {
            let name = records[i].name.as_str();
            let len = name.unicode_len();
            if len < MIN_NAME_LEN || len > MAX_NAME_LEN || !is_valid_name(name) {
                proof {
                    let m = RegistryModel { registry, entries: es };
                    assert(!valid_name(m.entries[i as int].name));
                }
                return None;
            }
            let mut j: usize = 0;
            while j < i
                invariant
                    0 <= j <= i < records@.len(),
                    name@ == es[i as int].name,
                    es == records@.map_values(|x: NameRecord| x@),
                    forall|b: int| 0 <= b < j ==> es[b].name != es[i as int].name,
                decreases i - j,
            {
                if same_text(records[j].name.as_str(), name) {
                    proof {
                        let m = RegistryModel { registry, entries: es };
                        assert(m.entries[j as int].name == m.entries[i as int].name);
                    }
                    return None;
                }
                j = j + 1;
            }
            i = i + 1;
        }
        Some(RegistryAccounts { registry, records })
    }

    /// The registry and the records, in order.
    pub fn into_parts(self) -> (r: (Option<Registry>, Vec<NameRecord>))
        ensures
            r.0 == self@.registry,
            r.1@.map_values(|x: NameRecord| x@) == self@.entries,
    {
        (self.registry, self.records)
    }

    pub fn registry(&self) -> (r: Option<Registry>)
        ensures
            r == self@.registry,
    {
        self.registry
    }

    /// Number of registered names.
    pub fn len(&self) -> (r: usize)
        ensures
            r == self@.entries.len(),
    {
        self.records.len()
    }

    /// Position of the record of `name`.
    pub fn find(&self, name: &str) -> (r: Option<usize>)
        ensures
            match r {
                Some(i) => holds_at(self@.entries, i as int, name@),
                None => !is_registered(self@.entries, name@),
            },
    {
        let mut i: usize = 0;
        while i < self.records.len()
            invariant
                0 <= i <= self.records@.len(),
                forall|j: int| 0 <= j < i ==> !holds_at(self@.entries, j, name@),
            decreases self.records@.len() - i,
        {
            if same_text(self.records[i].name.as_str(), name) {
                return Some(i);
            }
            i = i + 1;
        }
        None
    }

    /// Position of the record of `name`, which `signer` must own.
    fn owned_index(&self, name: &str, signer: Pubkey) -> (r: Result<usize, MnsError>)
        requires
            self.wf(),
        ensures
            match r {
                Ok(i) => {
                    &&& owner_error(self@, name@, signer) is None
                    &&& holds_at(self@.entries, i as int, name@)
                    &&& index_of(self@.entries, name@) == i
                },
                Err(e) => owner_error(self@, name@, signer) == Some(e),
            },
    {
        match self.find(name) {
            None => Err(MnsError::AccountNotFound),
            Some(i) => {
                proof {
                    lemma_index_of_unique(self@, name@, i as int);
                }
                if self.records[i].owner == signer {
                    Ok(i)
                } else {
                    Err(MnsError::NotOwner)
                }
            },
        }
    }

    /// A copy of the record of `name`.
    pub fn record(&self, name: &str) -> (r: Option<NameRecord>)
        requires
            self.wf(),
        ensures
            match r {
                Some(rec) => lookup(self@.entries, name@) == Some(rec@),
                None => lookup(self@.entries, name@) is None,
            },
    {
        match self.find(name) {
            Some(i) => {
                proof {
                    lemma_index_of_unique(self@, name@, i as int);
                }
                Some(self.records[i].duplicate())
            },
            None => None,
        }
    }
}

/// In well-formed accounts the record of a name is the only one that holds it.
pub proof fn lemma_index_of_unique(m: RegistryModel, name: Seq<char>, i: int)
    requires
        m.wf(),
        holds_at(m.entries, i, name),
    ensures
        is_registered(m.entries, name),
        index_of(m.entries, name) == i,
        lookup(m.entries, name) == Some(m.entries[i]),
{
    let k = index_of(m.entries, name);
    assert(holds_at(m.entries, k, name));
    assert(m.entries[k].name == m.entries[i].name);
}

/// Replacing the record of a registered name by one under the same valid
/// name keeps the accounts well formed, and lookups then find the new record.
pub proof fn lemma_with_entry(m: RegistryModel, name: Seq<char>, e: NameEntry)
    requires
        m.wf(),
        is_registered(m.entries, name),
        e.name == name,
    ensures
        with_entry(m, name, e).wf(),
        lookup(with_entry(m, name, e).entries, name) == Some(e),
{
    let k = index_of(m.entries, name);
    assert(holds_at(m.entries, k, name));
    let m2 = with_entry(m, name, e);
    assert(holds_at(m2.entries, k, name));
    lemma_index_of_unique(m2, name, k);
}

/// A valid, unused name registers once; registering it again then fails
/// because its record exists.
pub proof fn lemma_register_once(m: RegistryModel, ctx: RegisterName, again: RegisterName, name: Seq<char>)
    requires
        m.wf(),
        m.registry is Some,
        m.registry->0.total_registered < u64::MAX,
        ctx.now + SECONDS_PER_YEAR <= i64::MAX,
        valid_name(name),
        !is_registered(m.entries, name),
    ensures
        register_error(m, ctx, name) is None,
        register_effect(m, ctx, name).wf(),
        register_error(register_effect(m, ctx, name), again, name) == Some(MnsError::AlreadyInUse),
{
    let m2 = register_effect(m, ctx, name);
    assert(holds_at(m2.entries, m.entries.len() as int, name));
    assert forall|j: int| 0 <= j < m.entries.len() implies m2.entries[j].name != name by {
        assert(!holds_at(m.entries, j, name));
    }
}

/// An invalid name is refused with the length error or, at a valid length,
/// the character error; a failed call changes nothing.
pub proof fn lemma_invalid_name_rejected(m: RegistryModel, ctx: RegisterName, name: Seq<char>)
    requires
        m.wf(),
        m.registry is Some,
        !valid_name(name),
    ensures
        register_error(m, ctx, name) == Some(
            if !name_length_ok(name) {
                MnsError::InvalidNameLength
            } else {
                MnsError::InvalidNameCharacters
            },
        ),
{
    if is_registered(m.entries, name) {
        let k = index_of(m.entries, name);
        assert(holds_at(m.entries, k, name));
        assert(valid_name(m.entries[k].name));
    }
}

/// Renewal by the owner for 1 to 5 years moves the expiry forward by
/// exactly that many years and charges the fee once per year.
pub proof fn lemma_renew_extends(m: RegistryModel, ctx: RenewName, name: Seq<char>, years: u8)
    requires
        m.wf(),
        m.registry is Some,
        owner_error(m, name, ctx.owner) is None,
        1 <= years <= MAX_RENEWAL_YEARS,
        lookup(m.entries, name)->0.expires_at + years * SECONDS_PER_YEAR <= i64::MAX,
        m.registry->0.fee_lamports * years <= u64::MAX,
    ensures
        renew_error(m, ctx, name, years) is None,
        renew_effect(m, name, years).wf(),
        lookup(renew_effect(m, name, years).entries, name)->0.expires_at == lookup(m.entries, name)->0.expires_at
            + years * 31_536_000,
        renewal_fee(m, years) == m.registry->0.fee_lamports * years,
{
    let e = lookup(m.entries, name)->0;
    lemma_with_entry(
        m,
        name,
        NameEntry {
            name: e.name,
            owner: e.owner,
            resolver: e.resolver,
            registered_at: e.registered_at,
            expires_at: (e.expires_at + extension(years)) as i64,
        },
    );
    let k = index_of(m.entries, name);
    assert(holds_at(m.entries, k, name));
}

/// The owner's renewal for 0 or more than 5 years is refused.
pub proof fn lemma_renew_period_rejected(m: RegistryModel, ctx: RenewName, name: Seq<char>, years: u8)
    requires
        m.registry is Some,
        owner_error(m, name, ctx.owner) is None,
        years == 0 || years > MAX_RENEWAL_YEARS,
    ensures
        renew_error(m, ctx, name, years) == Some(MnsError::InvalidRenewalPeriod),
{
}

/// Only the owner may transfer: anyone else gets `NotOwner`.
pub proof fn lemma_transfer_by_non_owner(m: RegistryModel, ctx: TransferName, name: Seq<char>)
    requires
        is_registered(m.entries, name),
        lookup(m.entries, name)->0.owner != ctx.owner,
    ensures
        owner_error(m, name, ctx.owner) == Some(MnsError::NotOwner),
{
}

/// After a transfer to someone else, the new owner controls the name and
/// the previous owner is refused by every owner-gated operation.
pub proof fn lemma_transfer_revokes(m: RegistryModel, ctx: TransferName, name: Seq<char>)
    requires
        m.wf(),
        owner_error(m, name, ctx.owner) is None,
        ctx.new_owner != ctx.owner,
    ensures
        transfer_effect(m, ctx, name).wf(),
        lookup(transfer_effect(m, ctx, name).entries, name)->0.owner == ctx.new_owner,
        owner_error(transfer_effect(m, ctx, name), name, ctx.new_owner) is None,
        owner_error(transfer_effect(m, ctx, name), name, ctx.owner) == Some(MnsError::NotOwner),
{
    let e = lookup(m.entries, name)->0;
    let k = index_of(m.entries, name);
    assert(holds_at(m.entries, k, name));
    lemma_with_entry(
        m,
        name,
        NameEntry {
            name: e.name,
            owner: ctx.new_owner,
            resolver: e.resolver,
            registered_at: e.registered_at,
            expires_at: e.expires_at,
        },
    );
}

/// Creates the registry, with the signer as authority.
pub fn initialize(accounts: &mut RegistryAccounts, ctx: &Initialize) -> (r: Result<RegistryInitialized, MnsError>)
    requires
        old(accounts).wf(),
    ensures
        final(accounts).wf(),
        match r {
            Ok(ev) => {
                &&& initialize_error(old(accounts)@) is None
                &&& final(accounts)@ == initialize_effect(old(accounts)@, *ctx)
                &&& ev.authority == ctx.authority
                &&& ev.timestamp == ctx.now
            },
            Err(e) => {
                &&& initialize_error(old(accounts)@) == Some(e)
                &&& final(accounts)@ == old(accounts)@
            },
        },
{
    if accounts.registry.is_some() {
        return Err(MnsError::AlreadyInUse);
    }
    accounts.registry = Some(
        Registry { authority: ctx.authority, total_registered: 0, fee_lamports: DEFAULT_FEE_LAMPORTS },
    );
    Ok(RegistryInitialized { authority: ctx.authority, timestamp: ctx.now })
}

/// Registers `name` to the signer for one year, charging the registry fee.
pub fn register_name(accounts: &mut RegistryAccounts, ctx: &RegisterName, name: String) -> (r: Result<
    (NameRegistered, FeeTransfer),
    MnsError,
>)
    requires
        old(accounts).wf(),
    ensures
        final(accounts).wf(),
        match r {
            Ok((ev, fee)) => {
                &&& register_error(old(accounts)@, *ctx, name@) is None
                &&& final(accounts)@ == register_effect(old(accounts)@, *ctx, name@)
                &&& ev.name@ == name@
                &&& ev.owner == ctx.owner
                &&& ev.expires_at == ctx.now + SECONDS_PER_YEAR
                &&& fee.from == ctx.owner
                &&& fee.to == ctx.treasury
                &&& fee.lamports == old(accounts)@.registry->0.fee_lamports
            },
            Err(e) => {
                &&& register_error(old(accounts)@, *ctx, name@) == Some(e)
                &&& final(accounts)@ == old(accounts)@
            },
        },
{
    let reg = match accounts.registry {
        Some(reg) => reg,
        None => return Err(MnsError::AccountNotFound),
    };
    if accounts.find(name.as_str()).is_some() {
        return Err(MnsError::AlreadyInUse);
    }
    let len = name.as_str().unicode_len();
    if len < MIN_NAME_LEN || len > MAX_NAME_LEN {
        return Err(MnsError::InvalidNameLength);
    }
    if !is_valid_name(name.as_str()) {
        return Err(MnsError::InvalidNameCharacters);
    }
    let expires_at = match ctx.now.checked_add(SECONDS_PER_YEAR) {
        Some(t) => t,
        None => return Err(MnsError::ArithmeticOverflow),
    };
    let total = match reg.total_registered.checked_add(1) {
        Some(t) => t,
        None => return Err(MnsError::ArithmeticOverflow),
    };
    let ev_name = name.clone();
    let ghost before = accounts@;
    accounts.records.push(
        NameRecord { name, owner: ctx.owner, resolver: Pubkey::zero(), registered_at: ctx.now, expires_at },
    );
    accounts.registry = Some(
        Registry { authority: reg.authority, total_registered: total, fee_lamports: reg.fee_lamports },
    );
    proof {
        let es = accounts@.entries;
        assert(es =~= before.entries.push(new_entry(*ctx, ev_name@)));
        assert(valid_name(ev_name@));
        assert forall|j: int| 0 <= j < before.entries.len() implies es[j].name != ev_name@ by {
            assert(!holds_at(before.entries, j, ev_name@));
        }
    }
    Ok(
        (
            NameRegistered { name: ev_name, owner: ctx.owner, expires_at },
            FeeTransfer { from: ctx.owner, to: ctx.treasury, lamports: reg.fee_lamports },
        ),
    )
}

/// Hands `name` to `ctx.new_owner`; only its owner may.
pub fn transfer_name(accounts: &mut RegistryAccounts, ctx: &TransferName, name: String) -> (r: Result<
    NameTransferred,
    MnsError,
>)
    requires
        old(accounts).wf(),
    ensures
        final(accounts).wf(),
        match r {
            Ok(ev) => {
                &&& owner_error(old(accounts)@, name@, ctx.owner) is None
                &&& final(accounts)@ == transfer_effect(old(accounts)@, *ctx, name@)
                &&& ev.name@ == name@
                &&& ev.from == ctx.owner
                &&& ev.to == ctx.new_owner
            },
            Err(e) => {
                &&& owner_error(old(accounts)@, name@, ctx.owner) == Some(e)
                &&& final(accounts)@ == old(accounts)@
            },
        },
{
    let i = match accounts.owned_index(name.as_str(), ctx.owner) {
        Ok(i) => i,
        Err(e) => return Err(e),
    };
    let ghost before = accounts@;
    let previous_owner = accounts.records[i].owner;
    accounts.records[i].owner = ctx.new_owner;
    proof {
        lemma_index_of_unique(before, name@, i as int);
        assert(accounts@.entries =~= transfer_effect(before, *ctx, name@).entries);
    }
    Ok(NameTransferred { name, from: previous_owner, to: ctx.new_owner })
}

/// Points `name` at a resolver account; only its owner may.
///
/// The address is a hint: nothing checks that a resolver exists there, or
/// that its owner is the owner of the name.
pub fn set_resolver(accounts: &mut RegistryAccounts, ctx: &SetResolver, name: String, resolver: Pubkey) -> (r:
    Result<ResolverUpdated, MnsError>)
    requires
        old(accounts).wf(),
    ensures
        final(accounts).wf(),
        match r {
            Ok(ev) => {
                &&& owner_error(old(accounts)@, name@, ctx.owner) is None
                &&& final(accounts)@ == set_resolver_effect(old(accounts)@, name@, resolver)
                &&& ev.name@ == name@
                &&& ev.resolver == resolver
            },
            Err(e) => {
                &&& owner_error(old(accounts)@, name@, ctx.owner) == Some(e)
                &&& final(accounts)@ == old(accounts)@
            },
        },
{
    let i = match accounts.owned_index(name.as_str(), ctx.owner) {
        Ok(i) => i,
        Err(e) => return Err(e),
    };
    let ghost before = accounts@;
    accounts.records[i].resolver = resolver;
    proof {
        lemma_index_of_unique(before, name@, i as int);
        assert(accounts@.entries =~= set_resolver_effect(before, name@, resolver).entries);
    }
    Ok(ResolverUpdated { name: accounts.records[i].name.clone(), resolver })
}

/// Extends the expiry of `name` by `years` whole years, charging the fee once per year.
///
/// The extension counts from the stored expiry, not from the present; an
/// expired name is renewed like any other, since expiry is never enforced.
pub fn renew_name(accounts: &mut RegistryAccounts, ctx: &RenewName, name: String, years: u8) -> (r: Result<
    (NameRenewed, FeeTransfer),
    MnsError,
>)
    requires
        old(accounts).wf(),
    ensures
        final(accounts).wf(),
        match r {
            Ok((ev, fee)) => {
                &&& renew_error(old(accounts)@, *ctx, name@, years) is None
                &&& final(accounts)@ == renew_effect(old(accounts)@, name@, years)
                &&& ev.name@ == name@
                &&& ev.new_expiry == lookup(old(accounts)@.entries, name@)->0.expires_at + extension(years)
                &&& fee.from == ctx.owner
                &&& fee.to == ctx.treasury
                &&& fee.lamports == renewal_fee(old(accounts)@, years)
            },
            Err(e) => {
                &&& renew_error(old(accounts)@, *ctx, name@, years) == Some(e)
                &&& final(accounts)@ == old(accounts)@
            },
        },
{
    let reg = match accounts.registry {
        Some(reg) => reg,
        None => return Err(MnsError::AccountNotFound),
    };
    let i = match accounts.owned_index(name.as_str(), ctx.owner) {
        Ok(i) => i,
        Err(e) => return Err(e),
    };
    if years < 1 || years > MAX_RENEWAL_YEARS {
        return Err(MnsError::InvalidRenewalPeriod);
    }
    proof {
        lemma_index_of_unique(accounts@, name@, i as int);
    }
    let added: i64 = (years as i64) * SECONDS_PER_YEAR;
    let new_expiry = match accounts.records[i].expires_at.checked_add(added) {
        Some(t) => t,
        None => return Err(MnsError::ArithmeticOverflow),
    };
    let lamports = match reg.fee_lamports.checked_mul(years as u64) {
        Some(f) => f,
        None => return Err(MnsError::ArithmeticOverflow),
    };
    let ghost before = accounts@;
    accounts.records[i].expires_at = new_expiry;
    proof {
        assert(accounts@.entries =~= renew_effect(before, name@, years).entries);
    }
    Ok(
        (
            NameRenewed { name, new_expiry },
            FeeTransfer { from: ctx.owner, to: ctx.treasury, lamports },
        ),
    )
}

/// Replaces the registration fee; only the authority may.
pub fn update_fee(accounts: &mut RegistryAccounts, ctx: &UpdateRegistry, new_fee: u64) -> (r: Result<
    (),
    MnsError,
>)
    requires
        old(accounts).wf(),
    ensures
        final(accounts).wf(),
        match r {
            Ok(()) => {
                &&& update_fee_error(old(accounts)@, *ctx) is None
                &&& final(accounts)@ == update_fee_effect(old(accounts)@, new_fee)
            },
            Err(e) => {
                &&& update_fee_error(old(accounts)@, *ctx) == Some(e)
                &&& final(accounts)@ == old(accounts)@
            },
        },
{
    let reg = match accounts.registry {
        Some(reg) => reg,
        None => return Err(MnsError::AccountNotFound),
    };
    if !(reg.authority == ctx.authority) {
        return Err(MnsError::Unauthorized);
    }
    accounts.registry = Some(
        Registry { authority: reg.authority, total_registered: reg.total_registered, fee_lamports: new_fee },
    );
    Ok(())
}

} // verus!
