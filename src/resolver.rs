use vstd::prelude::*;
use crate::name::same_text;
use crate::pubkey::Pubkey;

verus! {

/// Capacity of a resolver's address list.
pub const MAX_ADDRESSES: usize = 10;

/// Capacity of a resolver's text-record list.
pub const MAX_TEXT_RECORDS: usize = 20;

/// Longest text-record key, in characters.
pub const MAX_KEY_LEN: usize = 32;

/// Longest text-record value, in characters.
pub const MAX_VALUE_LEN: usize = 256;

/// Longest agent identifier, in characters.
pub const MAX_AGENT_ID_LEN: usize = 64;

/// The address of a name on one chain.
#[derive(Clone, Copy, Debug)]
pub struct AddressRecord {
    pub chain_id: u16,
    pub address: [u8; 32],
}

/// One key/value text binding.
#[derive(Debug)]
pub struct TextRecord {
    pub key: String,
    pub value: String,
}

/// The mathematical value of a `TextRecord`.
pub struct TextEntry {
    pub key: Seq<char>,
    pub value: Seq<char>,
}

impl View for TextRecord {
    type V = TextEntry;

    open spec fn view(&self) -> TextEntry {
        TextEntry { key: self.key@, value: self.value@ }
    }
}

#[derive(Clone, Copy, Debug, PartialEq, Eq, Structural)]
pub enum ResolverError {
    /// The signer does not own the resolver.
    NotOwner,
    /// The address list is full and the chain is new.
    TooManyAddresses,
    /// The text-record list is full and the key is new.
    TooManyTextRecords,
    /// The key is longer than 32 characters.
    KeyTooLong,
    /// The value is longer than 256 characters.
    ValueTooLong,
    /// The agent identifier is longer than 64 characters.
    AgentIdTooLong,
    /// The resolver to be created exists already.
    AlreadyInUse,
    /// No resolver exists for the name.
    AccountNotFound,
}

/// Resolution data attached to one name.
#[derive(Debug)]
pub struct Resolver {
    pub name: String,
    pub owner: Pubkey,
    pub addresses: Vec<AddressRecord>,
    pub text_records: Vec<TextRecord>,
    pub content_hash: Option<[u8; 32]>,
    pub moltbook_agent_id: Option<String>,
}

/// The mathematical value of a `Resolver`.
pub struct ResolverEntry {
    pub name: Seq<char>,
    pub owner: Pubkey,
    pub addresses: Seq<AddressRecord>,
    pub text_records: Seq<TextEntry>,
    pub content_hash: Option<[u8; 32]>,
    pub agent_id: Option<Seq<char>>,
}

impl View for Resolver {
    type V = ResolverEntry;

    open spec fn view(&self) -> ResolverEntry {
        ResolverEntry {
            name: self.name@,
            owner: self.owner,
            addresses: self.addresses@,
            text_records: self.text_records@.map_values(|t: TextRecord| t@),
            content_hash: self.content_hash,
            agent_id: match self.moltbook_agent_id {
                Some(a) => Some(a@),
                None => None,
            },
        }
    }
}

pub open spec fn chain_at(addrs: Seq<AddressRecord>, i: int, chain_id: u16) -> bool {
    0 <= i < addrs.len() && addrs[i].chain_id == chain_id
}

pub open spec fn has_chain(addrs: Seq<AddressRecord>, chain_id: u16) -> bool {
    exists|i: int| chain_at(addrs, i, chain_id)
}

pub open spec fn chain_index(addrs: Seq<AddressRecord>, chain_id: u16) -> int {
    choose|i: int| chain_at(addrs, i, chain_id)
}

/// The address list after binding `chain_id` to `address`: an existing
/// binding is overwritten in place, a new one goes at the end.
pub open spec fn address_upsert(addrs: Seq<AddressRecord>, chain_id: u16, address: [u8; 32]) -> Seq<
    AddressRecord,
> {
    let rec = AddressRecord { chain_id, address };
    if has_chain(addrs, chain_id) {
        addrs.update(chain_index(addrs, chain_id), rec)
    } else {
        addrs.push(rec)
    }
}

/// Whether binding `chain_id` would overflow the address list.
pub open spec fn address_full(addrs: Seq<AddressRecord>, chain_id: u16) -> bool {
    !has_chain(addrs, chain_id) && addrs.len() >= MAX_ADDRESSES
}

pub open spec fn key_at(texts: Seq<TextEntry>, i: int, key: Seq<char>) -> bool {
    0 <= i < texts.len() && texts[i].key == key
}

pub open spec fn has_key(texts: Seq<TextEntry>, key: Seq<char>) -> bool {
    exists|i: int| key_at(texts, i, key)
}

pub open spec fn key_index(texts: Seq<TextEntry>, key: Seq<char>) -> int {
    choose|i: int| key_at(texts, i, key)
}

/// The text list after binding `key` to `value`, by the same rule as addresses.
pub open spec fn text_upsert(texts: Seq<TextEntry>, key: Seq<char>, value: Seq<char>) -> Seq<TextEntry> {
    let t = TextEntry { key, value };
    if has_key(texts, key) {
        texts.update(key_index(texts, key), t)
    } else {
        texts.push(t)
    }
}

/// The error that binding `key` to `value` fails with, if any.
pub open spec fn text_error(texts: Seq<TextEntry>, key: Seq<char>, value: Seq<char>) -> Option<ResolverError> {
    if key.len() > MAX_KEY_LEN {
        Some(ResolverError::KeyTooLong)
    } else if value.len() > MAX_VALUE_LEN {
        Some(ResolverError::ValueTooLong)
    } else if !has_key(texts, key) && texts.len() >= MAX_TEXT_RECORDS {
        Some(ResolverError::TooManyTextRecords)
    } else {
        None
    }
}

/// No chain id occurs twice.
pub open spec fn chains_unique(addrs: Seq<AddressRecord>) -> bool {
    forall|i: int, j: int|
        0 <= i < addrs.len() && 0 <= j < addrs.len() && i != j ==> #[trigger] addrs[i].chain_id
            != #[trigger] addrs[j].chain_id
}

/// No key occurs twice.
pub open spec fn keys_unique(texts: Seq<TextEntry>) -> bool {
    forall|i: int, j: int|
        0 <= i < texts.len() && 0 <= j < texts.len() && i != j ==> #[trigger] texts[i].key
            != #[trigger] texts[j].key
}

/// Binding a chain keeps chain ids unique and leaves exactly the new
/// binding under that chain.
pub proof fn lemma_address_upsert(addrs: Seq<AddressRecord>, chain_id: u16, address: [u8; 32])
    requires
        chains_unique(addrs),
    ensures
        chains_unique(address_upsert(addrs, chain_id, address)),
        has_chain(address_upsert(addrs, chain_id, address), chain_id),
        address_upsert(addrs, chain_id, address)[chain_index(address_upsert(addrs, chain_id, address), chain_id)]
            == (AddressRecord { chain_id, address }),
{
    let s = address_upsert(addrs, chain_id, address);
    if has_chain(addrs, chain_id) {
        let k = chain_index(addrs, chain_id);
        assert(chain_at(addrs, k, chain_id));
        assert(chain_at(s, k, chain_id));
    } else {
        assert forall|j: int| 0 <= j < addrs.len() implies s[j].chain_id != chain_id by {
            assert(!chain_at(addrs, j, chain_id));
        }
        assert(chain_at(s, addrs.len() as int, chain_id));
    }
    let m = chain_index(s, chain_id);
    assert(chain_at(s, m, chain_id));
}

/// Setting the same chain twice leaves one binding for it, holding the
/// second address, and the second call never meets a full list.
pub proof fn lemma_address_set_twice(addrs: Seq<AddressRecord>, chain_id: u16, first: [u8; 32], second: [u8; 32])
    requires
        chains_unique(addrs),
    ensures
        !address_full(address_upsert(addrs, chain_id, first), chain_id),
        ({
            let s = address_upsert(address_upsert(addrs, chain_id, first), chain_id, second);
            &&& exists|i: int| chain_at(s, i, chain_id) && s[i].address == second
            &&& forall|i: int, j: int| chain_at(s, i, chain_id) && chain_at(s, j, chain_id) ==> i == j
        }),
{
    let s1 = address_upsert(addrs, chain_id, first);
    lemma_address_upsert(addrs, chain_id, first);
    lemma_address_upsert(s1, chain_id, second);
    let s = address_upsert(s1, chain_id, second);
    assert(chain_at(s, chain_index(s, chain_id), chain_id));
}

/// A full address list refuses a new chain.
pub proof fn lemma_address_capacity(rs: Seq<ResolverEntry>, ctx: UpdateResolver, name: Seq<char>, chain_id: u16)
    requires
        access_error(rs, name, ctx.owner) is None,
        lookup_resolver(rs, name)->0.addresses.len() == MAX_ADDRESSES,
        !has_chain(lookup_resolver(rs, name)->0.addresses, chain_id),
    ensures
        set_address_error(rs, ctx, name, chain_id) == Some(ResolverError::TooManyAddresses),
{
}

/// Binding a key keeps keys unique and leaves exactly the new binding
/// under that key.
pub proof fn lemma_text_upsert(texts: Seq<TextEntry>, key: Seq<char>, value: Seq<char>)
    requires
        keys_unique(texts),
    ensures
        keys_unique(text_upsert(texts, key, value)),
        has_key(text_upsert(texts, key, value), key),
        text_upsert(texts, key, value)[key_index(text_upsert(texts, key, value), key)] == (TextEntry { key, value }),
{
    let s = text_upsert(texts, key, value);
    if has_key(texts, key) {
        let k = key_index(texts, key);
        assert(key_at(texts, k, key));
        assert(key_at(s, k, key));
    } else {
        assert forall|j: int| 0 <= j < texts.len() implies s[j].key != key by {
            assert(!key_at(texts, j, key));
        }
        assert(key_at(s, texts.len() as int, key));
    }
    let m = key_index(s, key);
    assert(key_at(s, m, key));
}

/// Setting the same key twice leaves one record for it, holding the second
/// value; the second call succeeds whenever the first did and the value fits.
pub proof fn lemma_text_set_twice(texts: Seq<TextEntry>, key: Seq<char>, first: Seq<char>, second: Seq<char>)
    requires
        keys_unique(texts),
        text_error(texts, key, first) is None,
        second.len() <= MAX_VALUE_LEN,
    ensures
        text_error(text_upsert(texts, key, first), key, second) is None,
        ({
            let s = text_upsert(text_upsert(texts, key, first), key, second);
            &&& exists|i: int| key_at(s, i, key) && s[i] == (TextEntry { key, value: second })
            &&& forall|i: int, j: int| key_at(s, i, key) && key_at(s, j, key) ==> i == j
        }),
{
    let s1 = text_upsert(texts, key, first);
    lemma_text_upsert(texts, key, first);
    lemma_text_upsert(s1, key, second);
    let s = text_upsert(s1, key, second);
    assert(key_at(s, key_index(s, key), key));
}

impl ResolverEntry {
    /// Lists within capacity, chain ids and keys unique, strings within bounds.
    pub open spec fn wf(self) -> bool {
        &&& self.addresses.len() <= MAX_ADDRESSES
        &&& chains_unique(self.addresses)
        &&& self.text_records.len() <= MAX_TEXT_RECORDS
        &&& keys_unique(self.text_records)
        &&& forall|i: int|
            0 <= i < self.text_records.len() ==> (#[trigger] self.text_records[i]).key.len()
                <= MAX_KEY_LEN && self.text_records[i].value.len() <= MAX_VALUE_LEN
        &&& match self.agent_id {
            Some(a) => a.len() <= MAX_AGENT_ID_LEN,
            None => true,
        }
    }
}

impl Resolver {
    pub open spec fn wf(&self) -> bool {
        self@.wf()
    }

    /// An empty resolver for `name`, owned by `owner`.
    pub fn new(name: String, owner: Pubkey) -> (r: Resolver)
        ensures
            r.wf(),
            r@ == empty_resolver(name@, owner),
    {
        let r = Resolver {
            name,
            owner,
            addresses: Vec::new(),
            text_records: Vec::new(),
            content_hash: None,
            moltbook_agent_id: None,
        };
        assert(r@.text_records =~= Seq::<TextEntry>::empty());
        assert(r@.addresses =~= Seq::<AddressRecord>::empty());
        r
    }

    /// Whether the resolver is within its capacities and bounds, with unique
    /// chain ids and keys.
    pub fn is_well_formed(&self) -> (r: bool)
        ensures
            r == self.wf(),
    {
        let ghost e = self@;
        if self.addresses.len() > MAX_ADDRESSES || self.text_records.len() > MAX_TEXT_RECORDS {
            return false;
        }
        match &self.moltbook_agent_id {
            Some(a) => {
                if a.as_str().unicode_len() > MAX_AGENT_ID_LEN {
                    return false;
                }
            },
            None => {},
        }
        let mut i: usize = 0;
        while i < self.addresses.len()
            invariant
                e == self@,
                0 <= i <= e.addresses.len(),
                forall|a: int, b: int|
                    0 <= a < i && 0 <= b < i && a != b ==> #[trigger] e.addresses[a].chain_id
                        != #[trigger] e.addresses[b].chain_id,
            decreases e.addresses.len() - i,
        {
            let mut j: usize = 0;
            while j < i
                invariant
                    e == self@,
                    0 <= j <= i < e.addresses.len(),
                    forall|b: int| 0 <= b < j ==> e.addresses[b].chain_id != e.addresses[i as int].chain_id,
                decreases i - j,
            {
                if self.addresses[j].chain_id == self.addresses[i].chain_id {
                    assert(e.addresses[j as int].chain_id == e.addresses[i as int].chain_id);
                    return false;
                }
                j = j + 1;
            }
            i = i + 1;
        }
        let mut i: usize = 0;
        while i < self.text_records.len()
            invariant
                e == self@,
                e.addresses.len() <= MAX_ADDRESSES,
                chains_unique(e.addresses),
                e.text_records.len() <= MAX_TEXT_RECORDS,
                match e.agent_id {
                    Some(a) => a.len() <= MAX_AGENT_ID_LEN,
                    None => true,
                },
                0 <= i <= e.text_records.len(),
                forall|a: int|
                    0 <= a < i ==> (#[trigger] e.text_records[a]).key.len() <= MAX_KEY_LEN
                        && e.text_records[a].value.len() <= MAX_VALUE_LEN,
                forall|a: int, b: int|
                    0 <= a < i && 0 <= b < i && a != b ==> #[trigger] e.text_records[a].key
                        != #[trigger] e.text_records[b].key,
            decreases e.text_records.len() - i,
        {
            let key = self.text_records[i].key.as_str();
            if key.unicode_len() > MAX_KEY_LEN || self.text_records[i].value.as_str().unicode_len() > MAX_VALUE_LEN {
                assert(!(e.text_records[i as int].key.len() <= MAX_KEY_LEN && e.text_records[i as int].value.len()
                    <= MAX_VALUE_LEN));
                return false;
            }
            let mut j: usize = 0;
            while j < i
                invariant
                    e == self@,
                    0 <= j <= i < e.text_records.len(),
                    key@ == e.text_records[i as int].key,
                    forall|b: int| 0 <= b < j ==> e.text_records[b].key != e.text_records[i as int].key,
                decreases i - j,
            {
                if same_text(self.text_records[j].key.as_str(), key) {
                    assert(e.text_records[j as int].key == e.text_records[i as int].key);
                    return false;
                }
                j = j + 1;
            }
            i = i + 1;
        }
        true
    }

    /// Position of the address bound to `chain_id`.
    pub fn find_chain(&self, chain_id: u16) -> (r: Option<usize>)
        ensures
            match r {
                Some(i) => chain_at(self@.addresses, i as int, chain_id),
                None => !has_chain(self@.addresses, chain_id),
            },
    {
        let mut i: usize = 0;
        while i < self.addresses.len()
            invariant
                0 <= i <= self.addresses@.len(),
                forall|j: int| 0 <= j < i ==> !chain_at(self@.addresses, j, chain_id),
            decreases self.addresses@.len() - i,
        {
            if self.addresses[i].chain_id == chain_id {
                return Some(i);
            }
            i = i + 1;
        }
        None
    }

    /// Position of the text record under `key`.
    pub fn find_key(&self, key: &str) -> (r: Option<usize>)
        ensures
            match r {
                Some(i) => key_at(self@.text_records, i as int, key@),
                None => !has_key(self@.text_records, key@),
            },
    {
        let mut i: usize = 0;
        while i < self.text_records.len()
            invariant
                0 <= i <= self.text_records@.len(),
                forall|j: int| 0 <= j < i ==> !key_at(self@.text_records, j, key@),
            decreases self.text_records@.len() - i,
        {
            if same_text(self.text_records[i].key.as_str(), key) {
                return Some(i);
            }
            i = i + 1;
        }
        None
    }

    /// Binds `chain_id` to `address`, overwriting in place or appending.
    pub fn upsert_address(&mut self, chain_id: u16, address: [u8; 32]) -> (r: Result<(), ResolverError>)
        requires
            old(self).wf(),
        ensures
            final(self).wf(),
            match r {
                Ok(()) => {
                    &&& !address_full(old(self)@.addresses, chain_id)
                    &&& final(self)@ == (ResolverEntry {
                        addresses: address_upsert(old(self)@.addresses, chain_id, address),
                        ..old(self)@
                    })
                },
                Err(e) => {
                    &&& address_full(old(self)@.addresses, chain_id)
                    &&& e == ResolverError::TooManyAddresses
                    &&& final(self)@ == old(self)@
                },
            },
    {
        let rec = AddressRecord { chain_id, address };
        match self.find_chain(chain_id) {
            Some(i) => {
                proof {
                    let k = chain_index(self@.addresses, chain_id);
                    assert(chain_at(self@.addresses, k, chain_id));
                }
                self.addresses.set(i, rec);
            },
            None => {
                if self.addresses.len() >= MAX_ADDRESSES {
                    return Err(ResolverError::TooManyAddresses);
                }
                let ghost before = self@.addresses;
                self.addresses.push(rec);
                assert forall|j: int| 0 <= j < before.len() implies self@.addresses[j].chain_id
                    != chain_id by {
                    assert(!chain_at(before, j, chain_id));
                }
            },
        }
        Ok(())
    }

    /// Binds `key` to `value`, overwriting in place or appending.
    pub fn upsert_text_record(&mut self, key: String, value: String) -> (r: Result<(), ResolverError>)
        requires
            old(self).wf(),
        ensures
            final(self).wf(),
            match r {
                Ok(()) => {
                    &&& text_error(old(self)@.text_records, key@, value@) is None
                    &&& final(self)@ == (ResolverEntry {
                        text_records: text_upsert(old(self)@.text_records, key@, value@),
                        ..old(self)@
                    })
                },
                Err(e) => {
                    &&& text_error(old(self)@.text_records, key@, value@) == Some(e)
                    &&& final(self)@ == old(self)@
                },
            },
    {
        if key.as_str().unicode_len() > MAX_KEY_LEN {
            return Err(ResolverError::KeyTooLong);
        }
        if value.as_str().unicode_len() > MAX_VALUE_LEN {
            return Err(ResolverError::ValueTooLong);
        }
        let ghost before = self@;
        match self.find_key(key.as_str()) {
            Some(i) => {
                proof {
                    let k = key_index(before.text_records, key@);
                    assert(key_at(before.text_records, k, key@));
                }
                self.text_records[i].value = value;
                assert(self@.text_records =~= text_upsert(before.text_records, key@, value@));
            },
            None => {
                if self.text_records.len() >= MAX_TEXT_RECORDS {
                    return Err(ResolverError::TooManyTextRecords);
                }
                let ghost kv = key@;
                let ghost vv = value@;
                self.text_records.push(TextRecord { key, value });
                assert(self@.text_records =~= text_upsert(before.text_records, kv, vv));
                assert forall|j: int| 0 <= j < before.text_records.len() implies self@.text_records[j].key
                    != kv by {
                    assert(!key_at(before.text_records, j, kv));
                }
            },
        }
        Ok(())
    }
}

/// Emitted by `set_address`.
#[derive(Debug)]
pub struct AddressUpdated {
    pub name: String,
    pub chain_id: u16,
    pub address: [u8; 32],
}

/// Emitted by `set_text_record`.
#[derive(Debug)]
pub struct TextRecordUpdated {
    pub name: String,
    pub key: String,
    pub value: String,
}

/// Emitted by `set_content_hash`.
#[derive(Debug)]
pub struct ContentHashUpdated {
    pub name: String,
    pub content_hash: [u8; 32],
}

/// Emitted by `set_moltbook_agent`.
#[derive(Debug)]
pub struct MoltbookAgentUpdated {
    pub name: String,
    pub agent_id: String,
}

/// Signer for `initialize_resolver`, who becomes the resolver's owner.
#[derive(Clone, Copy, Debug)]
pub struct InitializeResolver {
    pub owner: Pubkey,
}

/// Signer for the resolver setters, who must own the resolver.
#[derive(Clone, Copy, Debug)]
pub struct UpdateResolver {
    pub owner: Pubkey,
}

pub open spec fn resolver_at(rs: Seq<ResolverEntry>, i: int, name: Seq<char>) -> bool {
    0 <= i < rs.len() && rs[i].name == name
}

pub open spec fn has_resolver(rs: Seq<ResolverEntry>, name: Seq<char>) -> bool {
    exists|i: int| resolver_at(rs, i, name)
}

pub open spec fn resolver_index(rs: Seq<ResolverEntry>, name: Seq<char>) -> int {
    choose|i: int| resolver_at(rs, i, name)
}

/// The resolver stored under `name`, if any.
pub open spec fn lookup_resolver(rs: Seq<ResolverEntry>, name: Seq<char>) -> Option<ResolverEntry> {
    if has_resolver(rs, name) {
        Some(rs[resolver_index(rs, name)])
    } else {
        None
    }
}

/// Names unique, every resolver well formed.
pub open spec fn resolvers_wf(rs: Seq<ResolverEntry>) -> bool {
    &&& forall|i: int, j: int|
        0 <= i < rs.len() && 0 <= j < rs.len() && i != j ==> #[trigger] rs[i].name != #[trigger] rs[j].name
    &&& forall|i: int| 0 <= i < rs.len() ==> (#[trigger] rs[i]).wf()
}

/// `rs` with the resolver of `name` replaced by `e`.
pub open spec fn with_resolver(rs: Seq<ResolverEntry>, name: Seq<char>, e: ResolverEntry) -> Seq<ResolverEntry> {
    rs.update(resolver_index(rs, name), e)
}

/// The error that a setter on `name` signed by `signer` fails with before
/// looking at its arguments, if any.
pub open spec fn access_error(rs: Seq<ResolverEntry>, name: Seq<char>, signer: Pubkey) -> Option<ResolverError> {
    if !has_resolver(rs, name) {
        Some(ResolverError::AccountNotFound)
    } else if lookup_resolver(rs, name)->0.owner != signer {
        Some(ResolverError::NotOwner)
    } else {
        None
    }
}

pub open spec fn initialize_resolver_error(rs: Seq<ResolverEntry>, name: Seq<char>) -> Option<ResolverError> {
    if has_resolver(rs, name) {
        Some(ResolverError::AlreadyInUse)
    } else {
        None
    }
}

/// A resolver with no data yet.
pub open spec fn empty_resolver(name: Seq<char>, owner: Pubkey) -> ResolverEntry {
    ResolverEntry {
        name,
        owner,
        addresses: Seq::empty(),
        text_records: Seq::empty(),
        content_hash: None,
        agent_id: None,
    }
}

pub open spec fn set_address_error(rs: Seq<ResolverEntry>, ctx: UpdateResolver, name: Seq<char>, chain_id: u16) -> Option<
    ResolverError,
> {
    if access_error(rs, name, ctx.owner) is Some {
        access_error(rs, name, ctx.owner)
    } else if address_full(lookup_resolver(rs, name)->0.addresses, chain_id) {
        Some(ResolverError::TooManyAddresses)
    } else {
        None
    }
}

pub open spec fn set_address_effect(rs: Seq<ResolverEntry>, name: Seq<char>, chain_id: u16, address: [u8; 32]) -> Seq<
    ResolverEntry,
> {
    let e = lookup_resolver(rs, name)->0;
    with_resolver(rs, name, ResolverEntry { addresses: address_upsert(e.addresses, chain_id, address), ..e })
}

pub open spec fn set_text_record_error(
    rs: Seq<ResolverEntry>,
    ctx: UpdateResolver,
    name: Seq<char>,
    key: Seq<char>,
    value: Seq<char>,
) -> Option<ResolverError> {
    if access_error(rs, name, ctx.owner) is Some {
        access_error(rs, name, ctx.owner)
    } else {
        text_error(lookup_resolver(rs, name)->0.text_records, key, value)
    }
}

pub open spec fn set_text_record_effect(rs: Seq<ResolverEntry>, name: Seq<char>, key: Seq<char>, value: Seq<char>) -> Seq<
    ResolverEntry,
> {
    let e = lookup_resolver(rs, name)->0;
    with_resolver(rs, name, ResolverEntry { text_records: text_upsert(e.text_records, key, value), ..e })
}

pub open spec fn set_content_hash_effect(rs: Seq<ResolverEntry>, name: Seq<char>, hash: [u8; 32]) -> Seq<
    ResolverEntry,
> {
    let e = lookup_resolver(rs, name)->0;
    with_resolver(rs, name, ResolverEntry { content_hash: Some(hash), ..e })
}

pub open spec fn set_agent_error(rs: Seq<ResolverEntry>, ctx: UpdateResolver, name: Seq<char>, agent_id: Seq<char>) -> Option<
    ResolverError,
> {
    if access_error(rs, name, ctx.owner) is Some {
        access_error(rs, name, ctx.owner)
    } else if agent_id.len() > MAX_AGENT_ID_LEN {
        Some(ResolverError::AgentIdTooLong)
    } else {
        None
    }
}

pub open spec fn set_agent_effect(rs: Seq<ResolverEntry>, name: Seq<char>, agent_id: Seq<char>) -> Seq<ResolverEntry> {
    let e = lookup_resolver(rs, name)->0;
    with_resolver(rs, name, ResolverEntry { agent_id: Some(agent_id), ..e })
}

/// In well-formed accounts the resolver of a name is the only one that holds it.
pub proof fn lemma_resolver_index_unique(rs: Seq<ResolverEntry>, name: Seq<char>, i: int)
    requires
        resolvers_wf(rs),
        resolver_at(rs, i, name),
    ensures
        has_resolver(rs, name),
        resolver_index(rs, name) == i,
        lookup_resolver(rs, name) == Some(rs[i]),
{
    let k = resolver_index(rs, name);
    assert(resolver_at(rs, k, name));
    assert(rs[k].name == rs[i].name);
}

/// The resolver accounts: one resolver per name.
pub struct ResolverAccounts {
    resolvers: Vec<Resolver>,
}

impl View for ResolverAccounts {
    type V = Seq<ResolverEntry>;

    closed spec fn view(&self) -> Seq<ResolverEntry> {
        self.resolvers@.map_values(|r: Resolver| r@)
    }
}

impl ResolverAccounts {
    pub open spec fn wf(&self) -> bool {
        resolvers_wf(self@)
    }

    /// Accounts with no resolvers.
    pub fn new() -> (r: ResolverAccounts)
        ensures
            r.wf(),
            r@.len() == 0,
    {
        let r = ResolverAccounts { resolvers: Vec::new() };
        assert(r@ =~= Seq::<ResolverEntry>::empty());
        r
    }

    /// Accounts holding `resolvers`, provided that each is well formed and
    /// their names are distinct.
    pub fn from_parts(resolvers: Vec<Resolver>) -> (r: Option<ResolverAccounts>)
        ensures
            match r {
                Some(a) => a.wf() && a@ == resolvers@.map_values(|x: Resolver| x@),
                None => !resolvers_wf(resolvers@.map_values(|x: Resolver| x@)),
            },
    {
        let ghost rs = resolvers@.map_values(|x: Resolver| x@);
        let mut i: usize = 0;
        while i < resolvers.len()
            invariant
                0 <= i <= resolvers@.len(),
                rs == resolvers@.map_values(|x: Resolver| x@),
                forall|a: int| 0 <= a < i ==> (#[trigger] rs[a]).wf(),
                forall|a: int, b: int| 0 <= a < i && 0 <= b < i && a != b ==> #[trigger] rs[a].name != #[trigger] rs[b].name,
            decreases resolvers@.len() - i,
        {
            if !resolvers[i].is_well_formed() {
                assert(!rs[i as int].wf());
                return None;
            }
            let name = resolvers[i].name.as_str();
            let mut j: usize = 0;
            while j < i
                invariant
                    0 <= j <= i < resolvers@.len(),
                    name@ == rs[i as int].name,
                    rs == resolvers@.map_values(|x: Resolver| x@),
                    forall|b: int| 0 <= b < j ==> rs[b].name != rs[i as int].name,
                decreases i - j,
            {
                if same_text(resolvers[j].name.as_str(), name) {
                    assert(rs[j as int].name == rs[i as int].name);
                    return None;
                }
                j = j + 1;
            }
            i = i + 1;
        }
        Some(ResolverAccounts { resolvers })
    }

    /// The resolvers, in order.
    pub fn into_parts(self) -> (r: Vec<Resolver>)
        ensures
            r@.map_values(|x: Resolver| x@) == self@,
    {
        self.resolvers
    }

    /// Number of resolvers.
    pub fn len(&self) -> (r: usize)
        ensures
            r == self@.len(),
    {
        self.resolvers.len()
    }

    /// Position of the resolver of `name`.
    pub fn find(&self, name: &str) -> (r: Option<usize>)
        ensures
            match r {
                Some(i) => resolver_at(self@, i as int, name@),
                None => !has_resolver(self@, name@),
            },
    {
        let mut i: usize = 0;
        while i < self.resolvers.len()
            invariant
                0 <= i <= self.resolvers@.len(),
                forall|j: int| 0 <= j < i ==> !resolver_at(self@, j, name@),
            decreases self.resolvers@.len() - i,
        {
            if same_text(self.resolvers[i].name.as_str(), name) {
                return Some(i);
            }
            i = i + 1;
        }
        None
    }

    /// The resolver of `name`.
    pub fn get(&self, name: &str) -> (r: Option<&Resolver>)
        requires
            self.wf(),
        ensures
            match r {
                Some(res) => lookup_resolver(self@, name@) == Some(res@),
                None => lookup_resolver(self@, name@) is None,
            },
    {
        match self.find(name) {
            Some(i) => {
                proof {
                    lemma_resolver_index_unique(self@, name@, i as int);
                }
                Some(&self.resolvers[i])
            },
            None => None,
        }
    }

    /// Position of the resolver of `name`, which `signer` must own.
    fn owned_index(&self, name: &str, signer: Pubkey) -> (r: Result<usize, ResolverError>)
        requires
            self.wf(),
        ensures
            match r {
                Ok(i) => {
                    &&& access_error(self@, name@, signer) is None
                    &&& resolver_at(self@, i as int, name@)
                    &&& resolver_index(self@, name@) == i
                },
                Err(e) => access_error(self@, name@, signer) == Some(e),
            },
    {
        match self.find(name) {
            None => Err(ResolverError::AccountNotFound),
            Some(i) => {
                proof {
                    lemma_resolver_index_unique(self@, name@, i as int);
                }
                if self.resolvers[i].owner == signer {
                    Ok(i)
                } else {
                    Err(ResolverError::NotOwner)
                }
            },
        }
    }
}

/// Creates an empty resolver for `name`, owned by the signer.
///
/// Resolver ownership is independent of name ownership: the signer need not
/// own, nor anyone have registered, the name.
pub fn initialize_resolver(accounts: &mut ResolverAccounts, ctx: &InitializeResolver, name: String) -> (r:
    Result<(), ResolverError>)
    requires
        old(accounts).wf(),
    ensures
        final(accounts).wf(),
        match r {
            Ok(()) => {
                &&& initialize_resolver_error(old(accounts)@, name@) is None
                &&& final(accounts)@ == old(accounts)@.push(empty_resolver(name@, ctx.owner))
            },
            Err(e) => {
                &&& initialize_resolver_error(old(accounts)@, name@) == Some(e)
                &&& final(accounts)@ == old(accounts)@
            },
        },
{
    if accounts.find(name.as_str()).is_some() {
        return Err(ResolverError::AlreadyInUse);
    }
    let ghost before = accounts@;
    let ghost nv = name@;
    let res = Resolver::new(name, ctx.owner);
    accounts.resolvers.push(res);
    proof {
        assert(accounts@ =~= before.push(empty_resolver(nv, ctx.owner)));
        assert forall|j: int| 0 <= j < before.len() implies accounts@[j].name != nv by {
            assert(!resolver_at(before, j, nv));
        }
    }
    Ok(())
}

/// Binds `chain_id` to `address` in the resolver of `name`.
pub fn set_address(
    accounts: &mut ResolverAccounts,
    ctx: &UpdateResolver,
    name: String,
    chain_id: u16,
    address: [u8; 32],
) -> (r: Result<AddressUpdated, ResolverError>)
    requires
        old(accounts).wf(),
    ensures
        final(accounts).wf(),
        match r {
            Ok(ev) => {
                &&& set_address_error(old(accounts)@, *ctx, name@, chain_id) is None
                &&& final(accounts)@ == set_address_effect(old(accounts)@, name@, chain_id, address)
                &&& ev.name@ == name@
                &&& ev.chain_id == chain_id
                &&& ev.address == address
            },
            Err(e) => {
                &&& set_address_error(old(accounts)@, *ctx, name@, chain_id) == Some(e)
                &&& final(accounts)@ == old(accounts)@
            },
        },
{
    let i = match accounts.owned_index(name.as_str(), ctx.owner) {
        Ok(i) => i,
        Err(e) => return Err(e),
    };
    let ghost before = accounts@;
    proof {
        lemma_resolver_index_unique(before, name@, i as int);
    }
    match accounts.resolvers[i].upsert_address(chain_id, address) {
        Ok(()) => {},
        Err(e) => {
            assert(accounts@ =~= before);
            return Err(e);
        },
    }
    proof {
        assert(accounts@ =~= set_address_effect(before, name@, chain_id, address));
    }
    Ok(AddressUpdated { name, chain_id, address })
}

/// Binds `key` to `value` in the resolver of `name`.
pub fn set_text_record(
    accounts: &mut ResolverAccounts,
    ctx: &UpdateResolver,
    name: String,
    key: String,
    value: String,
) -> (r: Result<TextRecordUpdated, ResolverError>)
    requires
        old(accounts).wf(),
    ensures
        final(accounts).wf(),
        match r {
            Ok(ev) => {
                &&& set_text_record_error(old(accounts)@, *ctx, name@, key@, value@) is None
                &&& final(accounts)@ == set_text_record_effect(old(accounts)@, name@, key@, value@)
                &&& ev.name@ == name@
                &&& ev.key@ == key@
                &&& ev.value@ == value@
            },
            Err(e) => {
                &&& set_text_record_error(old(accounts)@, *ctx, name@, key@, value@) == Some(e)
                &&& final(accounts)@ == old(accounts)@
            },
        },
{
    let i = match accounts.owned_index(name.as_str(), ctx.owner) {
        Ok(i) => i,
        Err(e) => return Err(e),
    };
    let ghost before = accounts@;
    proof {
        lemma_resolver_index_unique(before, name@, i as int);
    }
    let ev_key = key.clone();
    let ev_value = value.clone();
    match accounts.resolvers[i].upsert_text_record(key, value) {
        Ok(()) => {},
        Err(e) => {
            assert(accounts@ =~= before);
            return Err(e);
        },
    }
    proof {
        assert(accounts@ =~= set_text_record_effect(before, name@, ev_key@, ev_value@));
    }
    Ok(TextRecordUpdated { name, key: ev_key, value: ev_value })
}

/// Sets the content hash of the resolver of `name`.
pub fn set_content_hash(
    accounts: &mut ResolverAccounts,
    ctx: &UpdateResolver,
    name: String,
    content_hash: [u8; 32],
) -> (r: Result<ContentHashUpdated, ResolverError>)
    requires
        old(accounts).wf(),
    ensures
        final(accounts).wf(),
        match r {
            Ok(ev) => {
                &&& access_error(old(accounts)@, name@, ctx.owner) is None
                &&& final(accounts)@ == set_content_hash_effect(old(accounts)@, name@, content_hash)
                &&& ev.name@ == name@
                &&& ev.content_hash == content_hash
            },
            Err(e) => {
                &&& access_error(old(accounts)@, name@, ctx.owner) == Some(e)
                &&& final(accounts)@ == old(accounts)@
            },
        },
{
    let i = match accounts.owned_index(name.as_str(), ctx.owner) {
        Ok(i) => i,
        Err(e) => return Err(e),
    };
    let ghost before = accounts@;
    proof {
        lemma_resolver_index_unique(before, name@, i as int);
    }
    accounts.resolvers[i].content_hash = Some(content_hash);
    proof {
        assert(accounts@ =~= set_content_hash_effect(before, name@, content_hash));
    }
    Ok(ContentHashUpdated { name, content_hash })
}

/// Sets the agent identifier of the resolver of `name`.
pub fn set_moltbook_agent(
    accounts: &mut ResolverAccounts,
    ctx: &UpdateResolver,
    name: String,
    agent_id: String,
) -> (r: Result<MoltbookAgentUpdated, ResolverError>)
    requires
        old(accounts).wf(),
    ensures
        final(accounts).wf(),
        match r {
            Ok(ev) => {
                &&& set_agent_error(old(accounts)@, *ctx, name@, agent_id@) is None
                &&& final(accounts)@ == set_agent_effect(old(accounts)@, name@, agent_id@)
                &&& ev.name@ == name@
                &&& ev.agent_id@ == agent_id@
            },
            Err(e) => {
                &&& set_agent_error(old(accounts)@, *ctx, name@, agent_id@) == Some(e)
                &&& final(accounts)@ == old(accounts)@
            },
        },
{
    let i = match accounts.owned_index(name.as_str(), ctx.owner) {
        Ok(i) => i,
        Err(e) => return Err(e),
    };
    if agent_id.as_str().unicode_len() > MAX_AGENT_ID_LEN {
        return Err(ResolverError::AgentIdTooLong);
    }
    let ghost before = accounts@;
    proof {
        lemma_resolver_index_unique(before, name@, i as int);
    }
    let ev_agent = agent_id.clone();
    accounts.resolvers[i].moltbook_agent_id = Some(agent_id);
    proof {
        assert(accounts@ =~= set_agent_effect(before, name@, ev_agent@));
    }
    Ok(MoltbookAgentUpdated { name, agent_id: ev_agent })
}

} // verus!
