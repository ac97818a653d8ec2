//! The journal in its three forms: decrypted in memory, encrypted, and
//! text-safe as it is stored.

use crate::codec::{
    base64_text, decoded, decoded_exact, fits_in_memory, standard_encode, try_b64_to_arr,
    try_b64_to_vec, FromBase64Error,
};
use crate::date::Date;
use crate::encryptor::{
    all_sealable, decryption, is_encryption_of, DecryptError, EncryptError, Encryptor,
    JournalEncryptor,
};
use crate::entries::{distinct_dates, Dated, EntrySet};
use vstd::prelude::*;

verus! {

/// The length of the salt from which the key is derived.
pub const SALT_LEN: usize = 32;

/// The length of the nonce under which one entry is encrypted.
pub const NONCE_LEN: usize = 12;

/// One day's text.
#[derive(Debug, Clone)]
pub struct Entry {
    /// The day.
    pub date: Date,
    /// What was written that day.
    pub text: String,
}

impl Dated for Entry {
    open spec fn date_spec(&self) -> Date {
        self.date
    }

    fn date(&self) -> Date {
        self.date
    }
}

/// What an encrypted entry holds.
pub struct EncryptedEntryView {
    pub date: Date,
    pub nonce: Seq<u8>,
    pub digest: Seq<u8>,
}

/// What a stored entry holds.
pub struct StoredEntryView {
    pub date: Date,
    pub nonce: Seq<char>,
    pub digest: Seq<char>,
}

/// One day's text in encrypted form.
#[derive(Debug, Clone)]
pub struct EncryptedEntry {
    /// The date; it is not encrypted.
    pub date: Date,
    /// The nonce under which the text was encrypted.
    pub nonce: [u8; 12],
    /// The encrypted text.
    pub digest: Vec<u8>,
}

impl Dated for EncryptedEntry {
    open spec fn date_spec(&self) -> Date {
        self.date
    }

    fn date(&self) -> Date {
        self.date
    }
}

impl View for EncryptedEntry {
    type V = EncryptedEntryView;

    open spec fn view(&self) -> EncryptedEntryView {
        EncryptedEntryView { date: self.date, nonce: self.nonce@, digest: self.digest@ }
    }
}

/// One day's text as it is stored: the binary fields as base64 text.
#[derive(Debug, Clone)]
pub struct StoredEntry {
    /// The date.
    pub date: Date,
    /// The nonce, as text.
    pub nonce: String,
    /// The encrypted text, as text.
    pub digest: String,
}

impl Dated for StoredEntry {
    open spec fn date_spec(&self) -> Date {
        self.date
    }

    fn date(&self) -> Date {
        self.date
    }
}

impl View for StoredEntry {
    type V = StoredEntryView;

    open spec fn view(&self) -> StoredEntryView {
        StoredEntryView { date: self.date, nonce: self.nonce@, digest: self.digest@ }
    }
}

/// The stored form of an encrypted entry.
pub open spec fn stored_entry_form(entry: EncryptedEntryView) -> StoredEntryView {
    StoredEntryView {
        date: entry.date,
        nonce: base64_text(entry.nonce),
        digest: base64_text(entry.digest),
    }
}

/// What a stored entry decodes to: the encrypted entry, or the first thing
/// wrong with it, the nonce coming before the digest.
pub open spec fn encrypted_entry_form(entry: StoredEntryView) -> Result<
    EncryptedEntryView,
    FromBase64Error,
> {
    match decoded_exact(entry.nonce, NONCE_LEN as nat) {
        Err(e) => Err(e),
        Ok(nonce) => match decoded(entry.digest) {
            Err(e) => Err(e),
            Ok(digest) => Ok(EncryptedEntryView { date: entry.date, nonce, digest }),
        },
    }
}

impl StoredEntry {
    /// The stored form of an encrypted entry. Decoding it gives the entry
    /// back.
    pub fn from(value: EncryptedEntry) -> (stored: StoredEntry)
        requires
            fits_in_memory(value.digest@.len()),
        ensures
            stored@ == stored_entry_form(value@),
            encrypted_entry_form(stored@) == Ok::<EncryptedEntryView, FromBase64Error>(value@),
    {
        encode_entry(&value)
    }
}

impl EncryptedEntry {
    /// Decodes a stored entry.
    pub fn try_from(value: StoredEntry) -> (r: Result<EncryptedEntry, FromBase64Error>)
        ensures
            match encrypted_entry_form(value@) {
                Ok(entry) => r is Ok && r->Ok_0@ == entry,
                Err(e) => r == Err::<EncryptedEntry, FromBase64Error>(e),
            },
    {
        decode_entry(&value)
    }
}

fn encode_entry(value: &EncryptedEntry) -> (stored: StoredEntry)
    requires
        fits_in_memory(value.digest@.len()),
    ensures
        stored@ == stored_entry_form(value@),
        encrypted_entry_form(stored@) == Ok::<EncryptedEntryView, FromBase64Error>(value@),
{
    let nonce = standard_encode(value.nonce.as_slice());
    let digest = standard_encode(value.digest.as_slice());
    StoredEntry { date: value.date, nonce, digest }
}

fn decode_entry(value: &StoredEntry) -> (r: Result<EncryptedEntry, FromBase64Error>)
    ensures
        match encrypted_entry_form(value@) {
            Ok(entry) => r is Ok && r->Ok_0@ == entry,
            Err(e) => r == Err::<EncryptedEntry, FromBase64Error>(e),
        },
{
    let nonce = match try_b64_to_arr::<12>(value.nonce.as_str()) {
        Ok(nonce) => nonce,
        Err(e) => {
            return Err(e);
        },
    };
    let digest = match try_b64_to_vec(value.digest.as_str()) {
        Ok(digest) => digest,
        Err(e) => {
            return Err(e);
        },
    };
    Ok(EncryptedEntry { date: value.date, nonce, digest })
}

/// What an encrypted journal holds, its entries in the order in which they
/// are held.
pub struct EncryptedJournalView {
    pub password_hash: Seq<char>,
    pub kdf_salt: Seq<u8>,
    pub entries: Seq<EncryptedEntryView>,
}

/// What a stored journal holds, its entries in the order in which they are
/// held.
pub struct StoredJournalView {
    pub password_hash: Seq<char>,
    pub kdf_salt: Seq<char>,
    pub entries: Seq<StoredEntryView>,
}

/// A journal in encrypted form.
#[derive(Debug, Clone)]
pub struct EncryptedJournal {
    /// The hash of the password.
    pub password_hash: String,
    /// The salt from which, with the password, the key is derived.
    pub kdf_salt: [u8; 32],
    /// The entries, one per date.
    pub entries: EntrySet<EncryptedEntry>,
}

impl View for EncryptedJournal {
    type V = EncryptedJournalView;

    open spec fn view(&self) -> EncryptedJournalView {
        EncryptedJournalView {
            password_hash: self.password_hash@,
            kdf_salt: self.kdf_salt@,
            entries: self.entries.seq().map_values(|e: EncryptedEntry| e@),
        }
    }
}

/// A journal as it is stored: the text-safe mirror of the encrypted form.
#[derive(Debug, Clone)]
pub struct StoredJournal {
    /// The hash of the password.
    pub password_hash: String,
    /// The salt, as text.
    pub kdf_salt: String,
    /// The entries, one per date.
    pub entries: EntrySet<StoredEntry>,
}

impl View for StoredJournal {
    type V = StoredJournalView;

    open spec fn view(&self) -> StoredJournalView {
        StoredJournalView {
            password_hash: self.password_hash@,
            kdf_salt: self.kdf_salt@,
            entries: self.entries.seq().map_values(|e: StoredEntry| e@),
        }
    }
}

/// The stored form of an encrypted journal: every entry in its place.
pub open spec fn stored_form(journal: EncryptedJournalView) -> StoredJournalView {
    StoredJournalView {
        password_hash: journal.password_hash,
        kdf_salt: base64_text(journal.kdf_salt),
        entries: journal.entries.map_values(|e: EncryptedEntryView| stored_entry_form(e)),
    }
}

/// What is wrong with the first entry, from position `from` on, that does
/// not decode.
pub open spec fn first_failure(entries: Seq<StoredEntryView>, from: int) -> Option<
    FromBase64Error,
>
    decreases entries.len() - from,
{
    if from < 0 || from >= entries.len() {
        None
    } else {
        match encrypted_entry_form(entries[from]) {
            Err(e) => Some(e),
            Ok(_) => first_failure(entries, from + 1),
        }
    }
}

/// What a stored journal decodes to: the encrypted journal with every entry
/// in its place, or the first thing wrong, the salt coming before the
/// entries.
pub open spec fn encrypted_form(stored: StoredJournalView) -> Result<
    EncryptedJournalView,
    FromBase64Error,
> {
    match decoded_exact(stored.kdf_salt, SALT_LEN as nat) {
        Err(e) => Err(e),
        Ok(kdf_salt) => match first_failure(stored.entries, 0) {
            Some(e) => Err(e),
            None => Ok(
                EncryptedJournalView {
                    password_hash: stored.password_hash,
                    kdf_salt,
                    entries: stored.entries.map_values(
                        |e: StoredEntryView| encrypted_entry_form(e)->Ok_0,
                    ),
                },
            ),
        },
    }
}

impl EncryptedJournal {
    /// Whether every entry can be encoded as text.
    pub open spec fn encodable(&self) -> bool {
        forall|i: int|
            0 <= i < self.entries.seq().len() ==> fits_in_memory(
                (#[trigger] self.entries.seq()[i]).digest@.len(),
            )
    }

    /// Tells whether every entry can be encoded as text.
    pub fn is_encodable(&self) -> (b: bool)
        ensures
            b == self.encodable(),
    {
        let n = self.entries.len();
        let mut i: usize = 0;
        while i < n
            invariant
                n == self.entries.seq().len(),
                i <= n,
                forall|k: int|
                    0 <= k < i ==> fits_in_memory(
                        (#[trigger] self.entries.seq()[k]).digest@.len(),
                    ),
            decreases n - i,
        {
            if !crate::codec::can_encode(self.entries.at(i).digest.len()) {
                return false;
            }
            i += 1;
        }
        true
    }

    /// Decodes a stored journal: the salt, then every entry in turn.
    pub fn try_from(value: StoredJournal) -> (r: Result<EncryptedJournal, FromBase64Error>)
        ensures
            match encrypted_form(value@) {
                Ok(journal) => r is Ok && r->Ok_0@ == journal,
                Err(e) => r == Err::<EncryptedJournal, FromBase64Error>(e),
            },
    {
        let kdf_salt = match try_b64_to_arr::<32>(value.kdf_salt.as_str()) {
            Ok(salt) => salt,
            Err(e) => {
                return Err(e);
            },
        };
        let ghost source = value.entries.seq();
        let ghost views = value@.entries;
        let n = value.entries.len();
        let mut entries: EntrySet<EncryptedEntry> = EntrySet::new();
        let mut i: usize = 0;
        while i < n
            invariant
                n == source.len(),
                i <= n,
                source == value.entries.seq(),
                views == value@.entries,
                decoded_exact(value.kdf_salt@, SALT_LEN as nat) == Ok::<Seq<u8>, FromBase64Error>(
                    kdf_salt@,
                ),
                distinct_dates(source),
                entries.seq().len() == i,
                first_failure(views, 0) == first_failure(views, i as int),
                forall|k: int|
                    0 <= k < i ==> encrypted_entry_form(views[k]) == Ok::<
                        EncryptedEntryView,
                        FromBase64Error,
                    >((#[trigger] entries.seq()[k])@),
            decreases n - i,
        {
            let stored = value.entries.at(i);
            assert(views[i as int] == stored@);
            match decode_entry(stored) {
                Err(e) => {
                    assert(first_failure(views, i as int) == Some(e));
                    return Err(e);
                },
                Ok(entry) => {
                    proof {
                        assert(first_failure(views, i as int) == first_failure(views, i + 1));
                        assert(!crate::entries::has_date(entries.seq(), entry.date)) by {
                            if crate::entries::has_date(entries.seq(), entry.date) {
                                let k = crate::entries::position_of(entries.seq(), entry.date);
                                assert(encrypted_entry_form(views[k]) == Ok::<
                                    EncryptedEntryView,
                                    FromBase64Error,
                                >(entries.seq()[k]@));
                                assert(views[k] == source[k]@);
                                assert(source[k].date_spec() != source[i as int].date_spec());
                            }
                        }
                    }
                    entries.insert(entry);
                },
            }
            i += 1;
        }
        let journal = EncryptedJournal { password_hash: value.password_hash, kdf_salt, entries };
        proof {
            let target = encrypted_form(value@)->Ok_0;
            assert(journal@.entries =~= target.entries);
        }
        Ok(journal)
    }
}

impl StoredJournal {
    /// The stored form of an encrypted journal. Decoding it gives the
    /// journal back.
    pub fn from(value: EncryptedJournal) -> (stored: StoredJournal)
        requires
            value.encodable(),
        ensures
            stored@ == stored_form(value@),
            encrypted_form(stored@) == Ok::<EncryptedJournalView, FromBase64Error>(value@),
    {
        let kdf_salt = standard_encode(value.kdf_salt.as_slice());
        let ghost source = value.entries.seq();
        let n = value.entries.len();
        let mut entries: EntrySet<StoredEntry> = EntrySet::new();
        let mut i: usize = 0;
        while i < n
            invariant
                n == source.len(),
                i <= n,
                source == value.entries.seq(),
                value.encodable(),
                distinct_dates(source),
                entries.seq().len() == i,
                forall|k: int|
                    0 <= k < i ==> (#[trigger] entries.seq()[k])@ == stored_entry_form(source[k]@)
                        && encrypted_entry_form(entries.seq()[k]@) == Ok::<
                        EncryptedEntryView,
                        FromBase64Error,
                    >(source[k]@),
            decreases n - i,
        {
            let entry = encode_entry(value.entries.at(i));
            proof {
                assert(!crate::entries::has_date(entries.seq(), entry.date)) by {
                    if crate::entries::has_date(entries.seq(), entry.date) {
                        let k = crate::entries::position_of(entries.seq(), entry.date);
                        assert(entries.seq()[k]@ == stored_entry_form(source[k]@));
                        assert(source[k].date_spec() != source[i as int].date_spec());
                    }
                }
            }
            entries.insert(entry);
            i += 1;
        }
        let stored = StoredJournal { password_hash: value.password_hash, kdf_salt, entries };
        proof {
            assert(stored@.entries =~= stored_form(value@).entries);
            lemma_all_decode(stored@.entries, value@.entries, 0);
            assert(stored@.entries.map_values(|e: StoredEntryView| encrypted_entry_form(e)->Ok_0)
                =~= value@.entries);
        }
        stored
    }
}

/// Where every stored entry decodes, none is the first that does not.
proof fn lemma_all_decode(stored: Seq<StoredEntryView>, plain: Seq<EncryptedEntryView>, from: int)
    requires
        0 <= from <= stored.len(),
        stored.len() == plain.len(),
        forall|k: int|
            0 <= k < stored.len() ==> encrypted_entry_form(#[trigger] stored[k]) == Ok::<
                EncryptedEntryView,
                FromBase64Error,
            >(plain[k]),
    ensures
        first_failure(stored, from) is None,
    decreases stored.len() - from,
{
    if from < stored.len() {
        lemma_all_decode(stored, plain, from + 1);
    }
}

/// What a journal holds: the password and each day's text.
pub struct StateView {
    pub password: Seq<char>,
    pub entries: Map<Date, Seq<char>>,
}

/// A journal: a password and, for each date, what was written that day.
/// The password lives in memory only.
#[derive(Debug, Clone)]
pub struct State {
    /// The password, in clear.
    pub password: String,
    /// The entries, one per date.
    pub entries: EntrySet<Entry>,
}

/// Each day's text.
pub open spec fn texts(entries: Map<Date, Entry>) -> Map<Date, Seq<char>> {
    entries.map_values(|e: Entry| e.text@)
}

impl View for State {
    type V = StateView;

    open spec fn view(&self) -> StateView {
        StateView { password: self.password@, entries: texts(self.entries@) }
    }
}

impl State {
    /// The text written on `date`, or no value where nothing was.
    pub fn get_entry(&self, date: &Date) -> (r: Option<String>)
        ensures
            match r {
                Some(text) => self@.entries.contains_key(*date) && text@ == self@.entries[*date],
                None => !self@.entries.contains_key(*date),
            },
    {
        match self.entries.get(date) {
            Some(entry) => Some(entry.text.clone()),
            None => None,
        }
    }

    /// Writes `content` on `date`, in place of what was there.
    pub fn set_entry(&mut self, date: &Date, content: &str)
        ensures
            final(self)@.entries == old(self)@.entries.insert(*date, content@),
            final(self)@.password == old(self)@.password,
    {
        let entry = Entry { date: *date, text: content.to_owned() };
        self.entries.insert(entry);
        assert(texts(self.entries@) =~= texts(old(self).entries@).insert(*date, content@));
    }

    /// The text written today, by the local clock.
    pub fn get_today(&self) -> (r: Option<String>)
        ensures
            exists|today: Date|
                today.names_a_day() && match r {
                    Some(text) => self@.entries.contains_key(today) && text@
                        == self@.entries[today],
                    None => !self@.entries.contains_key(today),
                },
    {
        let today = Date::today();
        self.get_entry(&today)
    }

    /// Writes `content` on today's date, by the local clock.
    pub fn set_today(&mut self, content: &str)
        ensures
            exists|today: Date|
                today.names_a_day() && final(self)@.entries == old(self)@.entries.insert(
                    today,
                    content@,
                ),
            final(self)@.password == old(self)@.password,
    {
        let today = Date::today();
        self.set_entry(&today, content);
    }

    /// A journal without entries, with the empty password.
    pub fn new() -> (state: State)
        ensures
            state@.password == Seq::<char>::empty(),
            state@.entries == Map::<Date, Seq<char>>::empty(),
    {
        let state = State { password: String::new(), entries: EntrySet::new() };
        assert(state@.entries =~= Map::<Date, Seq<char>>::empty());
        state
    }

    /// Replaces the password in memory; what is stored changes only when
    /// the journal is next saved.
    pub fn change_password(&mut self, new_password: &str)
        ensures
            final(self)@.password == new_password@,
            final(self)@.entries == old(self)@.entries,
    {
        self.password = new_password.to_owned();
    }
}

/// How reading the stored document can go wrong before its contents are
/// looked at.
#[derive(Debug, Clone, Copy, PartialEq, Eq, Structural)]
pub enum ReadError {
    /// The file is missing or cannot be read.
    NotAccessible,
    /// The file does not hold a stored journal.
    ParseError,
}

/// How loading, decoding and decrypting a stored journal can go wrong.
#[derive(Debug, Clone, Copy, PartialEq, Eq, Structural)]
pub enum LoadError {
    /// The file is missing or cannot be read.
    NotAccessible,
    /// The file does not hold a stored journal.
    ParseError,
    /// A field of the stored journal does not decode.
    FromBase64Error(FromBase64Error),
    /// The password does not verify against the stored hash.
    IncorrectPassword,
    /// An entry does not open under the key.
    CorruptEntry,
}

/// How encrypting, serializing and writing a journal can go wrong.
#[derive(Debug, Clone, Copy, PartialEq, Eq, Structural)]
pub enum SaveError {
    /// The stored journal could not be serialized.
    SerializationError,
    /// The file could not be written.
    FileError,
    /// The journal could not be encrypted.
    EncryptionError(EncryptError),
}

/// What loading a stored journal with a password gives: what is wrong with
/// a field that does not decode; else what decrypting the decoded journal
/// gives.
pub open spec fn loaded<E: Encryptor>(e: &E, stored: StoredJournalView, password: Seq<char>) -> Result<
    StateView,
    LoadError,
> {
    match encrypted_form(stored) {
        Err(err) => Err(LoadError::FromBase64Error(err)),
        Ok(encrypted) => match decryption(e, encrypted, password) {
            Err(DecryptError::IncorrectPassword) => Err(LoadError::IncorrectPassword),
            Err(DecryptError::CorruptEntry) => Err(LoadError::CorruptEntry),
            Ok(state) => Ok(state),
        },
    }
}

/// Whether `stored` is the stored form of an encryption of `journal` by
/// `e`, one that decodes to that encryption.
pub open spec fn is_saved_form_of<E: Encryptor>(
    e: &E,
    stored: StoredJournalView,
    journal: StateView,
) -> bool {
    exists|encrypted: EncryptedJournalView|
        {
            &&& is_encryption_of(e, encrypted, journal)
            &&& stored == stored_form(encrypted)
            &&& #[trigger] encrypted_form(stored) == Ok::<EncryptedJournalView, FromBase64Error>(
                encrypted,
            )
        }
}

impl State {
    /// Loads the journal from a stored document, as far as reading it got:
    /// decodes it and decrypts it with `password`. On success what was in
    /// memory is replaced as a whole; on any failure it is left as it was.
    pub fn load<E: Encryptor>(
        &mut self,
        document: Result<StoredJournal, ReadError>,
        password: &str,
        e: &E,
    ) -> (r: Result<(), LoadError>)
        ensures
            match document {
                Err(ReadError::NotAccessible) => r == Err::<(), LoadError>(
                    LoadError::NotAccessible,
                ),
                Err(ReadError::ParseError) => r == Err::<(), LoadError>(LoadError::ParseError),
                Ok(stored) => match loaded(e, stored@, password@) {
                    Ok(state) => r is Ok && final(self)@ == state,
                    Err(err) => r == Err::<(), LoadError>(err),
                },
            },
            r is Err ==> *final(self) == *old(self),
    {
        let stored = match document {
            Ok(stored) => stored,
            Err(ReadError::NotAccessible) => {
                return Err(LoadError::NotAccessible);
            },
            Err(ReadError::ParseError) => {
                return Err(LoadError::ParseError);
            },
        };
        let encrypted = match EncryptedJournal::try_from(stored) {
            Ok(encrypted) => encrypted,
            Err(err) => {
                return Err(LoadError::FromBase64Error(err));
            },
        };
        match e.decrypt_journal(&encrypted, password) {
            Ok(state) => {
                *self = state;
                Ok(())
            },
            Err(DecryptError::IncorrectPassword) => Err(LoadError::IncorrectPassword),
            Err(DecryptError::CorruptEntry) => Err(LoadError::CorruptEntry),
        }
    }

    /// Encrypts the journal afresh and gives its stored form, for the
    /// caller to serialize and write. It fails where the password cannot
    /// be hashed, or else where an entry is too long to be encrypted.
    pub fn save<E: Encryptor>(&self, e: &E) -> (r: Result<StoredJournal, SaveError>)
        ensures
            match r {
                Ok(stored) => all_sealable(e, self@.entries) && is_saved_form_of(
                    e,
                    stored@,
                    self@,
                ),
                Err(SaveError::EncryptionError(EncryptError::EntryTooLong)) => !all_sealable(
                    e,
                    self@.entries,
                ),
                Err(SaveError::EncryptionError(EncryptError::HashingFailed)) => !e.always_hashes(),
                Err(_) => false,
            },
    {
        match e.encrypt_journal(self) {
            Ok(encrypted) => {
                let ghost view = encrypted@;
                assert(encrypted.encodable()) by {
                    assert forall|i: int| 0 <= i < encrypted.entries.seq().len() implies fits_in_memory(
                        (#[trigger] encrypted.entries.seq()[i]).digest@.len(),
                    ) by {
                        assert(view.entries[i] == encrypted.entries.seq()[i]@);
                    }
                }
                let stored = StoredJournal::from(encrypted);
                assert(encrypted_form(stored@) == Ok::<EncryptedJournalView, FromBase64Error>(
                    view,
                ));
                Ok(stored)
            },
            Err(err) => Err(SaveError::EncryptionError(err)),
        }
    }
}

/// What was saved loads again: loading the stored form of an encryption of
/// a journal with the journal's own password gives the journal back.
pub proof fn lemma_saved_journal_loads<E: Encryptor>(
    e: &E,
    stored: StoredJournalView,
    journal: StateView,
)
    requires
        is_saved_form_of(e, stored, journal),
    ensures
        loaded(e, stored, journal.password) == Ok::<StateView, LoadError>(journal),
{
    let encrypted = choose|encrypted: EncryptedJournalView|
        {
            &&& is_encryption_of(e, encrypted, journal)
            &&& stored == stored_form(encrypted)
            &&& #[trigger] encrypted_form(stored) == Ok::<EncryptedJournalView, FromBase64Error>(
                encrypted,
            )
        };
    crate::encryptor::lemma_decrypt_inverts_encrypt(e, encrypted, journal);
}

/// A stored journal whose salt decodes to another number of bytes than
/// the salt has does not decode, and does not load: `InvalidLength`.
pub proof fn lemma_salt_of_wrong_length<E: Encryptor>(
    e: &E,
    stored: StoredJournalView,
    salt: Seq<u8>,
    password: Seq<char>,
)
    requires
        crate::codec::base64_bytes(stored.kdf_salt) == Some(salt),
        salt.len() != SALT_LEN,
    ensures
        encrypted_form(stored) == Err::<EncryptedJournalView, FromBase64Error>(
            FromBase64Error::InvalidLength,
        ),
        loaded(e, stored, password) == Err::<StateView, LoadError>(
            LoadError::FromBase64Error(FromBase64Error::InvalidLength),
        ),
{
}

/// What was saved does not load with a password that does not verify
/// against the stored hash: loading fails with `IncorrectPassword`.
pub proof fn lemma_saved_journal_rejects_unverified_password<E: Encryptor>(
    e: &E,
    stored: StoredJournalView,
    journal: StateView,
    password: Seq<char>,
)
    requires
        is_saved_form_of(e, stored, journal),
        !e.accepts(stored.password_hash, password),
    ensures
        loaded(e, stored, password) == Err::<StateView, LoadError>(LoadError::IncorrectPassword),
{
}

impl Default for State {
    fn default() -> (state: State)
        ensures
            state@.password == Seq::<char>::empty(),
            state@.entries == Map::<Date, Seq<char>>::empty(),
    {
        State::new()
    }
}

} // verus!
