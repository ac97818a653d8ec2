//! Hashing the password, deriving the key and encrypting entries: the
//! `Encryptor` capability and its two variants, `ZeroSecurity` and `Secure`.

use crate::codec::fits_in_memory;
use crate::date::Date;
use crate::db::{
    EncryptedEntry, EncryptedEntryView, EncryptedJournal, EncryptedJournalView, Entry, State,
    StateView,
};
use crate::text::{padded_text, same_text};
use crate::entries::{distinct_dates, has_date, lemma_by_date, position_of, Dated, EntrySet};
use aes_gcm_siv::aead::{Aead, KeyInit};
use rand::Rng;
use vstd::prelude::*;
use vstd::string::StrSliceExecFns;
use vstd::utf8::{decode_utf8, encode_utf8, valid_utf8};

verus! {

/// The work factor with which `Secure` hashes the password.
pub const HASH_COST: u32 = 12;

/// The number of rounds in which `Secure` stretches the password into a key.
pub const KDF_ROUNDS: u32 = 300_000;

/// The longest text, in bytes, that `Secure` encrypts as one entry.
pub const MAX_PLAINTEXT: u64 = 0x10_0000_0000;

/// The length of the tag that `Secure` appends to an encrypted text.
pub const TAG_LEN: usize = 16;

/// The ways in which decrypting a journal can go wrong.
#[derive(Debug, Clone, Copy, PartialEq, Eq, Structural)]
pub enum DecryptError {
    /// The password does not verify against the stored hash.
    IncorrectPassword,
    /// An entry does not open under the key: it fails authentication, or
    /// what it holds is no text.
    CorruptEntry,
}

/// The ways in which encrypting a journal can go wrong.
#[derive(Debug, Clone, Copy, PartialEq, Eq, Structural)]
pub enum EncryptError {
    /// The password could not be hashed.
    HashingFailed,
    /// An entry is too long to be encrypted.
    EntryTooLong,
}

/// What `bcrypt::verify` says of a password and a hash: whether the
/// password matches, or nothing where the hash is malformed.
pub uninterp spec fn bcrypt_verdict(password: Seq<char>, hash: Seq<char>) -> Option<bool>;

/// The key that PBKDF2 with HMAC-SHA256 derives from a password and a salt
/// in the given number of rounds.
pub uninterp spec fn pbkdf2_hmac_sha256(password: Seq<u8>, salt: Seq<u8>, rounds: u32) -> Seq<u8>;

/// The ciphertext, tag included, of AES-256-GCM-SIV for a plaintext under a
/// key and a nonce, with no associated data.
pub uninterp spec fn aes_gcm_siv_sealed(key: Seq<u8>, nonce: Seq<u8>, plaintext: Seq<u8>) -> Seq<
    u8,
>;

/// The plaintext that AES-256-GCM-SIV recovers from a ciphertext under a
/// key and a nonce, with no associated data; nothing where the tag does not
/// verify.
pub uninterp spec fn aes_gcm_siv_opened(key: Seq<u8>, nonce: Seq<u8>, ciphertext: Seq<u8>) -> Option<
    Seq<u8>,
>;

/// `bcrypt::BcryptError`, what hashing and verifying fail with. Nothing is
/// read out of it.
#[verifier::external_type_specification]
#[verifier::external_body]
pub struct ExBcryptError(bcrypt::BcryptError);

/// `aes_gcm_siv::aead::Error`, what encrypting and decrypting fail with. It
/// holds nothing.
#[verifier::external_type_specification]
#[verifier::external_body]
pub struct ExAeadError(aes_gcm_siv::aead::Error);

/// `std::string::FromUtf8Error`, what making a text of bytes fails with.
/// Nothing is read out of it.
#[verifier::external_type_specification]
#[verifier::external_body]
pub struct ExFromUtf8Error(std::string::FromUtf8Error);

/// Whether a hash begins as a bcrypt hash of the work factor `cost` does:
/// with the mark of the scheme and the work factor in two digits.
pub open spec fn carries_cost(hash: Seq<char>, cost: u32) -> bool {
    hash.len() >= 7 && hash.subrange(0, 7) == "$2b$"@ + padded_text(cost as nat) + "$"@
}

/// `bcrypt::hash`. Trusted: a hash that it returns is one that
/// `bcrypt::verify` accepts for the same password, and it begins with the
/// mark of the scheme and the work factor that was asked for. It draws its
/// salt at random, so nothing else is said of the hash, and it may fail.
#[verifier::external_body]
pub(crate) fn bcrypt_hash(password: &str, cost: u32) -> (r: Result<String, bcrypt::BcryptError>)
    ensures
        r matches Ok(hash) ==> bcrypt_verdict(password@, hash@) == Some(true) && carries_cost(
            hash@,
            cost,
        ),
{
    bcrypt::hash(password, cost)
}

/// `bcrypt::verify`. Trusted: what it returns is a function of the password
/// and the hash alone; it fails where the hash is malformed.
#[verifier::external_body]
pub(crate) fn bcrypt_verify(password: &str, hash: &str) -> (r: Result<bool, bcrypt::BcryptError>)
    ensures
        match r {
            Ok(b) => bcrypt_verdict(password@, hash@) == Some(b),
            Err(_) => bcrypt_verdict(password@, hash@) is None,
        },
{
    bcrypt::verify(password, hash)
}

/// `pbkdf2::pbkdf2_hmac` with SHA-256, for a key of 32 bytes. Trusted: the
/// key is a function of the password, the salt and the number of rounds.
#[verifier::external_body]
pub(crate) fn pbkdf2_sha256(password: &[u8], salt: &[u8], rounds: u32) -> (key: [u8; 32])
    ensures
        key@ == pbkdf2_hmac_sha256(password@, salt@, rounds),
{
    let mut key = [0u8;32];
    pbkdf2::pbkdf2_hmac::<sha2::Sha256>(password, salt, rounds, &mut key);
    key
}

/// `Rng::gen` of `rand::thread_rng()`, for an array of bytes. Nothing is
/// said of the bytes: they are random.
#[verifier::external_body]
pub(crate) fn random_bytes<const N: usize>() -> [u8; N] {
    rand::thread_rng().gen()
}

/// `Aead::encrypt` of `aes_gcm_siv::Aes256GcmSiv`, with no associated data.
/// Trusted: it succeeds on a plaintext of at most `MAX_PLAINTEXT` bytes and
/// on no other; the ciphertext is a function of key, nonce and plaintext,
/// is `TAG_LEN` bytes longer than the plaintext, and opens to the plaintext
/// under the same key and nonce.
#[verifier::external_body]
pub(crate) fn aes_seal(key: &[u8; 32], nonce: &[u8; 12], plaintext: &[u8]) -> (r: Result<
    Vec<u8>,
    aes_gcm_siv::aead::Error,
>)
    requires
        plaintext@.len() + TAG_LEN <= usize::MAX,
    ensures
        r is Ok <==> plaintext@.len() <= MAX_PLAINTEXT,
        r matches Ok(ciphertext) ==> {
            &&& ciphertext@ == aes_gcm_siv_sealed(key@, nonce@, plaintext@)
            &&& ciphertext@.len() == plaintext@.len() + TAG_LEN
            &&& aes_gcm_siv_opened(key@, nonce@, ciphertext@) == Some(plaintext@)
        },
{
    let cipher = aes_gcm_siv::Aes256GcmSiv::new(key.into());
    cipher.encrypt(nonce.into(), plaintext)
}

/// `Aead::decrypt` of `aes_gcm_siv::Aes256GcmSiv`, with no associated data.
/// Trusted: the plaintext is a function of key, nonce and ciphertext, and
/// it fails where the tag does not verify.
#[verifier::external_body]
pub(crate) fn aes_open(key: &[u8; 32], nonce: &[u8; 12], ciphertext: &[u8]) -> (r: Result<
    Vec<u8>,
    aes_gcm_siv::aead::Error,
>)
    ensures
        match r {
            Ok(plaintext) => aes_gcm_siv_opened(key@, nonce@, ciphertext@) == Some(plaintext@),
            Err(_) => aes_gcm_siv_opened(key@, nonce@, ciphertext@) is None,
        },
{
    let cipher = aes_gcm_siv::Aes256GcmSiv::new(key.into());
    cipher.decrypt(nonce.into(), ciphertext)
}

/// `String::from_utf8`. Trusted: it returns the text whose bytes are the
/// given ones, and fails where they are not valid UTF-8.
#[verifier::external_body]
pub(crate) fn text_from_utf8(bytes: &[u8]) -> (r: Result<String, std::string::FromUtf8Error>)
    ensures
        match r {
            Ok(text) => valid_utf8(bytes@) && encode_utf8(text@) == bytes@,
            Err(_) => !valid_utf8(bytes@),
        },
{
    String::from_utf8(bytes.to_vec())
}

/// A key or a salt of zeros, as `ZeroSecurity` uses them.
pub open spec fn zeros(len: nat) -> Seq<u8> {
    Seq::new(len, |i: int| 0u8)
}

/// Hashing and verifying the password, deriving the key, and encrypting and
/// decrypting single entries; and, built on these once for every variant,
/// encrypting and decrypting a journal.
pub trait Encryptor {
    /// Whether `entered` verifies against the hash `hashed`.
    spec fn accepts(&self, hashed: Seq<char>, entered: Seq<char>) -> bool;

    /// Whether hashing a password never fails.
    spec fn always_hashes(&self) -> bool;

    /// Whether `salt` is a salt that this variant makes.
    spec fn makes_salt(&self, salt: Seq<u8>) -> bool;

    /// The key derived from a password and a salt.
    spec fn derived_key(&self, password: Seq<char>, salt: Seq<u8>) -> Seq<u8>;

    /// Whether `text` can be encrypted as one entry.
    spec fn sealable(&self, text: Seq<char>) -> bool;

    /// Whether `digest` is what encrypting `text` under `key` and `nonce`
    /// gives.
    spec fn seals(&self, key: Seq<u8>, nonce: Seq<u8>, text: Seq<char>, digest: Seq<u8>) -> bool;

    /// The text that `digest` opens to under `key` and `nonce`; nothing
    /// where it fails authentication or holds no text.
    spec fn opened(&self, key: Seq<u8>, nonce: Seq<u8>, digest: Seq<u8>) -> Option<Seq<char>>;

    /// Hashes the password. A hash that comes back verifies against the
    /// same password.
    fn hash_password(&self, password: &str) -> (r: Result<String, EncryptError>)
        ensures
            match r {
                Ok(hash) => self.accepts(hash@, password@),
                Err(e) => e == EncryptError::HashingFailed && !self.always_hashes(),
            },
    ;

    /// Verifies an entered password against a hash.
    fn verify_password(&self, hashed_password: &str, entered_password: &str) -> (b: bool)
        ensures
            b == self.accepts(hashed_password@, entered_password@),
    ;

    /// Encrypts one entry under `key`. It succeeds on every text that can
    /// be encrypted, and what comes back opens to that text under `key`.
    fn encrypt_journal_entry(&self, key: [u8; 32], entry: &str, date: &Date) -> (r: Result<
        EncryptedEntry,
        EncryptError,
    >)
        ensures
            match r {
                Ok(sealed) => {
                    &&& self.sealable(entry@)
                    &&& sealed.date == *date
                    &&& self.seals(key@, sealed.nonce@, entry@, sealed.digest@)
                    &&& self.opened(key@, sealed.nonce@, sealed.digest@) == Some(entry@)
                    &&& fits_in_memory(sealed.digest@.len())
                },
                Err(e) => !self.sealable(entry@) && e == EncryptError::EntryTooLong,
            },
    ;

    /// Decrypts one entry under `key`: its date and its text, or an error
    /// where the entry does not open. No unverified text is returned.
    fn decrypt_journal_entry(&self, key: [u8; 32], entry: &EncryptedEntry) -> (r: Result<
        (Date, String),
        DecryptError,
    >)
        ensures
            match self.opened(key@, entry.nonce@, entry.digest@) {
                Some(text) => r is Ok && r->Ok_0.0 == entry.date && r->Ok_0.1@ == text,
                None => r == Err::<(Date, String), DecryptError>(DecryptError::CorruptEntry),
            },
    ;

    /// Makes a salt for key derivation.
    fn make_kdf_salt(&self) -> (salt: [u8; 32])
        ensures
            self.makes_salt(salt@),
    ;

    /// Derives the key from the password and the salt.
    fn gen_key(&self, password: &str, kdf_salt: [u8; 32]) -> (key: [u8; 32])
        ensures
            key@ == self.derived_key(password@, kdf_salt@),
    ;
}

/// Whether an entry of `entries` belongs to `date`.
pub open spec fn dated_at(entries: Seq<EncryptedEntryView>, date: Date) -> bool {
    exists|i: int| 0 <= i < entries.len() && (#[trigger] entries[i]).date == date
}

/// The position of an entry of `entries` that belongs to `date`.
pub open spec fn index_of(entries: Seq<EncryptedEntryView>, date: Date) -> int {
    choose|i: int| 0 <= i < entries.len() && (#[trigger] entries[i]).date == date
}

/// Whether no two entries of `entries` share a date.
pub open spec fn one_per_date(entries: Seq<EncryptedEntryView>) -> bool {
    forall|i: int, j: int|
        0 <= i < j < entries.len() ==> (#[trigger] entries[i]).date != (#[trigger] entries[j]).date
}

/// Whether `sealed` holds, for every date of `plain` and for no other, one
/// entry, which `e` made of that day's text under `key` and which opens to
/// it.
pub open spec fn seals_entries<E: Encryptor + ?Sized>(
    e: &E,
    key: Seq<u8>,
    sealed: Seq<EncryptedEntryView>,
    plain: Map<Date, Seq<char>>,
) -> bool {
    &&& one_per_date(sealed)
    &&& forall|date: Date| #[trigger] plain.contains_key(date) <==> dated_at(sealed, date)
    &&& forall|i: int|
        0 <= i < sealed.len() ==> {
            let s = #[trigger] sealed[i];
            &&& e.seals(key, s.nonce, plain[s.date], s.digest)
            &&& e.opened(key, s.nonce, s.digest) == Some(plain[s.date])
            &&& fits_in_memory(s.digest.len())
        }
}

/// Whether `e` can encrypt every text of `plain`.
pub open spec fn all_sealable<E: Encryptor + ?Sized>(e: &E, plain: Map<Date, Seq<char>>) -> bool {
    forall|date: Date| plain.contains_key(date) ==> e.sealable(#[trigger] plain[date])
}

/// Whether `encrypted` is an encryption of `journal` by `e`: the hash
/// verifies against the password, the salt is one that `e` makes, and the
/// entries are those of `journal`, each encrypted under the key derived
/// from the password and the salt.
pub open spec fn is_encryption_of<E: Encryptor + ?Sized>(
    e: &E,
    encrypted: EncryptedJournalView,
    journal: StateView,
) -> bool {
    &&& e.accepts(encrypted.password_hash, journal.password)
    &&& e.makes_salt(encrypted.kdf_salt)
    &&& seals_entries(
        e,
        e.derived_key(journal.password, encrypted.kdf_salt),
        encrypted.entries,
        journal.entries,
    )
}

/// Whether every entry of `sealed` opens under `key`.
pub open spec fn all_open<E: Encryptor + ?Sized>(
    e: &E,
    key: Seq<u8>,
    sealed: Seq<EncryptedEntryView>,
) -> bool {
    forall|i: int|
        0 <= i < sealed.len() ==> e.opened(key, (#[trigger] sealed[i]).nonce, sealed[i].digest)
            is Some
}

/// The texts that the entries of `sealed` open to under `key`, by date.
pub open spec fn opened_entries<E: Encryptor + ?Sized>(
    e: &E,
    key: Seq<u8>,
    sealed: Seq<EncryptedEntryView>,
) -> Map<Date, Seq<char>> {
    Map::new(
        |date: Date| dated_at(sealed, date),
        |date: Date|
            {
                let s = sealed[index_of(sealed, date)];
                e.opened(key, s.nonce, s.digest)->Some_0
            },
    )
}

/// What decrypting `encrypted` with `password` gives: `IncorrectPassword`
/// where the password does not verify against the hash; else `CorruptEntry`
/// where an entry does not open under the key derived from the password
/// and the stored salt; else the journal with that password and the text
/// of every entry.
pub open spec fn decryption<E: Encryptor + ?Sized>(
    e: &E,
    encrypted: EncryptedJournalView,
    password: Seq<char>,
) -> Result<StateView, DecryptError> {
    let key = e.derived_key(password, encrypted.kdf_salt);
    if !e.accepts(encrypted.password_hash, password) {
        Err(DecryptError::IncorrectPassword)
    } else if !all_open(e, key, encrypted.entries) {
        Err(DecryptError::CorruptEntry)
    } else {
        Ok(StateView { password, entries: opened_entries(e, key, encrypted.entries) })
    }
}

/// The entries as the contracts speak of them.
pub open spec fn views_of(entries: Seq<EncryptedEntry>) -> Seq<EncryptedEntryView> {
    entries.map_values(|e: EncryptedEntry| e@)
}

/// Encrypts every entry under `key`, in turn.
pub fn encrypt_entries<E: Encryptor + ?Sized>(e: &E, key: [u8; 32], entries: &EntrySet<Entry>) -> (r:
    Result<EntrySet<EncryptedEntry>, EncryptError>)
    ensures
        match r {
            Ok(sealed) => all_sealable(e, crate::db::texts(entries@)) && seals_entries(
                e,
                key@,
                views_of(sealed.seq()),
                crate::db::texts(entries@),
            ),
            Err(err) => err == EncryptError::EntryTooLong && !all_sealable(
                e,
                crate::db::texts(entries@),
            ),
        },
{
    let ghost source = entries.seq();
    let ghost plain = crate::db::texts(entries@);
    let n = entries.len();
    let mut sealed: EntrySet<EncryptedEntry> = EntrySet::new();
    let mut i: usize = 0;
    proof {
        lemma_by_date(source);
    }
    while i < n
        invariant
            n == source.len(),
            i <= n,
            source == entries.seq(),
            plain == crate::db::texts(entries@),
            distinct_dates(source),
            sealed.seq().len() == i,
            forall|k: int|
                0 <= k < i ==> {
                    let s = #[trigger] sealed.seq()[k];
                    &&& s.date == source[k].date
                    &&& e.sealable(source[k].text@)
                    &&& e.seals(key@, s.nonce@, source[k].text@, s.digest@)
                    &&& e.opened(key@, s.nonce@, s.digest@) == Some(source[k].text@)
                    &&& fits_in_memory(s.digest@.len())
                },
        decreases n - i,
    {
        let entry = entries.at(i);
        match e.encrypt_journal_entry(key, entry.text.as_str(), &entry.date) {
            Err(_) => {
                assert(plain.contains_key(entry.date) && plain[entry.date] == entry.text@);
                assert(!e.sealable(plain[entry.date]));
                return Err(EncryptError::EntryTooLong);
            },
            Ok(item) => {
                proof {
                    assert(!has_date(sealed.seq(), item.date)) by {
                        if has_date(sealed.seq(), item.date) {
                            let k = position_of(sealed.seq(), item.date);
                            assert(sealed.seq()[k].date == source[k].date);
                            assert(source[k].date_spec() != source[i as int].date_spec());
                        }
                    }
                }
                sealed.insert(item);
            },
        }
        i += 1;
    }
    proof {
        let views = views_of(sealed.seq());
        assert forall|a: int, b: int| 0 <= a < b < views.len() implies (#[trigger] views[a]).date
            != (#[trigger] views[b]).date by {
            assert(sealed.seq()[a].date == source[a].date);
            assert(sealed.seq()[b].date == source[b].date);
            assert(source[a].date_spec() != source[b].date_spec());
        }
        assert forall|date: Date| #[trigger] plain.contains_key(date) <==> dated_at(
            views,
            date,
        ) by {
            if plain.contains_key(date) {
                let k = position_of(source, date);
                assert(sealed.seq()[k].date == source[k].date);
                assert(views[k].date == date);
            }
            if dated_at(views, date) {
                let k = index_of(views, date);
                assert(sealed.seq()[k].date == source[k].date);
                assert(entries@.contains_key(source[k].date_spec()));
            }
        }
        assert forall|date: Date| plain.contains_key(date) implies e.sealable(
            #[trigger] plain[date],
        ) by {
            let k = position_of(source, date);
            assert(sealed.seq()[k].date == source[k].date);
            assert(entries@[source[k].date_spec()] == source[k]);
        }
        assert forall|k: int| 0 <= k < views.len() implies {
            let s = #[trigger] views[k];
            &&& e.seals(key@, s.nonce, plain[s.date], s.digest)
            &&& e.opened(key@, s.nonce, s.digest) == Some(plain[s.date])
            &&& fits_in_memory(s.digest.len())
        } by {
            assert(sealed.seq()[k].date == source[k].date);
            assert(entries@[source[k].date_spec()] == source[k]);
        }
    }
    Ok(sealed)
}

/// Decrypts every entry under `key`, in turn.
pub fn decrypt_entries<E: Encryptor + ?Sized>(
    e: &E,
    key: [u8; 32],
    entries: &EntrySet<EncryptedEntry>,
) -> (r: Result<EntrySet<Entry>, DecryptError>)
    ensures
        match r {
            Ok(plain) => all_open(e, key@, views_of(entries.seq())) && crate::db::texts(plain@)
                == opened_entries(e, key@, views_of(entries.seq())),
            Err(err) => err == DecryptError::CorruptEntry && !all_open(
                e,
                key@,
                views_of(entries.seq()),
            ),
        },
{
    let ghost source = entries.seq();
    let ghost views = views_of(entries.seq());
    let n = entries.len();
    let mut plain: EntrySet<Entry> = EntrySet::new();
    let mut i: usize = 0;
    while i < n
        invariant
            n == source.len(),
            i <= n,
            source == entries.seq(),
            views == views_of(source),
            distinct_dates(source),
            plain.seq().len() == i,
            forall|k: int|
                0 <= k < i ==> {
                    let p = #[trigger] plain.seq()[k];
                    &&& p.date == source[k].date
                    &&& e.opened(key@, source[k].nonce@, source[k].digest@) == Some(p.text@)
                },
        decreases n - i,
    {
        let entry = entries.at(i);
        match e.decrypt_journal_entry(key, entry) {
            Err(_) => {
                assert(views[i as int] == source[i as int]@);
                return Err(DecryptError::CorruptEntry);
            },
            Ok((date, text)) => {
                let item = Entry { date, text };
                proof {
                    assert(!has_date(plain.seq(), item.date)) by {
                        if has_date(plain.seq(), item.date) {
                            let k = position_of(plain.seq(), item.date);
                            assert(plain.seq()[k].date == source[k].date);
                            assert(source[k].date_spec() != source[i as int].date_spec());
                        }
                    }
                }
                plain.insert(item);
            },
        }
        i += 1;
    }
    proof {
        let target = opened_entries(e, key@, views);
        let found = crate::db::texts(plain@);
        lemma_by_date(plain.seq());
        assert forall|k: int| 0 <= k < views.len() implies e.opened(
            key@,
            (#[trigger] views[k]).nonce,
            views[k].digest,
        ) is Some by {
            assert(plain.seq()[k].date == source[k].date);
        }
        assert forall|date: Date| found.contains_key(date) == target.contains_key(date) by {
            if found.contains_key(date) {
                let k = position_of(plain.seq(), date);
                assert(plain.seq()[k].date == source[k].date);
                assert(views[k].date == date);
            }
            if target.contains_key(date) {
                let k = index_of(views, date);
                assert(plain.seq()[k].date == source[k].date);
                assert(plain@.contains_key(plain.seq()[k].date_spec()));
            }
        }
        assert forall|date: Date| found.contains_key(date) implies found[date] == target[date] by {
            let k = index_of(views, date);
            assert(views[k].date == date);
            assert(plain.seq()[k].date == source[k].date);
            assert(plain@[plain.seq()[k].date_spec()] == plain.seq()[k]);
        }
        assert(found =~= target);
    }
    Ok(plain)
}

/// Encrypting and decrypting a whole journal, written once over the
/// operations of `Encryptor` and shared by every variant.
pub trait JournalEncryptor: Encryptor {
    /// Encrypts a journal: hashes the password, makes one salt, derives one
    /// key, and encrypts every entry under that key. It fails where the
    /// password cannot be hashed, or else where an entry is too long; a
    /// variant that always hashes fails on nothing else.
    fn encrypt_journal(&self, journal: &State) -> (r: Result<EncryptedJournal, EncryptError>)
        ensures
            match r {
                Ok(encrypted) => all_sealable(self, journal@.entries) && is_encryption_of(
                    self,
                    encrypted@,
                    journal@,
                ),
                Err(EncryptError::EntryTooLong) => !all_sealable(self, journal@.entries),
                Err(EncryptError::HashingFailed) => !self.always_hashes(),
            },
    {
        let password_hash = match self.hash_password(journal.password.as_str()) {
            Ok(hash) => hash,
            Err(_) => {
                return Err(EncryptError::HashingFailed);
            },
        };
        let kdf_salt = self.make_kdf_salt();
        let key = self.gen_key(journal.password.as_str(), kdf_salt);
        let entries = match encrypt_entries(self, key, &journal.entries) {
            Ok(entries) => entries,
            Err(_) => {
                return Err(EncryptError::EntryTooLong);
            },
        };
        Ok(EncryptedJournal { password_hash, kdf_salt, entries })
    }

    /// Decrypts a journal with a password: verifies the password against
    /// the stored hash before anything else, then derives the key from the
    /// stored salt and decrypts every entry.
    fn decrypt_journal(&self, encrypted_journal: &EncryptedJournal, password: &str) -> (r: Result<
        State,
        DecryptError,
    >)
        ensures
            match decryption(self, encrypted_journal@, password@) {
                Ok(state) => r is Ok && r->Ok_0@ == state,
                Err(e) => r == Err::<State, DecryptError>(e),
            },
    {
        if !self.verify_password(encrypted_journal.password_hash.as_str(), password) {
            return Err(DecryptError::IncorrectPassword);
        }
        let key = self.gen_key(password, encrypted_journal.kdf_salt);
        let entries = match decrypt_entries(self, key, &encrypted_journal.entries) {
            Ok(entries) => entries,
            Err(e) => {
                return Err(e);
            },
        };
        Ok(State { password: password.to_owned(), entries })
    }
}

impl<E: Encryptor> JournalEncryptor for E {

}

/// The variant without protection: the password is its own hash, salt, key
/// and nonce are zeros, and an entry's text is stored as it is. For tests
/// only.
#[derive(Debug, Clone, Copy)]
pub struct ZeroSecurity;

impl Encryptor for ZeroSecurity {
    open spec fn always_hashes(&self) -> bool {
        true
    }

    open spec fn accepts(&self, hashed: Seq<char>, entered: Seq<char>) -> bool {
        hashed == entered
    }

    open spec fn makes_salt(&self, salt: Seq<u8>) -> bool {
        salt == zeros(32)
    }

    open spec fn derived_key(&self, password: Seq<char>, salt: Seq<u8>) -> Seq<u8> {
        zeros(32)
    }

    open spec fn sealable(&self, text: Seq<char>) -> bool {
        fits_in_memory(encode_utf8(text).len())
    }

    open spec fn seals(&self, key: Seq<u8>, nonce: Seq<u8>, text: Seq<char>, digest: Seq<u8>) -> bool {
        nonce == zeros(12) && digest == encode_utf8(text)
    }

    open spec fn opened(&self, key: Seq<u8>, nonce: Seq<u8>, digest: Seq<u8>) -> Option<Seq<char>> {
        if valid_utf8(digest) {
            Some(decode_utf8(digest))
        } else {
            None
        }
    }

    fn hash_password(&self, password: &str) -> (r: Result<String, EncryptError>) {
        Ok(password.to_owned())
    }

    fn verify_password(&self, hashed_password: &str, entered_password: &str) -> (b: bool) {
        same_text(hashed_password, entered_password)
    }

    fn encrypt_journal_entry(&self, _key: [u8; 32], entry: &str, date: &Date) -> (r: Result<
        EncryptedEntry,
        EncryptError,
    >) {
        let digest = entry.as_bytes_vec();
        if !crate::codec::can_encode(digest.len()) {
            return Err(EncryptError::EntryTooLong);
        }
        let nonce = [0u8;12];
        proof {
            vstd::utf8::encode_utf8_valid_utf8(entry@);
            vstd::utf8::encode_utf8_decode_utf8(entry@);
            assert(nonce@ =~= zeros(12));
        }
        Ok(EncryptedEntry { date: *date, nonce, digest })
    }

    fn decrypt_journal_entry(&self, _key: [u8; 32], entry: &EncryptedEntry) -> (r: Result<
        (Date, String),
        DecryptError,
    >) {
        match text_from_utf8(entry.digest.as_slice()) {
            Ok(text) => {
                proof {
                    vstd::utf8::encode_utf8_decode_utf8(text@);
                }
                Ok((entry.date, text))
            },
            Err(_) => Err(DecryptError::CorruptEntry),
        }
    }

    fn make_kdf_salt(&self) -> (salt: [u8; 32]) {
        let salt = [0u8;32];
        assert(salt@ =~= zeros(32));
        salt
    }

    fn gen_key(&self, _password: &str, _kdf_salt: [u8; 32]) -> (key: [u8; 32]) {
        let key = [0u8;32];
        assert(key@ =~= zeros(32));
        key
    }
}

/// The variant that protects the journal: bcrypt for the password hash,
/// PBKDF2 with HMAC-SHA256 for the key, and AES-256-GCM-SIV, under a nonce
/// drawn at random for every entry, for the entries.
#[derive(Debug, Clone, Copy)]
pub struct Secure;

/// What hashing the password comes to, given what bcrypt returned.
pub fn hash_outcome(hashed: Result<String, bcrypt::BcryptError>) -> (r: Result<
    String,
    EncryptError,
>)
    ensures
        match hashed {
            Ok(hash) => r == Ok::<String, EncryptError>(hash),
            Err(_) => r == Err::<String, EncryptError>(EncryptError::HashingFailed),
        },
{
    match hashed {
        Ok(hash) => Ok(hash),
        Err(_) => Err(EncryptError::HashingFailed),
    }
}

/// Whether the password is verified, given what bcrypt returned: only
/// where it says that the password matches.
pub fn verify_outcome(verified: Result<bool, bcrypt::BcryptError>) -> (b: bool)
    ensures
        b == (verified == Ok::<bool, bcrypt::BcryptError>(true)),
{
    match verified {
        Ok(matches) => matches,
        Err(_) => false,
    }
}

/// The text that bytes hold, where they are valid UTF-8.
pub open spec fn text_of(bytes: Seq<u8>) -> Option<Seq<char>> {
    if valid_utf8(bytes) {
        Some(decode_utf8(bytes))
    } else {
        None
    }
}

/// The text of an entry, given what opening its digest returned: the
/// plaintext as text, or `CorruptEntry` where the digest did not open or
/// the plaintext is no text.
pub fn text_outcome(opened: Result<Vec<u8>, aes_gcm_siv::aead::Error>) -> (r: Result<
    String,
    DecryptError,
>)
    ensures
        match opened {
            Ok(plaintext) => match text_of(plaintext@) {
                Some(text) => r is Ok && r->Ok_0@ == text,
                None => r == Err::<String, DecryptError>(DecryptError::CorruptEntry),
            },
            Err(_) => r == Err::<String, DecryptError>(DecryptError::CorruptEntry),
        },
{
    match opened {
        Ok(plaintext) => match text_from_utf8(plaintext.as_slice()) {
            Ok(text) => {
                proof {
                    vstd::utf8::encode_utf8_decode_utf8(text@);
                }
                Ok(text)
            },
            Err(_) => Err(DecryptError::CorruptEntry),
        },
        Err(_) => Err(DecryptError::CorruptEntry),
    }
}

impl Secure {
    /// Encrypts one entry under `key` and the nonce given. It succeeds on
    /// every text that can be encrypted. The entry carries the date and the
    /// nonce as they were given; its digest is the ciphertext of the text's
    /// bytes under key and nonce, longer than they by the tag, and opens to
    /// the text.
    pub fn seal_entry(&self, key: [u8; 32], nonce: [u8; 12], entry: &str, date: &Date) -> (r:
        Result<EncryptedEntry, EncryptError>)
        ensures
            match r {
                Ok(sealed) => {
                    &&& self.sealable(entry@)
                    &&& sealed.date == *date
                    &&& sealed.nonce == nonce
                    &&& sealed.digest@ == aes_gcm_siv_sealed(key@, nonce@, encode_utf8(entry@))
                    &&& sealed.digest@.len() == encode_utf8(entry@).len() + TAG_LEN
                    &&& self.opened(key@, nonce@, sealed.digest@) == Some(entry@)
                    &&& fits_in_memory(sealed.digest@.len())
                },
                Err(e) => !self.sealable(entry@) && e == EncryptError::EntryTooLong,
            },
    {
        match self.aes_encrypt(&key, &nonce, entry) {
            Ok(digest) => Ok(EncryptedEntry { date: *date, nonce, digest }),
            Err(e) => Err(e),
        }
    }

    /// Encrypts a text under a key and a nonce.
    fn aes_encrypt(&self, key: &[u8; 32], nonce: &[u8; 12], cleartext: &str) -> (r: Result<
        Vec<u8>,
        EncryptError,
    >)
        ensures
            match r {
                Ok(digest) => {
                    &&& self.sealable(cleartext@)
                    &&& self.seals(key@, nonce@, cleartext@, digest@)
                    &&& digest@.len() == encode_utf8(cleartext@).len() + TAG_LEN
                    &&& self.opened(key@, nonce@, digest@) == Some(cleartext@)
                    &&& fits_in_memory(digest@.len())
                },
                Err(e) => !self.sealable(cleartext@) && e == EncryptError::EntryTooLong,
            },
    {
        let plaintext = cleartext.as_bytes();
        if plaintext.len() > isize::MAX as usize - TAG_LEN || plaintext.len() as u64
            > MAX_PLAINTEXT {
            return Err(EncryptError::EntryTooLong);
        }
        proof {
            vstd::utf8::encode_utf8_valid_utf8(cleartext@);
            vstd::utf8::encode_utf8_decode_utf8(cleartext@);
        }
        match aes_seal(key, nonce, plaintext) {
            Ok(digest) => Ok(digest),
            Err(_) => Err(EncryptError::EntryTooLong),
        }
    }

    /// Decrypts a digest under a key and a nonce.
    fn aes_decrypt(&self, key: &[u8; 32], nonce: &[u8; 12], ciphertext: &[u8]) -> (r: Result<
        String,
        DecryptError,
    >)
        ensures
            match self.opened(key@, nonce@, ciphertext@) {
                Some(text) => r is Ok && r->Ok_0@ == text,
                None => r == Err::<String, DecryptError>(DecryptError::CorruptEntry),
            },
    {
        text_outcome(aes_open(key, nonce, ciphertext))
    }
}

impl Encryptor for Secure {
    open spec fn always_hashes(&self) -> bool {
        false
    }

    open spec fn accepts(&self, hashed: Seq<char>, entered: Seq<char>) -> bool {
        bcrypt_verdict(entered, hashed) == Some(true)
    }

    open spec fn makes_salt(&self, salt: Seq<u8>) -> bool {
        salt.len() == 32
    }

    open spec fn derived_key(&self, password: Seq<char>, salt: Seq<u8>) -> Seq<u8> {
        pbkdf2_hmac_sha256(encode_utf8(password), salt, KDF_ROUNDS)
    }

    open spec fn sealable(&self, text: Seq<char>) -> bool {
        encode_utf8(text).len() <= MAX_PLAINTEXT && fits_in_memory(
            encode_utf8(text).len() + TAG_LEN as nat,
        )
    }

    open spec fn seals(&self, key: Seq<u8>, nonce: Seq<u8>, text: Seq<char>, digest: Seq<u8>) -> bool {
        digest == aes_gcm_siv_sealed(key, nonce, encode_utf8(text))
    }

    open spec fn opened(&self, key: Seq<u8>, nonce: Seq<u8>, digest: Seq<u8>) -> Option<Seq<char>> {
        match aes_gcm_siv_opened(key, nonce, digest) {
            Some(plaintext) => text_of(plaintext),
            None => None,
        }
    }

    fn hash_password(&self, password: &str) -> (r: Result<String, EncryptError>)
        ensures
            r matches Ok(hash) ==> carries_cost(hash@, HASH_COST),
    {
        hash_outcome(bcrypt_hash(password, HASH_COST))
    }

    fn verify_password(&self, hashed_password: &str, entered_password: &str) -> (b: bool) {
        verify_outcome(bcrypt_verify(entered_password, hashed_password))
    }

    fn encrypt_journal_entry(&self, key: [u8; 32], entry: &str, date: &Date) -> (r: Result<
        EncryptedEntry,
        EncryptError,
    >)
        ensures
            r matches Ok(sealed) ==> sealed.digest@.len() == encode_utf8(entry@).len() + TAG_LEN,
    {
        self.seal_entry(key, random_bytes::<12>(), entry, date)
    }

    fn decrypt_journal_entry(&self, key: [u8; 32], entry: &EncryptedEntry) -> (r: Result<
        (Date, String),
        DecryptError,
    >) {
        match self.aes_decrypt(&key, &entry.nonce, entry.digest.as_slice()) {
            Ok(cleartext) => Ok((entry.date, cleartext)),
            Err(e) => Err(e),
        }
    }

    fn make_kdf_salt(&self) -> (salt: [u8; 32]) {
        random_bytes::<32>()
    }

    fn gen_key(&self, password: &str, kdf_salt: [u8; 32]) -> (key: [u8; 32]) {
        pbkdf2_sha256(password.as_bytes(), kdf_salt.as_slice(), KDF_ROUNDS)
    }
}

/// Decrypting an encryption of a journal with the journal's own password
/// gives the journal back: the same password and, for every date, the same
/// text. This holds of every variant.
pub proof fn lemma_decrypt_inverts_encrypt<E: Encryptor>(
    e: &E,
    encrypted: EncryptedJournalView,
    journal: StateView,
)
    requires
        is_encryption_of(e, encrypted, journal),
    ensures
        decryption(e, encrypted, journal.password) == Ok::<StateView, DecryptError>(journal),
{
    let key = e.derived_key(journal.password, encrypted.kdf_salt);
    let sealed = encrypted.entries;
    let found = opened_entries(e, key, sealed);
    assert forall|date: Date| found.contains_key(date) implies found[date]
        == journal.entries[date] by {
        let k = index_of(sealed, date);
        assert(sealed[k].date == date);
    }
    assert forall|date: Date| found.contains_key(date) == journal.entries.contains_key(date) by {
        assert(journal.entries.contains_key(date) <==> dated_at(sealed, date));
    }
    assert(found =~= journal.entries);
}

/// Decrypting with a password that does not verify against the stored hash
/// fails with `IncorrectPassword`, whatever the entries hold.
pub proof fn lemma_unverified_password_rejected<E: Encryptor>(
    e: &E,
    encrypted: EncryptedJournalView,
    password: Seq<char>,
)
    requires
        !e.accepts(encrypted.password_hash, password),
    ensures
        decryption(e, encrypted, password) == Err::<StateView, DecryptError>(
            DecryptError::IncorrectPassword,
        ),
{
}

/// Without protection, every password but the journal's own is rejected.
pub proof fn lemma_zero_security_rejects_other_passwords(
    encrypted: EncryptedJournalView,
    journal: StateView,
    password: Seq<char>,
)
    requires
        is_encryption_of(&ZeroSecurity, encrypted, journal),
        password != journal.password,
    ensures
        decryption(&ZeroSecurity, encrypted, password) == Err::<StateView, DecryptError>(
            DecryptError::IncorrectPassword,
        ),
{
}

/// Without protection, encryption changes nothing: the hash is the
/// password, the salt and every nonce are zeros, every digest is the bytes
/// of its entry's text, and decrypting gives the journal back.
pub proof fn lemma_zero_security_is_transparent(
    encrypted: EncryptedJournalView,
    journal: StateView,
)
    requires
        is_encryption_of(&ZeroSecurity, encrypted, journal),
    ensures
        encrypted.password_hash == journal.password,
        encrypted.kdf_salt == zeros(32),
        forall|date: Date| #[trigger]
            journal.entries.contains_key(date) <==> dated_at(encrypted.entries, date),
        forall|i: int|
            0 <= i < encrypted.entries.len() ==> {
                let s = #[trigger] encrypted.entries[i];
                s.nonce == zeros(12) && s.digest == encode_utf8(journal.entries[s.date])
            },
        decryption(&ZeroSecurity, encrypted, journal.password) == Ok::<StateView, DecryptError>(
            journal,
        ),
{
    lemma_decrypt_inverts_encrypt(&ZeroSecurity, encrypted, journal);
}

} // verus!
