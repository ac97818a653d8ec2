use jrn::codec::FromBase64Error::{InvalidLength, NotValidBase64};
use jrn::date::Date;
use jrn::db::{EncryptedJournal, LoadError, ReadError, State, StoredJournal};
use jrn::encryptor::{JournalEncryptor, Secure, ZeroSecurity};

fn day(year: i32, month: u8, day: u8) -> Date {
    Date { year, month, day }
}

#[test]
fn zero_security_round_trip_keeps_every_entry() {
    let mut state = State::new();
    state.change_password("abc");
    state.set_entry(&day(2024, 1, 1), "hello");
    state.set_entry(&day(2024, 1, 2), "world");
    let encrypted = ZeroSecurity.encrypt_journal(&state).unwrap();
    assert_eq!(encrypted.password_hash, "abc");
    assert_eq!(encrypted.kdf_salt, [0u8; 32]);
    assert_eq!(encrypted.entries.len(), 2);
    let first = encrypted.entries.get(&day(2024, 1, 1)).unwrap();
    assert_eq!(first.nonce, [0u8; 12]);
    assert_eq!(first.digest, b"hello".to_vec());
    let back = ZeroSecurity.decrypt_journal(&encrypted, "abc").unwrap();
    assert_eq!(back.password, "abc");
    assert_eq!(back.get_entry(&day(2024, 1, 1)), Some("hello".to_string()));
    assert_eq!(back.get_entry(&day(2024, 1, 2)), Some("world".to_string()));
    assert_eq!(back.entries.len(), 2);
}

#[test]
fn stored_form_decodes_to_the_same_journal() {
    let mut state = State::new();
    state.change_password("abc");
    state.set_entry(&day(2024, 1, 1), "hello");
    let encrypted = ZeroSecurity.encrypt_journal(&state).unwrap();
    let stored = StoredJournal::from(encrypted);
    assert_eq!(stored.kdf_salt, "AAAAAAAAAAAAAAAAAAAAAAAAAAAAAAAAAAAAAAAAAAA=");
    let entry = stored.entries.get(&day(2024, 1, 1)).unwrap();
    assert_eq!(entry.nonce, "AAAAAAAAAAAAAAAA");
    assert_eq!(entry.digest, "aGVsbG8=");
    let back = EncryptedJournal::try_from(stored).unwrap();
    assert_eq!(back.password_hash, "abc");
    assert_eq!(back.kdf_salt, [0u8; 32]);
    assert_eq!(back.entries.get(&day(2024, 1, 1)).unwrap().digest, b"hello".to_vec());
}

#[test]
fn secure_save_then_load_with_right_and_wrong_password() {
    let mut state = State::new();
    state.change_password("abc");
    state.set_entry(&day(2024, 1, 1), "hello");
    let stored = state.save(&Secure).unwrap();
    assert_ne!(stored.entries.get(&day(2024, 1, 1)).unwrap().digest, "aGVsbG8=");

    let mut wrong = State::new();
    let stored_again = state.save(&Secure).unwrap();
    assert_eq!(
        wrong.load(Ok(stored_again), "wrong", &Secure),
        Err(LoadError::IncorrectPassword)
    );
    assert_eq!(wrong.entries.len(), 0);

    let mut loaded = State::new();
    assert_eq!(loaded.load(Ok(stored), "abc", &Secure), Ok(()));
    assert_eq!(loaded.password, "abc");
    assert_eq!(loaded.get_entry(&day(2024, 1, 1)), Some("hello".to_string()));
    assert_eq!(loaded.entries.len(), 1);
}

#[test]
fn missing_file_is_an_access_error() {
    let mut state = State::new();
    state.set_entry(&day(2024, 1, 1), "kept");
    assert_eq!(
        state.load(Err(ReadError::NotAccessible), "abc", &Secure),
        Err(LoadError::NotAccessible)
    );
    assert_eq!(state.get_entry(&day(2024, 1, 1)), Some("kept".to_string()));
}

fn copy_of(stored: &StoredJournal) -> StoredJournal {
    stored.clone()
}

fn stored_with(salt: &str, nonce: &str, digest: &str) -> StoredJournal {
    let mut entries = jrn::entries::EntrySet::new();
    entries.insert(jrn::db::StoredEntry {
        date: day(2024, 1, 1),
        nonce: nonce.to_string(),
        digest: digest.to_string(),
    });
    StoredJournal { password_hash: "abc".to_string(), kdf_salt: salt.to_string(), entries }
}

const SALT: &str = "AAAAAAAAAAAAAAAAAAAAAAAAAAAAAAAAAAAAAAAAAAA=";
const SHORT_SALT: &str = "AAAAAAAAAAAAAAAAAAAAAAAAAAAAAAAAAAAAAAAAAA==";
const NONCE: &str = "AAAAAAAAAAAAAAAA";

#[test]
fn end_to_end_save_reload_wrong_password_retry() {
    let mut state = State::new();
    state.change_password("abc");
    state.set_entry(&day(2024, 1, 1), "hello");
    let stored = state.save(&Secure).unwrap();

    let mut session = State::new();
    assert_eq!(session.load(Ok(copy_of(&stored)), "abc", &Secure), Ok(()));
    assert_eq!(session.entries.len(), 1);
    assert_eq!(session.get_entry(&day(2024, 1, 1)), Some("hello".to_string()));

    let mut retry = State::new();
    assert_eq!(
        retry.load(Ok(copy_of(&stored)), "wrong", &Secure),
        Err(LoadError::IncorrectPassword)
    );
    assert_eq!(retry.entries.len(), 0);
    assert_eq!(retry.password, "");
    assert_eq!(retry.load(Ok(copy_of(&stored)), "abc", &Secure), Ok(()));
    assert_eq!(retry.password, "abc");
    assert_eq!(retry.entries.len(), 1);
    assert_eq!(retry.get_entry(&day(2024, 1, 1)), Some("hello".to_string()));
}

#[test]
fn every_save_encrypts_afresh() {
    let mut state = State::new();
    state.change_password("abc");
    state.set_entry(&day(2024, 1, 1), "hello");
    let first = state.save(&Secure).unwrap();
    let second = state.save(&Secure).unwrap();
    assert_ne!(first.password_hash, second.password_hash);
    assert_ne!(first.kdf_salt, second.kdf_salt);
    let a = first.entries.get(&day(2024, 1, 1)).unwrap();
    let b = second.entries.get(&day(2024, 1, 1)).unwrap();
    assert_ne!(a.nonce, b.nonce);
    assert_ne!(a.digest, b.digest);
}

#[test]
fn new_password_takes_effect_with_the_next_save() {
    let mut state = State::new();
    state.change_password("old");
    state.set_entry(&day(2024, 1, 1), "hello");
    let before = state.save(&ZeroSecurity).unwrap();
    state.change_password("new");
    assert_eq!(before.password_hash, "old");
    let after = state.save(&ZeroSecurity).unwrap();
    assert_eq!(after.password_hash, "new");
    let mut loaded = State::new();
    assert_eq!(
        loaded.load(Ok(copy_of(&after)), "old", &ZeroSecurity),
        Err(LoadError::IncorrectPassword)
    );
    assert_eq!(loaded.load(Ok(after), "new", &ZeroSecurity), Ok(()));
}

#[test]
fn load_replaces_the_journal_as_a_whole() {
    let mut saved = State::new();
    saved.change_password("abc");
    saved.set_entry(&day(2024, 1, 1), "hello");
    let stored = saved.save(&ZeroSecurity).unwrap();

    let mut state = State::new();
    state.change_password("other");
    state.set_entry(&day(2020, 2, 2), "gone");
    assert_eq!(state.load(Ok(stored), "abc", &ZeroSecurity), Ok(()));
    assert_eq!(state.password, "abc");
    assert_eq!(state.entries.len(), 1);
    assert_eq!(state.get_entry(&day(2020, 2, 2)), None);
    assert_eq!(state.get_entry(&day(2024, 1, 1)), Some("hello".to_string()));
}

#[test]
fn failed_load_leaves_the_journal_untouched() {
    let mut state = State::new();
    state.change_password("mine");
    state.set_entry(&day(2020, 2, 2), "kept");
    let failures = [
        (Err(ReadError::NotAccessible), LoadError::NotAccessible),
        (Err(ReadError::ParseError), LoadError::ParseError),
        (
            Ok(stored_with(SHORT_SALT, NONCE, "aGVsbG8=")),
            LoadError::FromBase64Error(jrn::codec::FromBase64Error::InvalidLength),
        ),
        (Ok(stored_with(SALT, NONCE, "aGVsbG8=")), LoadError::IncorrectPassword),
    ];
    for (document, expected) in failures {
        assert_eq!(state.load(document, "wrong", &ZeroSecurity), Err(expected));
        assert_eq!(state.password, "mine");
        assert_eq!(state.entries.len(), 1);
        assert_eq!(state.get_entry(&day(2020, 2, 2)), Some("kept".to_string()));
    }
    assert_eq!(
        state.load(Ok(stored_with(SALT, NONCE, "//8=")), "abc", &ZeroSecurity),
        Err(LoadError::CorruptEntry)
    );
    assert_eq!(state.password, "mine");
    assert_eq!(state.get_entry(&day(2020, 2, 2)), Some("kept".to_string()));
}

#[test]
fn document_that_does_not_parse_is_a_parse_error() {
    let mut state = State::new();
    assert_eq!(
        state.load(Err(ReadError::ParseError), "abc", &Secure),
        Err(LoadError::ParseError)
    );
}

#[test]
fn truncated_salt_in_a_stored_journal_is_an_invalid_length() {
    let stored = stored_with(SHORT_SALT, NONCE, "aGVsbG8=");
    assert_eq!(
        EncryptedJournal::try_from(stored).map(|j| j.kdf_salt),
        Err(jrn::codec::FromBase64Error::InvalidLength)
    );
}

#[test]
fn stored_journal_is_decoded_field_by_field() {
    let bad = |salt, nonce, digest| {
        EncryptedJournal::try_from(stored_with(salt, nonce, digest)).map(|j| j.entries.len())
    };
    assert_eq!(bad(SALT, NONCE, "aGVsbG8="), Ok(1));
    assert_eq!(bad(SALT, NONCE, ""), Ok(1));
    assert_eq!(bad("?", NONCE, "aGVsbG8="), Err(NotValidBase64));
    assert_eq!(bad("", NONCE, "aGVsbG8="), Err(InvalidLength));
    assert_eq!(bad(SALT, "AAAA", "aGVsbG8="), Err(InvalidLength));
    assert_eq!(bad(SALT, "AAAAAAAAAAAAAAAAAAAA", "aGVsbG8="), Err(InvalidLength));
    assert_eq!(bad(SALT, "?", "aGVsbG8="), Err(NotValidBase64));
    assert_eq!(bad(SALT, NONCE, "aGVsbG8"), Err(NotValidBase64));
    assert_eq!(bad(SHORT_SALT, "?", "?"), Err(InvalidLength));
    assert_eq!(bad(SALT, "AAAA", "?"), Err(InvalidLength));
}

#[test]
fn first_entry_that_does_not_decode_decides_the_error() {
    let entry = |d, nonce: &str, digest: &str| jrn::db::StoredEntry {
        date: day(2024, 1, d),
        nonce: nonce.to_string(),
        digest: digest.to_string(),
    };
    let journal = |items: Vec<jrn::db::StoredEntry>| {
        let mut entries = jrn::entries::EntrySet::new();
        for item in items {
            entries.insert(item);
        }
        StoredJournal { password_hash: String::new(), kdf_salt: SALT.to_string(), entries }
    };
    let one = journal(vec![entry(1, NONCE, ""), entry(2, "AAAA", ""), entry(3, NONCE, "?")]);
    assert_eq!(EncryptedJournal::try_from(one).map(|j| j.entries.len()), Err(InvalidLength));
    let two = journal(vec![entry(1, NONCE, "?"), entry(2, "AAAA", "")]);
    assert_eq!(EncryptedJournal::try_from(two).map(|j| j.entries.len()), Err(NotValidBase64));
    let fine = journal(vec![entry(1, NONCE, ""), entry(2, NONCE, "AA==")]);
    let decoded = EncryptedJournal::try_from(fine).unwrap();
    assert_eq!(decoded.entries.len(), 2);
    assert_eq!(decoded.entries.at(0).date, day(2024, 1, 1));
    assert_eq!(decoded.entries.at(1).date, day(2024, 1, 2));
    assert_eq!(decoded.entries.at(1).digest, vec![0u8]);
}

#[test]
fn entry_is_encoded_and_decoded() {
    let entry = jrn::db::EncryptedEntry {
        date: day(2024, 1, 1),
        nonce: [1, 2, 3, 4, 5, 6, 7, 8, 9, 10, 11, 12],
        digest: vec![0xfb, 0xff, 0x00],
    };
    let stored = jrn::db::StoredEntry::from(entry.clone());
    assert_eq!(stored.date, day(2024, 1, 1));
    assert_eq!(stored.nonce, "AQIDBAUGBwgJCgsM");
    assert_eq!(stored.digest, "+/8A");
    let back = jrn::db::EncryptedEntry::try_from(stored).unwrap();
    assert_eq!(back.date, entry.date);
    assert_eq!(back.nonce, entry.nonce);
    assert_eq!(back.digest, entry.digest);
}

#[test]
fn secure_journal_survives_the_stored_form_byte_for_byte() {
    let mut state = State::new();
    state.change_password("abc");
    state.set_entry(&day(2024, 1, 1), "hello");
    state.set_entry(&day(2024, 1, 2), "");
    let encrypted = Secure.encrypt_journal(&state).unwrap();
    let hash = encrypted.password_hash.clone();
    let salt = encrypted.kdf_salt;
    let first = encrypted.entries.at(0).clone();
    let second = encrypted.entries.at(1).clone();
    let back = EncryptedJournal::try_from(StoredJournal::from(encrypted)).unwrap();
    assert_eq!(back.password_hash, hash);
    assert_eq!(back.kdf_salt, salt);
    assert_eq!(back.entries.len(), 2);
    for (i, entry) in [first, second].iter().enumerate() {
        assert_eq!(back.entries.at(i).date, entry.date);
        assert_eq!(back.entries.at(i).nonce, entry.nonce);
        assert_eq!(back.entries.at(i).digest, entry.digest);
    }
}

#[test]
fn entries_are_read_and_written_by_date() {
    let mut state = State::new();
    assert_eq!(state.get_entry(&day(2024, 1, 1)), None);
    state.set_entry(&day(2024, 1, 1), "first");
    state.set_entry(&day(2024, 1, 2), "other");
    assert_eq!(state.get_entry(&day(2024, 1, 1)), Some("first".to_string()));
    state.set_entry(&day(2024, 1, 1), "second");
    assert_eq!(state.get_entry(&day(2024, 1, 1)), Some("second".to_string()));
    assert_eq!(state.get_entry(&day(2024, 1, 2)), Some("other".to_string()));
    assert_eq!(state.get_entry(&day(2024, 1, 3)), None);
    assert_eq!(state.entries.len(), 2);
}

#[test]
fn todays_entry_is_kept_under_todays_date() {
    let mut state = State::new();
    assert_eq!(state.get_today(), None);
    let before = Date::today();
    state.set_today("now");
    let after = Date::today();
    assert_eq!(state.get_today(), Some("now".to_string()));
    assert_eq!(state.entries.len(), 1);
    let date = state.entries.at(0).date;
    assert!(date == before || date == after);
}

#[test]
fn new_journal_is_empty() {
    let state = State::new();
    assert_eq!(state.password, "");
    assert_eq!(state.entries.len(), 0);
    let default = State::default();
    assert_eq!(default.password, "");
    assert_eq!(default.entries.len(), 0);
}

#[test]
fn changing_the_password_keeps_the_entries() {
    let mut state = State::new();
    state.set_entry(&day(2024, 1, 1), "hello");
    state.change_password("new");
    assert_eq!(state.password, "new");
    assert_eq!(state.get_entry(&day(2024, 1, 1)), Some("hello".to_string()));
}

#[test]
fn copy_of_a_journal_holds_the_same() {
    let mut state = State::new();
    state.change_password("abc");
    state.set_entry(&day(2024, 1, 2), "b");
    state.set_entry(&day(2024, 1, 1), "a");
    let mut copy = state.clone();
    assert_eq!(copy.password, "abc");
    assert_eq!(copy.entries.len(), 2);
    assert_eq!(copy.entries.at(0).date, day(2024, 1, 2));
    assert_eq!(copy.get_entry(&day(2024, 1, 1)), Some("a".to_string()));
    copy.set_entry(&day(2024, 1, 1), "changed");
    assert_eq!(state.get_entry(&day(2024, 1, 1)), Some("a".to_string()));
}
