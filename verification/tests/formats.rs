use wasmtime_wasi_keyvalue_redb::counter::{advance, parse_numeral, to_decimal};
use wasmtime_wasi_keyvalue_redb::error::{BuilderError, Error};
use wasmtime_wasi_keyvalue_redb::keys::{bucket_prefix, bucket_range_end, encode_key};

#[test]
fn names_are_encoded() {
    assert_eq!(encode_key("logs", "k"), "logs\0k");
    assert_eq!(encode_key("", ""), "\0");
    assert_eq!(encode_key("é", "\0"), "é\0\0");
    assert_eq!(bucket_prefix("cache"), "cache\0");
    assert_eq!(bucket_range_end("cache"), "cache\x01");
}

#[test]
fn names_of_a_bucket_lie_in_its_range() {
    for key in ["", "a", "\0", "\u{10ffff}"] {
        let name = encode_key("b", key);
        assert!(bucket_prefix("b") <= name);
        assert!(name < bucket_range_end("b"));
    }
    for other in ["b", "b\x01", "ba\0x", "a\0x", "c\0x"] {
        let inside = bucket_prefix("b").as_str() <= other && other < bucket_range_end("b").as_str();
        assert!(!inside);
    }
}

#[test]
fn numerals_are_read_as_the_standard_library_reads_them() {
    for text in [
        "", "+", "-", "0", "7", "007", "+7", "++7", "-0", "-7", " 7", "7 ", "1_000", "0x10",
        "18446744073709551615", "18446744073709551616", "99999999999999999999",
        "000000000000000000000000000001", "+18446744073709551615", "٣",
    ] {
        assert_eq!(parse_numeral(text.as_bytes()), text.parse::<u64>().ok());
    }
    assert_eq!(parse_numeral(&[0xff]), None);
}

#[test]
fn decimals_are_written_as_the_standard_library_writes_them() {
    for n in [0u64, 9, 10, 11, 99, 100, 4096, u64::MAX - 1, u64::MAX] {
        assert_eq!(to_decimal(n), n.to_string().into_bytes());
        assert_eq!(parse_numeral(&to_decimal(n)), Some(n));
    }
}

#[test]
fn counters_advance() {
    assert_eq!(advance(None, 5), 5);
    assert_eq!(advance(Some(b"37".as_slice()), 5), 42);
    assert_eq!(advance(Some(b"x".as_slice()), 5), 5);
    assert_eq!(advance(Some(b"18446744073709551614".as_slice()), 5), u64::MAX);
}

#[test]
fn errors_carry_the_words_of_the_failure() {
    let error = Error::from(redb::StorageError::ValueTooLarge(5));
    assert!(matches!(error, Error::Other(s) if s == redb::StorageError::ValueTooLarge(5).to_string()));
    let error = Error::from(redb::CommitError::TransactionPoisoned);
    assert!(matches!(error, Error::Other(s) if s == redb::CommitError::TransactionPoisoned.to_string()));
    let error = Error::from(redb::TableError::TableDoesNotExist("t".to_string()));
    assert!(matches!(error, Error::Other(s) if s == "Table 't' does not exist"));
    let error = Error::from(redb::Error::PreviousIo);
    assert!(matches!(error, Error::Other(s) if s == redb::Error::PreviousIo.to_string()));
    let error = Error::from(redb::TransactionError::Storage(redb::StorageError::DatabaseClosed));
    assert!(matches!(error, Error::Other(s) if s == "Database has been closed"));
}

#[test]
fn builder_errors_keep_the_failure_and_its_words() {
    let error = BuilderError::Transaction(redb::TransactionError::Storage(redb::StorageError::DatabaseClosed));
    assert_eq!(error.message(), "Database has been closed");
    let error = BuilderError::Table(redb::TableError::TableDoesNotExist("t".to_string()));
    assert_eq!(error.message(), "Table 't' does not exist");
    let error = BuilderError::Commit(redb::CommitError::TransactionPoisoned);
    assert_eq!(error.message(), redb::CommitError::TransactionPoisoned.to_string());
}
