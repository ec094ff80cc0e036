use onyx::bytes::{copy_range, push_be32, read_be32};
use onyx::channel::Record;
use onyx::clock::{now_unix_ms, now_unix_ms_i64, reading_of, signed_stamp_of, stamp_of, Clock};
use onyx::codec::{
    decode_b32_32, decode_b32_32_exact, short_id_of, short_id_of_group, short_id_of_peer_pub,
    KeyTextError,
};
use onyx::list_map::{same_bytes, ListMap};
use onyx::text::{
    blank, decimal_text, find_first, find_last, fold, has_prefix, join3, read_port, same_text,
    split_nonempty, take_chars,
};

const KEY: &str = "aebagbafaydqqcikbmga2dqpcaireeyuculbogazdinryhi6d4qa";

fn key() -> [u8; 32] {
    let mut k = [0u8; 32];
    for (i, b) in k.iter_mut().enumerate() {
        *b = i as u8 + 1;
    }
    k
}

#[test]
fn keys_are_read_as_base32() {
    assert_eq!(decode_b32_32_exact(KEY), Ok(key()));
    assert_eq!(decode_b32_32(&KEY.to_uppercase()), Ok(key()));
    assert_eq!(decode_b32_32(" AEBA gbaf\naydqqcikbmga2dqpcaireeyuculbogazdinryhi6d4qa"), Ok(key()));
    assert_eq!(decode_b32_32_exact(&KEY.to_uppercase()), Err(KeyTextError::NotBase32));
    assert_eq!(decode_b32_32("aeba1"), Err(KeyTextError::NotBase32));
    assert_eq!(decode_b32_32("aebagbaf"), Err(KeyTextError::WrongLength(5)));
    assert_eq!(decode_b32_32(""), Err(KeyTextError::WrongLength(0)));
}

#[test]
fn key_errors_say_what_is_wrong() {
    assert_eq!(KeyTextError::NotBase32.message(), "not valid base32");
    assert_eq!(
        KeyTextError::WrongLength(5).message(),
        "expected 32 bytes, got 5"
    );
}

#[test]
fn labels_are_eight_characters() {
    assert_eq!(short_id_of(KEY), "aebagbaf");
    assert_eq!(short_id_of("abc"), "abc");
    assert_eq!(short_id_of_peer_pub(&key()), "aebagbaf");
    assert_eq!(short_id_of_group(&[0xff, 0x00]), "74aa");
}

#[test]
fn numbers_are_big_endian() {
    let mut v = vec![9];
    push_be32(&mut v, 0x0102_0304);
    assert_eq!(v, [9, 1, 2, 3, 4]);
    assert_eq!(read_be32(&v, 1), 0x0102_0304);
    assert_eq!(copy_range(&v, 1, 3), [1, 2]);
}

#[test]
fn texts_are_taken_apart() {
    assert_eq!(split_nonempty("a,,b,", ','), vec!["a", "b"]);
    assert!(split_nonempty("", ',').is_empty());
    assert_eq!(take_chars("héllo", 2), "hé");
    assert!(has_prefix("abc", "ab") && !has_prefix("ab", "abc"));
    assert!(same_text("é", "é") && !same_text("e", "é"));
    assert_eq!(join3("a", "b", "c"), "abc");
    let v: Vec<char> = "a:b:c".chars().collect();
    assert_eq!((find_first(&v, ':'), find_last(&v, ':')), (Some(1), Some(3)));
    assert_eq!(find_first(&v, 'x'), None);
}

#[test]
fn white_space_and_capitals() {
    assert!(blank(" \t\u{a0}\u{2003}\n"));
    assert!(blank(""));
    assert!(!blank(" x "));
    assert_eq!(fold(" A\u{130} b "), "ai\u{307}b");
}

#[test]
fn ports_and_numbers() {
    let port = |s: &str| read_port(&s.chars().collect::<Vec<_>>());
    assert_eq!(port("0"), Some(0));
    assert_eq!(port("+80"), Some(80));
    assert_eq!(port("065535"), Some(65535));
    assert_eq!(port("65536"), None);
    assert_eq!(port(""), None);
    assert_eq!(port("+"), None);
    assert_eq!(port("-1"), None);
    assert_eq!(decimal_text(0), "0");
    assert_eq!(decimal_text(u64::MAX), "18446744073709551615");
}

#[test]
fn a_map_holds_the_latest_value_of_a_key() {
    let mut m: ListMap<Vec<u8>, u32> = ListMap::new();
    m.insert(vec![1], 10);
    m.insert(vec![2], 20);
    m.insert(vec![1], 11);
    assert_eq!(m.len(), 2);
    assert_eq!(m.get(&vec![1]), Some(&11));
    assert_eq!(m.remove(&vec![1]), Some(11));
    assert_eq!(m.remove(&vec![1]), None);
    assert!(m.contains(&vec![2]) && !m.contains(&vec![1]));
    assert!(same_bytes(&[1, 2], &[1, 2]) && !same_bytes(&[1], &[1, 2]));
}

#[test]
fn clocks() {
    assert_eq!(stamp_of(Some(5)), 5);
    assert_eq!(stamp_of(Some(u128::MAX)), u64::MAX);
    assert_eq!(stamp_of(None), 0);
    assert_eq!(signed_stamp_of(Some(5)), 5);
    assert_eq!(signed_stamp_of(Some(u64::MAX as u128)), 0);
    assert_eq!(signed_stamp_of(None), 0);
    let mut read = Record::new();
    let a = now_unix_ms(&mut read);
    let b = now_unix_ms_i64(&mut read);
    assert!(a > 1_600_000_000_000 && a < 100_000_000_000_000);
    assert!(b > 1_600_000_000_000 && b < 100_000_000_000_000);
    let mut c = Clock::start();
    let a = c.nanos();
    let t = std::time::Instant::now();
    while t.elapsed() < std::time::Duration::from_millis(3) {}
    let b = c.nanos();
    assert!(b - a >= 3_000_000);
}

#[test]
fn a_wall_clock_reading_is_in_whole_milliseconds() {
    assert_eq!(reading_of(Ok(0)), Some(0));
    assert_eq!(reading_of(Ok(999_999)), Some(0));
    assert_eq!(reading_of(Ok(1_700_000_000_123_999_999)), Some(1_700_000_000_123));
    let epoch = std::time::UNIX_EPOCH;
    let early = epoch.duration_since(epoch + std::time::Duration::from_secs(1));
    assert_eq!(reading_of(early.map(|d| d.as_nanos())), None);
}
