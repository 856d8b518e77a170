use std::collections::HashSet;

use pinst::harness::id::{civil_from_days, letters_from, mint, stamp_from_days, stamp_from_iso, LETTERS};

fn well_formed(id: &str) -> bool {
    let Some((date, hash)) = id.split_once('-') else {
        return false;
    };
    date.len() == 6
        && date.chars().all(|c| c.is_ascii_digit())
        && hash.len() == LETTERS
        && hash.chars().all(|c| c.is_ascii_lowercase())
}

/// Six letters drawn from a block of bytes the way random bytes are drawn.
fn drawn(block: &[u8]) -> String {
    letters_from("", block, LETTERS)
}

#[test]
fn civil_from_days_matches_known_dates() {
    assert_eq!(civil_from_days(0), (1970, 1, 1));
    assert_eq!(civil_from_days(-1), (1969, 12, 31));
    assert_eq!(civil_from_days(11_016), (2000, 2, 29));
    assert_eq!(civil_from_days(19_723), (2024, 1, 1));
    assert_eq!(civil_from_days(20_716), (2026, 9, 20));
}

#[test]
fn an_iso_date_becomes_the_yymmdd_half() {
    assert_eq!(stamp_from_iso("2026-09-19").unwrap(), "260919");
    assert_eq!(stamp_from_iso("2026-01-01").unwrap(), "260101");
    assert!(mint(Some("2026-09-19"), 0, "qwerty").unwrap().starts_with("260919-"));
    assert!(mint(Some("2026-01-01"), 0, "qwerty").unwrap().starts_with("260101-"));
}

#[test]
fn a_malformed_date_is_an_error_rather_than_a_guess() {
    for bad in ["19-09-2026", "2026-9-19", "not-a-date", "20260919"] {
        let err = stamp_from_iso(bad).unwrap_err();
        assert_eq!(err, format!("expected a date as YYYY-MM-DD, got '{bad}'"));
        assert!(mint(Some(bad), 0, "qwerty").is_err(), "{bad} should be rejected");
    }
}

#[test]
fn string_order_is_date_order() {
    let mut ids = [
        mint(Some("2026-10-01"), 0, "qwerty").unwrap(),
        mint(Some("2026-09-18"), 0, "qwerty").unwrap(),
    ];
    ids.sort();
    assert!(ids[0].starts_with("260918-"), "{ids:?}");
}

#[test]
fn a_day_count_stamps_as_yymmdd() {
    assert_eq!(stamp_from_days(20_716), "260920");
    assert_eq!(stamp_from_days(0), "700101");
    assert_eq!(stamp_from_days(-1), "691231");
}

#[test]
fn mints_a_well_formed_id() {
    let letters = drawn(&[0x00, b'q', 0xff, b'W', b'w', b'e', b'7', b'r', b't', b'y', b'z']);
    assert_eq!(letters, "qwerty");
    let id = mint(None, 20_716, &letters).unwrap();
    assert_eq!(id, "260920-qwerty");
    assert!(well_formed(&id), "{id}");
}

#[test]
fn a_hundred_ids_are_all_distinct() {
    let ids: HashSet<String> = (0u32..100)
        .map(|i| {
            let block: Vec<u8> = (0u32..6).map(|k| b'a' + ((i / 26u32.pow(k)) % 26) as u8).collect();
            mint(None, 20_716, &drawn(&block)).unwrap()
        })
        .collect();
    assert_eq!(ids.len(), 100);
}

#[test]
fn drawing_stops_at_the_wanted_count_and_tops_up_across_blocks() {
    assert_eq!(letters_from("", b"ab", 6), "ab");
    assert_eq!(letters_from("ab", b"C-cdefgh", 6), "abcdef");
    assert_eq!(letters_from("abcdef", b"xyz", 6), "abcdef");
}
