//! The listing data model: humanised size tokens, size estimates and units.

use tsumugu::{FileSize, FileType, ListItem, NaiveDateTime, SizeUnit};

#[test]
fn humanized_tokens_are_read_in_thousandths() {
    assert_eq!(FileSize::get_humanized("262.1K"), Some((262100, SizeUnit::K)));
    assert_eq!(FileSize::get_humanized("3.0 K"), Some((3000, SizeUnit::K)));
    assert_eq!(FileSize::get_humanized("2.5M"), Some((2500, SizeUnit::M)));
    assert_eq!(FileSize::get_humanized("7"), Some((7000, SizeUnit::B)));
    assert_eq!(FileSize::get_humanized("1g"), Some((1000, SizeUnit::G)));
    assert_eq!(FileSize::get_humanized("4T"), Some((4000, SizeUnit::T)));
    assert_eq!(FileSize::get_humanized("5P"), Some((5000, SizeUnit::P)));
    assert_eq!(FileSize::get_humanized("12b"), Some((12000, SizeUnit::B)));
    // digits past the third decimal are dropped
    assert_eq!(FileSize::get_humanized("1.2345K"), Some((1234, SizeUnit::K)));
}

#[test]
fn unusable_tokens_are_refused() {
    assert_eq!(FileSize::get_humanized(""), None);
    assert_eq!(FileSize::get_humanized("-"), None);
    assert_eq!(FileSize::get_humanized("1.2.3K"), None);
    assert_eq!(FileSize::get_humanized("10Q"), None);
    assert_eq!(FileSize::get_humanized("KiB"), None);
}

#[test]
fn estimates_scale_by_the_unit() {
    assert_eq!(FileSize::Precise(12345).get_estimated(), 12345);
    assert_eq!(FileSize::HumanizedBinary(3000, SizeUnit::K).get_estimated(), 3 * 1024);
    assert_eq!(FileSize::HumanizedBinary(2500, SizeUnit::M).get_estimated(), 2621440);
    assert_eq!(FileSize::HumanizedDecimal(2500, SizeUnit::M).get_estimated(), 2500000);
    assert_eq!(FileSize::HumanizedBinary(1500, SizeUnit::B).get_estimated(), 1);
}

#[test]
fn units_expose_their_exponent() {
    assert_eq!(SizeUnit::B.get_exp(), 0);
    assert_eq!(SizeUnit::K.get_exp(), 1);
    assert_eq!(SizeUnit::M.get_exp(), 2);
    assert_eq!(SizeUnit::G.get_exp(), 3);
    assert_eq!(SizeUnit::T.get_exp(), 4);
    assert_eq!(SizeUnit::P.get_exp(), 5);
    assert_eq!(SizeUnit::K.binary_factor(), 1024);
    assert_eq!(SizeUnit::K.decimal_factor(), 1000);
}

#[test]
fn new_items_start_unchecked() {
    let it = ListItem::new(
        "http://up.test/a".to_string(),
        "a".to_string(),
        FileType::File,
        None,
        NaiveDateTime::from_timestamp(5),
    );
    assert!(!it.skip_check);
    assert_eq!(it.mtime, NaiveDateTime::from_timestamp(5));
    assert_eq!(NaiveDateTime::default().secs, 0);
}
