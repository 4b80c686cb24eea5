use aircard::i18n::Language;
use aircard::text::{
    before_last, begins_with, contains_text, decimal_text, decimal_wide, decoded, decoded_lossy,
    hex_text, is_all_hex, join_texts, lf_text, lower_case_text, lower_text, parse_numeral,
    part_of, split_text, strip_end, strip_start, text_without, trim_text, upper_text, Numeral,
};
use aircard::wire::{copy_range, push_be, push_le, read_be, read_le, same_bytes};

#[test]
fn chinese_translation_has_english_fallback() {
    assert_eq!(Language::SimplifiedChinese.text("Wallet"), "钱包");
    assert_eq!(Language::SimplifiedChinese.text("unknown string"), "unknown string");
}

#[test]
fn language_option_labels_follow_current_language() {
    assert_eq!(
        Language::English.option_label(Language::SimplifiedChinese),
        "Simplified Chinese"
    );
    assert_eq!(
        Language::SimplifiedChinese.option_label(Language::SimplifiedChinese),
        "简体中文"
    );
}

#[test]
fn english_texts_stay_as_they_are() {
    assert_eq!(Language::English.text("Wallet"), "Wallet");
    assert_eq!(Language::English.option_label(Language::English), "English");
    assert_eq!(Language::SimplifiedChinese.option_label(Language::English), "英语");
    assert_eq!(Language::default(), Language::English);
}

#[test]
fn the_saved_language_comes_first() {
    let zh = Language::SimplifiedChinese;
    assert_eq!(Language::load(Some(Language::English), Some("zh_CN"), None, None), Language::English);
    assert_eq!(Language::load(None, Some("ZH_CN.UTF-8"), None, None), zh);
    assert_eq!(Language::load(None, Some("en"), Some("zh"), Some("zh")), Language::English);
    assert_eq!(Language::load(None, None, None, Some("zh")), zh);
    assert_eq!(Language::load(None, None, None, None), Language::English);
}

#[test]
fn numbers_are_written_and_read() {
    assert_eq!(decimal_text(0), "0");
    assert_eq!(decimal_text(u64::MAX), u64::MAX.to_string());
    assert_eq!(decimal_wide(u128::MAX), u128::MAX.to_string());
    assert_eq!(hex_text(0xab, 4), "00ab");
    assert!(matches!(parse_numeral("0042"), Numeral::Number(42)));
    assert!(matches!(parse_numeral("+7"), Numeral::Number(7)));
    assert!(matches!(parse_numeral(""), Numeral::Empty));
    assert!(matches!(parse_numeral("4x"), Numeral::NotADigit));
    assert!(matches!(parse_numeral("18446744073709551616"), Numeral::TooLarge));
}

#[test]
fn texts_are_taken_apart_and_joined() {
    assert_eq!(split_text("a//b", '/'), vec!["a", "", "b"]);
    assert_eq!(join_texts(&vec!["a".to_owned(), "b".to_owned()], ", "), "a, b");
    assert_eq!(before_last("a/b/c", '/').as_deref(), Some("a/b"));
    assert_eq!(before_last("abc", '/'), None);
    assert_eq!(part_of("añb", 1, 3), "ñb");
    assert_eq!(strip_end("a==", &['=']), "a");
    assert_eq!(strip_start("''a", &['\'']), "a");
    assert_eq!(trim_text(" \u{3000}a b\n"), "a b");
    assert_eq!(text_without("a-b-", '-'), "ab");
    assert_eq!(lf_text("a\r\nb\r"), "a\nb\r");
}

#[test]
fn texts_are_searched_and_changed() {
    assert!(contains_text("abcabd", "abd"));
    assert!(!contains_text("ab", "abc"));
    assert!(begins_with("abc", ""));
    assert_eq!(lower_text("ÀB"), "Àb");
    assert_eq!(upper_text("ab-1"), "AB-1");
    assert_eq!(lower_case_text("ÀB"), "àb");
    assert!(is_all_hex("09afAF"));
    assert!(!is_all_hex("g"));
}

#[test]
fn bytes_become_text() {
    assert_eq!(decoded("交通".as_bytes()).unwrap(), "交通");
    assert!(decoded(&[0xff]).is_err());
    assert_eq!(decoded_lossy(&[b'a', 0xff]), "a\u{fffd}");
}

#[test]
fn integers_survive_both_orders() {
    let mut out = Vec::new();
    push_le(&mut out, 0x0102_0304, 4);
    push_be(&mut out, 0x0102_0304, 4);
    assert_eq!(out, vec![4, 3, 2, 1, 1, 2, 3, 4]);
    assert_eq!(read_le(&out, 0, 4), 0x0102_0304);
    assert_eq!(read_be(&out, 4, 4), 0x0102_0304);
    assert_eq!(copy_range(&out, 1, 3), vec![3, 2]);
    assert!(same_bytes(&out, &out.clone()));
    assert!(!same_bytes(&out, &out[1..]));
}

#[test]
fn shown_texts_are_translated_no_further() {
    for language in [Language::English, Language::SimplifiedChinese] {
        for text in ["Wallet", "USB only", "- iOS 16-17: Select \"TelephonyUI-9\"", "钱包", "unknown"] {
            let shown = language.text(text);
            assert_eq!(language.text(shown), shown);
        }
    }
}
