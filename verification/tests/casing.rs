//! Lowercasing and name matching over a miniature table. The table, and the expected texts, are
//! those of JDK 17.

use schema_adapter::case_tables::{
    JvmCaseTables, CLASS_ALETTER_CASED, CLASS_BOUNDARY, CLASS_DANDA, CLASS_EXTEND,
    CLASS_EXTEND_CASED, CLASS_FORMAT, CLASS_MID_LETTER, CLASS_MID_NUM, CLASS_MID_NUM_LET,
    CLASS_NUMERIC, CLASS_NUMERIC_CASED, CLASS_SUPP_CASED, CLASS_SUPP_LETTER, CLASS_SUPP_MN,
    CLASS_SUPP_NUM,
};
use schema_adapter::lowercase::{java_lowercase, names_equal_ignore_case_java};
use std::collections::hash_map::DefaultHasher;
use std::hash::{Hash, Hasher};

/// The data of the characters that these tests touch.
fn jdk17_test_tables() -> JvmCaseTables {
    let mut lower_cp: Vec<u32> = Vec::new();
    let mut lower_repl: Vec<String> = Vec::new();
    for cp in 0x41u32..=0x5A {
        lower_cp.push(cp);
        lower_repl.push(char::from_u32(cp + 0x20).unwrap().to_string());
    }
    let mut pair = |cp: u32, repl: &str| {
        lower_cp.push(cp);
        lower_repl.push(repl.to_string());
    };
    pair(0xC9, "\u{E9}"); // É -> é
    pair(0x130, "i\u{307}"); // İ -> "i" + COMBINING DOT ABOVE (multi-char expansion)
    pair(0x391, "\u{3B1}"); // Α -> α
    pair(0x392, "\u{3B2}"); // Β -> β
    pair(0x394, "\u{3B4}"); // Δ -> δ
    pair(0x395, "\u{3B5}"); // Ε -> ε
    pair(0x39F, "\u{3BF}"); // Ο -> ο
    pair(0x3A3, "\u{3C3}"); // Σ -> σ (the isolated form; contexts handled by the scan)
    pair(0x3A5, "\u{3C5}"); // Υ -> υ
    pair(0x212A, "k"); // KELVIN SIGN -> ASCII k
    pair(0x10400, "\u{10428}"); // DESERET CAPITAL LONG I -> small
    pair(0x2160, "\u{2170}"); // ROMAN NUMERAL ONE -> small roman numeral one

    let class_ranges: Vec<u32> = vec![
        0x22, 0x22, CLASS_MID_NUM_LET as u32,   // '"'
        0x27, 0x27, CLASS_MID_NUM_LET as u32,   // '\''
        0x2C, 0x2C, CLASS_MID_NUM as u32,    // ','
        0x2D, 0x2D, CLASS_MID_LETTER as u32,   // '-'
        0x2E, 0x2E, CLASS_MID_NUM_LET as u32,   // '.'
        0x30, 0x39, CLASS_NUMERIC as u32,      // 0-9
        0x41, 0x5A, CLASS_ALETTER_CASED as u32,      // A-Z
        0x5F, 0x5F, CLASS_MID_LETTER as u32,   // '_'
        0x61, 0x7A, CLASS_ALETTER_CASED as u32,      // a-z
        0xC9, 0xC9, CLASS_ALETTER_CASED as u32,      // É
        0xDF, 0xDF, CLASS_ALETTER_CASED as u32,      // ß
        0xE9, 0xE9, CLASS_ALETTER_CASED as u32,      // é
        0x130, 0x131, CLASS_ALETTER_CASED as u32,    // İ, ı
        0x301, 0x301, CLASS_EXTEND as u32, // COMBINING ACUTE (Mn, non-cased)
        0x307, 0x307, CLASS_EXTEND as u32, // COMBINING DOT ABOVE (Mn, non-cased)
        0x345, 0x345, CLASS_EXTEND_CASED as u32, // COMBINING GREEK YPOGEGRAMMENI
        0x391, 0x3A9, CLASS_ALETTER_CASED as u32,    // Greek capitals
        0x3B1, 0x3C9, CLASS_ALETTER_CASED as u32,    // Greek smalls (incl. σ, ς)
        0x64E, 0x64E, CLASS_EXTEND as u32, // ARABIC FATHA (Mn, non-cased)
        0x964, 0x964, CLASS_DANDA as u32,    // DEVANAGARI DANDA
        0x200D, 0x200D, CLASS_FORMAT as u32, // ZERO WIDTH JOINER (Cf)
        0x212A, 0x212A, CLASS_ALETTER_CASED as u32,  // KELVIN SIGN
        0x2160, 0x2170, CLASS_NUMERIC_CASED as u32, // Roman numeral one, upper and lower
        0x10400, 0x10400, CLASS_SUPP_CASED as u32, // DESERET CAPITAL LONG I
        0x11374, 0x11374, CLASS_SUPP_MN as u32,  // COMBINING GRANTHA LETTER A (Mn, supp)
        0x1D7D3, 0x1D7D3, CLASS_SUPP_NUM as u32, // MATHEMATICAL BOLD DIGIT FIVE (Nd, supp)
        0x20000, 0x20000, CLASS_SUPP_LETTER as u32, // CJK UNIFIED IDEOGRAPH-20000 (Lo)
    ];
    JvmCaseTables::from_proto(&lower_cp, &lower_repl, &class_ranges)
}

#[test]
fn kelvin_sign_matches_ascii_k_and_capital_k() {
    let t = jdk17_test_tables();
    assert!(names_equal_ignore_case_java("\u{212A}", "k", Some(&t)));
    assert!(names_equal_ignore_case_java("\u{212A}", "K", Some(&t)));
    assert!(names_equal_ignore_case_java("k", "\u{212A}", Some(&t)));
}

#[test]
fn e_acute_case_pair_matches() {
    let t = jdk17_test_tables();
    assert!(names_equal_ignore_case_java("\u{c9}", "\u{e9}", Some(&t)));
    assert!(names_equal_ignore_case_java(
        "R\u{c9}SUM\u{c9}",
        "r\u{e9}sum\u{e9}",
        Some(&t)
    ));
}

#[test]
fn greek_capital_sigma_matches_regular_lowercase_sigma() {
    let t = jdk17_test_tables();
    assert!(names_equal_ignore_case_java("\u{3a3}", "\u{3c3}", Some(&t)));
}

#[test]
fn greek_final_sigma_does_not_match_regular_lowercase_sigma() {
    let t = jdk17_test_tables();
    assert!(!names_equal_ignore_case_java(
        "\u{3c2}",
        "\u{3c3}",
        Some(&t)
    ));
}

#[test]
fn sharp_s_does_not_match_ss() {
    let t = jdk17_test_tables();
    assert!(!names_equal_ignore_case_java("\u{df}", "ss", Some(&t)));
    assert!(!names_equal_ignore_case_java("\u{df}", "SS", Some(&t)));
}

#[test]
fn capital_i_with_dot_above_does_not_match_ascii_i() {
    let t = jdk17_test_tables();
    assert!(!names_equal_ignore_case_java("\u{130}", "I", Some(&t)));
    assert!(!names_equal_ignore_case_java("\u{130}", "i", Some(&t)));
}

#[test]
fn dotless_i_does_not_match_ascii_i_or_capital_i() {
    let t = jdk17_test_tables();
    assert!(!names_equal_ignore_case_java("\u{131}", "I", Some(&t)));
    assert!(!names_equal_ignore_case_java("\u{131}", "i", Some(&t)));
}

#[test]
fn ascii_pairs_still_match() {
    let t = jdk17_test_tables();
    assert!(names_equal_ignore_case_java("Foo", "foo", Some(&t)));
    assert!(names_equal_ignore_case_java("BAR", "bar", Some(&t)));
    assert!(!names_equal_ignore_case_java("foo", "bar", Some(&t)));
}

#[test]
fn ascii_matching_does_not_depend_on_jvm_tables() {
    let empty = JvmCaseTables::from_proto(&[], &[], &[]);
    assert!(names_equal_ignore_case_java("Foo", "foo", Some(&empty)));
}

#[test]
fn differing_lengths_never_match() {
    let t = jdk17_test_tables();
    assert!(!names_equal_ignore_case_java("ab", "a", Some(&t)));
    assert!(!names_equal_ignore_case_java("", "a", Some(&t)));
}

#[test]
fn digit_keeps_final_sigma_context_open() {
    let t = jdk17_test_tables();
    assert_eq!(t.lowercase("A1\u{3A3}"), "a1\u{3C2}");
    assert_ne!("A1\u{3A3}".to_lowercase(), "a1\u{3C2}");
    assert!(names_equal_ignore_case_java(
        "A1\u{3A3}",
        "a1\u{3C2}",
        Some(&t)
    ));
    assert!(!names_equal_ignore_case_java(
        "A1\u{3A3}",
        "a1\u{3C3}",
        Some(&t)
    ));
}

#[test]
fn word_boundaries_and_following_cased_letters_block_final_sigma() {
    let t = jdk17_test_tables();
    assert_eq!(t.lowercase("A \u{3A3}"), "a \u{3C3}"); // space breaks the word
    assert_eq!(t.lowercase("A\u{3A3}B"), "a\u{3C3}b"); // cased letter follows
    assert_eq!(t.lowercase("\u{3A3}"), "\u{3C3}"); // isolated
    assert_eq!(t.lowercase("\u{3A3}A"), "\u{3C3}a"); // nothing cased before
}

#[test]
fn greek_word_with_trailing_capital_sigma_lowercases_with_final_sigma() {
    let t = jdk17_test_tables();
    assert_eq!(
        t.lowercase("\u{39F}\u{394}\u{3A5}\u{3A3}\u{3A3}\u{395}\u{3A5}\u{3A3}"),
        "\u{3BF}\u{3B4}\u{3C5}\u{3C3}\u{3C3}\u{3B5}\u{3C5}\u{3C2}"
    );
    assert!(names_equal_ignore_case_java(
        "\u{39F}\u{394}\u{3A5}\u{3A3}\u{3A3}\u{395}\u{3A5}\u{3A3}",
        "\u{3BF}\u{3B4}\u{3C5}\u{3C3}\u{3C3}\u{3B5}\u{3C5}\u{3C2}",
        Some(&t)
    ));
}

#[test]
fn greek_word_with_medial_sigma_lowercases_with_regular_sigma() {
    let t = jdk17_test_tables();
    assert_eq!(
        t.lowercase("\u{391}\u{3A3}\u{392}"),
        "\u{3B1}\u{3C3}\u{3B2}"
    );
    assert!(!names_equal_ignore_case_java(
        "\u{391}\u{3A3}\u{392}",
        "\u{3B1}\u{3C2}\u{3B2}",
        Some(&t)
    ));
}

#[test]
fn mid_punctuation_joins_words_per_the_jdk_rules() {
    let t = jdk17_test_tables();
    assert_eq!(t.lowercase("A_\u{3A3}"), "a_\u{3C2}");
    assert_eq!(t.lowercase("A-\u{3A3}"), "a-\u{3C2}");
    assert_eq!(t.lowercase("A.\u{3A3}"), "a.\u{3C2}");
    assert_eq!(t.lowercase("A,\u{3A3}"), "a,\u{3C3}");
    assert_eq!(t.lowercase("A..\u{3A3}"), "a..\u{3C3}");
    assert_eq!(t.lowercase("A1.\u{3A3}"), "a1.\u{3C3}");
    assert_eq!(t.lowercase("A-1\u{3A3}"), "a-1\u{3C3}");
    assert_eq!(t.lowercase("A\u{3A3}_b"), "a\u{3C3}_b"); // joins to a cased letter after
}

#[test]
fn cased_digit_is_cased_but_joins_words_like_a_digit_not_a_letter() {
    let t = jdk17_test_tables();
    assert_eq!(t.lowercase("\u{2160}\u{3A3}"), "\u{2170}\u{3C2}");
    assert_eq!(t.lowercase("A\u{3A3}\u{2160}"), "a\u{3C3}\u{2170}");
    assert_eq!(t.lowercase("\u{2160}-\u{3A3}"), "\u{2170}-\u{3C3}");
    assert_eq!(t.lowercase("A-\u{2160}-\u{3A3}"), "a-\u{2170}-\u{3C3}");
    assert_eq!(t.lowercase("\u{2160},1\u{3A3}"), "\u{2170},1\u{3C2}");
}

#[test]
fn combining_marks_are_transparent_to_the_sigma_scan() {
    let t = jdk17_test_tables();
    assert_eq!(t.lowercase("A\u{301}\u{3A3}"), "a\u{301}\u{3C2}");
    assert_eq!(t.lowercase("A\u{64E}\u{3A3}"), "a\u{64E}\u{3C2}");
    assert_eq!(t.lowercase("\u{130}\u{3A3}"), "i\u{307}\u{3C2}");
}

#[test]
fn cased_combining_mark_counts_only_when_attached_to_a_word() {
    let t = jdk17_test_tables();
    assert_eq!(t.lowercase("A\u{345}\u{3A3}"), "a\u{345}\u{3C2}");
    assert_eq!(t.lowercase("1\u{345}\u{3A3}"), "1\u{345}\u{3C2}");
    assert_eq!(t.lowercase("\u{345}\u{3A3}"), "\u{345}\u{3C3}");
}

#[test]
fn supplementary_cased_letter_closes_the_preceding_word() {
    let t = jdk17_test_tables();
    assert_eq!(t.lowercase("A\u{10400}\u{3A3}"), "a\u{10428}\u{3C3}");
    assert_eq!(t.lowercase("\u{10400}\u{3A3}"), "\u{10428}\u{3C2}");
    assert_eq!(t.lowercase("A\u{3A3}\u{10400}"), "a\u{3C3}\u{10428}");
}

#[test]
fn danda_chains_only_into_numbers() {
    let t = jdk17_test_tables();
    assert_eq!(t.lowercase("A\u{964}1\u{3A3}"), "a\u{964}1\u{3C2}");
    assert_eq!(t.lowercase("A\u{964}\u{3A3}"), "a\u{964}\u{3C3}");
}

#[test]
fn cf_format_chars_are_fully_transparent_but_mn_marks_are_not() {
    let t = jdk17_test_tables();
    assert_eq!(t.lowercase("A-\u{200D}\u{3A3}"), "a-\u{200D}\u{3C2}");
    assert_eq!(t.lowercase("A-\u{301}\u{3A3}"), "a-\u{301}\u{3C3}");
    assert_eq!(t.lowercase("A\u{3A3}-\u{200D}b"), "a\u{3C3}-\u{200D}b");
    assert_eq!(
        t.lowercase("A\u{3A3}-\u{200D}\u{200D}b"),
        "a\u{3C3}-\u{200D}\u{200D}b"
    );
    assert_eq!(
        t.lowercase("A\u{3A3}-\u{200D}\u{301}b"),
        "a\u{3C2}-\u{200D}\u{301}b"
    );
    assert_eq!(t.lowercase("A\u{3A3}\u{200D}-B"), "a\u{3C3}\u{200D}-b");
    assert_eq!(t.lowercase("A\u{3A3}\u{301}-B"), "a\u{3C3}\u{301}-b");
}

#[test]
fn leading_format_chars_defeat_the_supplementary_text_start_join() {
    let t = jdk17_test_tables();
    assert_eq!(
        t.lowercase("\u{200D}\u{10400}\u{3A3}"),
        "\u{200D}\u{10428}\u{3C3}"
    );
}

#[test]
fn supplementary_mark_anchors_a_riding_cased_mark_only_off_a_real_base() {
    let t = jdk17_test_tables();
    assert_eq!(
        t.lowercase("A\u{11374}\u{345}\u{3A3}"),
        "a\u{11374}\u{345}\u{3C2}"
    );
    assert_eq!(
        t.lowercase("\u{11374}\u{345}\u{3A3}"),
        "\u{11374}\u{345}\u{3C3}"
    );
    assert_eq!(
        t.lowercase("A\u{11374}\u{345}-\u{3A3}"),
        "a\u{11374}\u{345}-\u{3C2}"
    );
    assert_eq!(
        t.lowercase("\u{2160}\u{11374}\u{345}-\u{3A3}"),
        "\u{2170}\u{11374}\u{345}-\u{3C3}"
    );
}

#[test]
fn supplementary_digit_carries_a_riding_cased_mark_only_in_digit_context() {
    let t = jdk17_test_tables();
    assert_eq!(
        t.lowercase("A\u{1D7D3}\u{345}\u{3A3}"),
        "a\u{1D7D3}\u{345}\u{3C2}"
    );
    assert_eq!(
        t.lowercase("A\u{1D7D3}\u{345},1\u{3A3}"),
        "a\u{1D7D3}\u{345},1\u{3C2}"
    );
    assert_eq!(
        t.lowercase("A\u{1D7D3}\u{345}-\u{3A3}"),
        "a\u{1D7D3}\u{345}-\u{3C3}"
    );
}

#[test]
fn assigned_noncased_supplementary_letter_backs_a_following_cased_mark() {
    let t = jdk17_test_tables();
    assert_eq!(
        t.lowercase("\u{20000}\u{345}\u{3A3}"),
        "\u{20000}\u{345}\u{3C2}"
    );
    assert_eq!(t.lowercase("\u{20000}\u{3A3}"), "\u{20000}\u{3C3}");
}

#[test]
fn backward_mid_word_bridge_credits_a_cased_mark_riding_a_noncased_base() {
    let t = jdk17_test_tables();
    assert_eq!(
        t.lowercase("\u{20000}\u{345}_\u{3A3}"),
        "\u{20000}\u{345}_\u{3C2}"
    );
}

#[test]
fn forward_mid_word_bridge_rejects_an_orphaned_mark_after_the_punctuation() {
    let t = jdk17_test_tables();
    assert_eq!(t.lowercase("A\u{3A3}-\u{301}B"), "a\u{3C2}-\u{301}b");
}

#[test]
fn absent_tables_fall_back_to_rust_lowercase() {
    assert_eq!(java_lowercase("A1\u{3A3}", None), "a1\u{3C3}");
    assert!(names_equal_ignore_case_java("\u{212A}", "k", None));
    assert!(names_equal_ignore_case_java("Foo", "foo", None));
    assert!(!names_equal_ignore_case_java(
        "A1\u{3A3}",
        "a1\u{3C2}",
        None
    ));
}

#[test]
fn unknown_class_values_read_as_word_boundaries() {
    let t = JvmCaseTables::from_proto(
        &[0x41],
        &["a".to_string()],
        &[0x41, 0x5A, 99, 0x3B1, 0x3C9, CLASS_ALETTER_CASED as u32],
    );
    assert_eq!(t.lowercase("A\u{3A3}"), "a\u{3C3}");
    assert_eq!(t.lowercase("\u{3B1}\u{3A3}"), "\u{3B1}\u{3C2}");
}

#[test]
fn malformed_proto_degrades_entry_by_entry() {
    let t = JvmCaseTables::from_proto(&[0x41, 0x42], &["a".to_string()], &[]);
    assert_eq!(t.lowercase("AB"), "aB");
    let t = JvmCaseTables::from_proto(
        &[],
        &[],
        &[
            0x61,
            0x7A,
            CLASS_ALETTER_CASED as u32,
            0x5A,
            0x41, // inverted -- dropped
            CLASS_ALETTER_CASED as u32,
            0x30, // trailing partial triple -- dropped
        ],
    );
    assert_eq!(t.lowercase("a\u{3A3}"), "a\u{3C2}");
    assert_eq!(t.lowercase("A\u{3A3}"), "A\u{3C3}");
}

#[test]
fn equal_tables_hash_and_compare_equal() {
    let a = jdk17_test_tables();
    let b = jdk17_test_tables();
    assert_eq!(a, b);
    let hash = |t: &JvmCaseTables| {
        let mut h = DefaultHasher::new();
        t.hash(&mut h);
        h.finish()
    };
    assert_eq!(hash(&a), hash(&b));
    let c = JvmCaseTables::from_proto(&[0x41], &["a".to_string()], &[]);
    assert_ne!(a, c);
}

#[test]
fn every_class_is_read_from_its_range() {
    let t = jdk17_test_tables();
    assert_eq!(t.class_of('A'), CLASS_ALETTER_CASED);
    assert_eq!(t.class_of('Z'), CLASS_ALETTER_CASED);
    assert_eq!(t.class_of('7'), CLASS_NUMERIC);
    assert_eq!(t.class_of('\u{200D}'), CLASS_FORMAT);
    assert_eq!(t.class_of('\u{20000}'), CLASS_SUPP_LETTER);
    assert_eq!(t.class_of(' '), CLASS_BOUNDARY);
    assert_eq!(t.class_of('\u{10FFFF}'), CLASS_BOUNDARY);
}

#[test]
fn later_replacements_of_a_character_count() {
    let t = JvmCaseTables::from_proto(
        &[0x42, 0x41, 0x42],
        &["b".to_string(), "a".to_string(), "bb".to_string()],
        &[],
    );
    assert_eq!(t.lowercase("ABC"), "abbC");
    assert_eq!(t.replacement('B').map(String::as_str), Some("bb"));
    assert_eq!(t.replacement('C'), None);
}

#[test]
fn numbers_that_are_no_characters_are_dropped() {
    let t = JvmCaseTables::from_proto(
        &[0xD800, 0x110000, 0x41],
        &["x".to_string(), "y".to_string(), "a".to_string()],
        &[],
    );
    assert_eq!(t, JvmCaseTables::from_proto(&[0x41], &["a".to_string()], &[]));
    assert_eq!(t.lowercase("A"), "a");
}

#[test]
fn malformed_class_triples_are_dropped() {
    let cased = CLASS_ALETTER_CASED as u32;
    let plain = JvmCaseTables::from_proto(&[], &[], &[0x61, 0x7A, cased]);
    let beyond_unicode =
        JvmCaseTables::from_proto(&[], &[], &[0x41, 0x110000, cased, 0x61, 0x7A, cased]);
    let wide_class = JvmCaseTables::from_proto(&[], &[], &[0x41, 0x5A, 256, 0x61, 0x7A, cased]);
    assert_eq!(plain, beyond_unicode);
    assert_eq!(plain, wide_class);
    assert_eq!(plain.fingerprint(), wide_class.fingerprint());
}

#[test]
fn tables_differ_in_replacements_or_ranges() {
    let a = JvmCaseTables::from_proto(&[0x41], &["a".to_string()], &[0x41, 0x5A, 1]);
    let b = JvmCaseTables::from_proto(&[0x41], &["b".to_string()], &[0x41, 0x5A, 1]);
    let c = JvmCaseTables::from_proto(&[0x41], &["a".to_string()], &[0x41, 0x5A, 2]);
    let d = JvmCaseTables::from_proto(&[0x42], &["a".to_string()], &[0x41, 0x5A, 1]);
    assert!(!a.same_data(&b));
    assert!(!a.same_data(&c));
    assert!(!a.same_data(&d));
    assert!(a.same_data(&a));
}

#[test]
fn replacements_listed_for_sigma_are_ignored() {
    let t = JvmCaseTables::from_proto(
        &[0x3A3, 0x41],
        &["s".to_string(), "a".to_string()],
        &[0x41, 0x5A, CLASS_ALETTER_CASED as u32],
    );
    assert_eq!(t.lowercase("\u{3A3}"), "\u{3C3}");
    assert_eq!(t.lowercase("A\u{3A3}"), "a\u{3C2}");
}

#[test]
fn lowercasing_splits_at_a_space() {
    let t = jdk17_test_tables();
    let x = "A\u{3A3}";
    let y = " \u{3A3}A\u{3A3}";
    assert_eq!(t.lowercase(&format!("{x}{y}")), format!("{}{}", t.lowercase(x), t.lowercase(y)));
    assert_eq!(t.lowercase("A\u{3A3} \u{3A3}A\u{3A3}"), "a\u{3C2} \u{3C3}a\u{3C2}");
}

#[test]
fn texts_without_sigma_lowercase_piece_by_piece() {
    let t = jdk17_test_tables();
    assert_eq!(t.lowercase("R\u{C9}\u{130}X"), "r\u{E9}i\u{307}x");
    assert_eq!(t.lowercase(""), "");
    assert_eq!(t.lowercase("\u{4E2D}1_"), "\u{4E2D}1_");
}

#[test]
fn format_characters_inside_a_text_change_no_sigma() {
    let t = jdk17_test_tables();
    assert_eq!(t.lowercase("A\u{200D}1\u{200D}\u{3A3}"), "a\u{200D}1\u{200D}\u{3C2}");
    assert_eq!(t.lowercase("A\u{3A3}\u{200D}B"), "a\u{3C3}\u{200D}b");
}

#[test]
fn matching_without_ascii_in_the_tables_is_not_transitive() {
    let t = JvmCaseTables::from_proto(&[0x212A], &["k".to_string()], &[]);
    assert!(names_equal_ignore_case_java("K", "k", Some(&t)));
    assert!(names_equal_ignore_case_java("k", "\u{212A}", Some(&t)));
    assert!(!names_equal_ignore_case_java("K", "\u{212A}", Some(&t)));
}

#[test]
fn names_match_when_they_lowercase_alike() {
    let t = jdk17_test_tables();
    for (a, b) in [("K", "\u{212A}"), ("\u{39F}\u{3A3}", "\u{3BF}\u{3C2}"), ("a", "b")] {
        assert_eq!(
            names_equal_ignore_case_java(a, b, Some(&t)),
            java_lowercase(a, Some(&t)) == java_lowercase(b, Some(&t))
        );
    }
}

#[test]
fn names_match_when_they_lowercase_alike_without_tables() {
    for (a, b) in [
        ("Foo_1", "fOO_1"),
        ("Foo", "Fo"),
        ("@", "`"),
        ("K", "\u{212A}"),
        ("\u{C9}", "e"),
    ] {
        assert_eq!(
            names_equal_ignore_case_java(a, b, None),
            java_lowercase(a, None) == java_lowercase(b, None)
        );
    }
    assert_eq!(java_lowercase("AZ[@`az09_", None), "az[@`az09_");
}

#[test]
fn ascii_names_match_only_up_to_ascii_case() {
    assert!(names_equal_ignore_case_java("aZ09_[", "Az09_[", None));
    assert!(!names_equal_ignore_case_java("@", "`", None));
    assert!(!names_equal_ignore_case_java("[", "{", None));
}
