//! Renaming the columns of a file to the names that a query asks for.

use parquet::arrow::PARQUET_FIELD_ID_META_KEY;
use schema_adapter::case_tables::{
    JvmCaseTables, CLASS_ALETTER_CASED, CLASS_DANDA, CLASS_EXTEND, CLASS_EXTEND_CASED,
    CLASS_FORMAT, CLASS_MID_LETTER, CLASS_MID_NUM, CLASS_MID_NUM_LET, CLASS_NUMERIC,
    CLASS_NUMERIC_CASED, CLASS_SUPP_CASED, CLASS_SUPP_LETTER, CLASS_SUPP_MN, CLASS_SUPP_NUM,
};
use schema_adapter::errors::SparkError;
use schema_adapter::remap::remap_physical_schema;
use schema_adapter::schema::{
    index_of, parse_field_id, schema_has_field_ids, types_equal, DataType, Field, Schema,
};
use schema_adapter::string_map::StringMap;

/// The case data of some characters, as JDK 17 has it.
fn jdk17_test_tables() -> JvmCaseTables {
    let mut lower_cp: Vec<u32> = Vec::new();
    let mut lower_repl: Vec<String> = Vec::new();
    for cp in 0x41u32..=0x5A {
        lower_cp.push(cp);
        lower_repl.push(char::from_u32(cp + 0x20).unwrap().to_string());
    }
    let mut pair = |cp: u32, repl: &str| {
        lower_cp.push(cp);
        lower_repl.push(repl.to_string());
    };
    pair(0xC9, "\u{E9}"); // É -> é
    pair(0x130, "i\u{307}"); // İ -> "i" + COMBINING DOT ABOVE (multi-char expansion)
    pair(0x391, "\u{3B1}"); // Α -> α
    pair(0x392, "\u{3B2}"); // Β -> β
    pair(0x394, "\u{3B4}"); // Δ -> δ
    pair(0x395, "\u{3B5}"); // Ε -> ε
    pair(0x39F, "\u{3BF}"); // Ο -> ο
    pair(0x3A3, "\u{3C3}"); // Σ -> σ (the isolated form; contexts handled by the scan)
    pair(0x3A5, "\u{3C5}"); // Υ -> υ
    pair(0x212A, "k"); // KELVIN SIGN -> ASCII k
    pair(0x10400, "\u{10428}"); // DESERET CAPITAL LONG I -> small
    pair(0x2160, "\u{2170}"); // ROMAN NUMERAL ONE -> small roman numeral one

    let class_ranges: Vec<u32> = vec![
        0x22, 0x22, CLASS_MID_NUM_LET as u32,   // '"'
        0x27, 0x27, CLASS_MID_NUM_LET as u32,   // '\''
        0x2C, 0x2C, CLASS_MID_NUM as u32,    // ','
        0x2D, 0x2D, CLASS_MID_LETTER as u32,   // '-'
        0x2E, 0x2E, CLASS_MID_NUM_LET as u32,   // '.'
        0x30, 0x39, CLASS_NUMERIC as u32,      // 0-9
        0x41, 0x5A, CLASS_ALETTER_CASED as u32,      // A-Z
        0x5F, 0x5F, CLASS_MID_LETTER as u32,   // '_'
        0x61, 0x7A, CLASS_ALETTER_CASED as u32,      // a-z
        0xC9, 0xC9, CLASS_ALETTER_CASED as u32,      // É
        0xDF, 0xDF, CLASS_ALETTER_CASED as u32,      // ß
        0xE9, 0xE9, CLASS_ALETTER_CASED as u32,      // é
        0x130, 0x131, CLASS_ALETTER_CASED as u32,    // İ, ı
        0x301, 0x301, CLASS_EXTEND as u32, // COMBINING ACUTE (Mn, non-cased)
        0x307, 0x307, CLASS_EXTEND as u32, // COMBINING DOT ABOVE (Mn, non-cased)
        0x345, 0x345, CLASS_EXTEND_CASED as u32, // COMBINING GREEK YPOGEGRAMMENI
        0x391, 0x3A9, CLASS_ALETTER_CASED as u32,    // Greek capitals
        0x3B1, 0x3C9, CLASS_ALETTER_CASED as u32,    // Greek smalls (incl. σ, ς)
        0x64E, 0x64E, CLASS_EXTEND as u32, // ARABIC FATHA (Mn, non-cased)
        0x964, 0x964, CLASS_DANDA as u32,    // DEVANAGARI DANDA
        0x200D, 0x200D, CLASS_FORMAT as u32, // ZERO WIDTH JOINER (Cf)
        0x212A, 0x212A, CLASS_ALETTER_CASED as u32,  // KELVIN SIGN
        0x2160, 0x2170, CLASS_NUMERIC_CASED as u32, // Roman numeral one, upper and lower
        0x10400, 0x10400, CLASS_SUPP_CASED as u32, // DESERET CAPITAL LONG I
        0x11374, 0x11374, CLASS_SUPP_MN as u32,  // COMBINING GRANTHA LETTER A (Mn, supp)
        0x1D7D3, 0x1D7D3, CLASS_SUPP_NUM as u32, // MATHEMATICAL BOLD DIGIT FIVE (Nd, supp)
        0x20000, 0x20000, CLASS_SUPP_LETTER as u32, // CJK UNIFIED IDEOGRAPH-20000 (Lo)
    ];
    JvmCaseTables::from_proto(&lower_cp, &lower_repl, &class_ranges)
}

fn field(name: &str) -> Field {
    Field::new(name, DataType::Int64, true)
}

fn field_with_id(name: &str, id: &str) -> Field {
    let mut metadata = StringMap::new();
    metadata.insert(PARQUET_FIELD_ID_META_KEY.to_string(), id.to_string());
    field(name).with_metadata(metadata)
}

fn names(schema: &Schema) -> Vec<&str> {
    schema.fields.iter().map(|f| f.name.as_str()).collect()
}

#[test]
fn remap_case_sensitive_does_not_fold_kelvin_sign_to_ascii_k() {
    let logical = Schema::new(vec![field("k")]);
    let physical = Schema::new(vec![field("\u{212A}")]);
    let (remapped, name_map) =
        remap_physical_schema(&logical, &physical, true, Some(&jdk17_test_tables()), false, false)
            .unwrap();
    assert_eq!(remapped.fields[0].name, "\u{212A}");
    assert!(name_map.is_empty());
}

#[test]
fn remap_case_insensitive_folds_kelvin_sign_to_ascii_k() {
    let logical = Schema::new(vec![field("k")]);
    let physical = Schema::new(vec![field("\u{212A}")]);
    let (remapped, name_map) =
        remap_physical_schema(&logical, &physical, false, Some(&jdk17_test_tables()), false, false)
            .unwrap();
    assert_eq!(remapped.fields[0].name, "k");
    assert_eq!(name_map.get("k").map(String::as_str), Some("\u{212A}"));
}

#[test]
fn remap_field_id_shield_is_exact_in_case_sensitive_mode() {
    let logical = Schema::new(vec![field_with_id("k", "5")]);
    let physical = Schema::new(vec![field("k"), field("K")]);
    let (remapped, name_map) =
        remap_physical_schema(&logical, &physical, true, None, true, true).unwrap();
    assert_ne!(remapped.fields[0].name, "k");
    assert_ne!(remapped.fields[0].name, "K");
    assert_eq!(remapped.fields[1].name, "K");
    assert!(name_map.is_empty());
}

#[test]
fn remap_case_sensitive_keeps_exact_name_for_id_less_logical_field() {
    let logical = Schema::new(vec![field_with_id("\u{39A}", "1"), field("\u{3BA}")]);
    let physical = Schema::new(vec![field_with_id("\u{3BA}", "2")]);
    let (remapped, name_map) =
        remap_physical_schema(&logical, &physical, true, None, true, false).unwrap();
    assert_eq!(remapped.fields[0].name, "\u{3BA}");
    assert!(name_map.is_empty());
}

#[test]
fn remap_case_insensitive_claim_beats_unmatched_id_shield() {
    let logical = Schema::new(vec![field_with_id("\u{39A}", "1"), field("\u{3BA}")]);
    let physical = Schema::new(vec![field_with_id("\u{3BA}", "2")]);
    let (remapped, name_map) =
        remap_physical_schema(&logical, &physical, false, None, true, false).unwrap();
    assert_eq!(remapped.fields[0].name, "\u{3BA}");
    assert!(name_map.is_empty());
}

#[test]
fn remap_shields_stray_physical_field_named_like_id_matched_logical_field() {
    let logical = Schema::new(vec![field_with_id("A", "1")]);
    let physical = Schema::new(vec![field("A"), field_with_id("a", "1")]);
    let (remapped, name_map) =
        remap_physical_schema(&logical, &physical, true, None, true, false).unwrap();
    assert_ne!(remapped.fields[0].name, "A");
    assert_ne!(remapped.fields[0].name, "a");
    assert_eq!(remapped.fields[1].name, "A");
    assert_eq!(name_map.get("A").map(String::as_str), Some("a"));
}

#[test]
fn remap_fake_names_never_collide_with_real_columns() {
    let logical =
        Schema::new(vec![field_with_id("a", "1"), field("__comet_unmatched_field_id_1")]);
    let physical = Schema::new(vec![field("a"), field("__comet_unmatched_field_id_1")]);
    let (remapped, name_map) =
        remap_physical_schema(&logical, &physical, true, None, true, true).unwrap();
    assert_eq!(remapped.fields[0].name, "__comet_unmatched_field_id_2");
    assert_eq!(remapped.fields[1].name, "__comet_unmatched_field_id_1");
    assert!(name_map.is_empty());
}

#[test]
fn files_without_identifiers_are_refused() {
    let logical = Schema::new(vec![field_with_id("a", "1")]);
    let physical = Schema::new(vec![field("a")]);
    let refused = remap_physical_schema(&logical, &physical, true, None, true, false);
    assert!(matches!(refused, Err(SparkError::ParquetMissingFieldIds)));
    assert!(remap_physical_schema(&logical, &physical, true, None, true, true).is_ok());
    assert!(remap_physical_schema(&logical, &physical, true, None, false, false).is_ok());
}

#[test]
fn identifiers_that_several_columns_carry_are_refused() {
    let logical = Schema::new(vec![
        field("z"),
        field_with_id("x", "9"),
        field_with_id("a", "1"),
        field_with_id("b", "-2"),
    ]);
    let physical = Schema::new(vec![
        field_with_id("p", "-2"),
        field_with_id("q", "1"),
        field_with_id("r", "1"),
        field_with_id("s", "-2"),
        field_with_id("t", "1"),
    ]);
    match remap_physical_schema(&logical, &physical, false, None, true, false) {
        Err(SparkError::DuplicateFieldByFieldId { required_id, matched_fields }) => {
            assert_eq!(required_id, 1);
            assert_eq!(matched_fields, "q, r, t");
        }
        other => panic!("{other:?}"),
    }
}

#[test]
fn unrequested_duplicate_identifiers_do_not_matter() {
    let logical = Schema::new(vec![field_with_id("a", "1")]);
    let physical = Schema::new(vec![
        field_with_id("p", "7"),
        field_with_id("q", "7"),
        field_with_id("r", "1"),
    ]);
    let (remapped, name_map) =
        remap_physical_schema(&logical, &physical, true, None, true, false).unwrap();
    assert_eq!(names(&remapped), vec!["p", "q", "a"]);
    assert_eq!(name_map.get("a").map(String::as_str), Some("r"));
    assert_eq!(name_map.get("p"), None);
}

#[test]
fn made_up_names_count_up() {
    let logical = Schema::new(vec![field_with_id("a", "1"), field_with_id("b", "2")]);
    let physical = Schema::new(vec![field("b"), field("c"), field("A"), field("a")]);
    let (remapped, name_map) =
        remap_physical_schema(&logical, &physical, false, None, true, true).unwrap();
    assert_eq!(
        names(&remapped),
        vec![
            "__comet_unmatched_field_id_1",
            "c",
            "__comet_unmatched_field_id_2",
            "__comet_unmatched_field_id_3",
        ]
    );
    assert!(name_map.is_empty());
}

#[test]
fn only_names_change() {
    let logical = Schema::new(vec![Field::new("A", DataType::Int32, false)]);
    let mut metadata = StringMap::new();
    metadata.insert("origin".to_string(), "test".to_string());
    let physical = Schema::new(vec![Field::new("a", DataType::Utf8, true).with_metadata(metadata)]);
    let (remapped, _) =
        remap_physical_schema(&logical, &physical, false, None, false, false).unwrap();
    assert_eq!(remapped.fields[0].name, "A");
    assert!(types_equal(&remapped.fields[0].data_type, &DataType::Utf8));
    assert!(remapped.fields[0].nullable);
    assert_eq!(remapped.fields[0].metadata.get("origin").map(String::as_str), Some("test"));
}

#[test]
fn the_last_column_of_a_name_is_kept_in_the_map() {
    let logical = Schema::new(vec![field("x")]);
    let physical = Schema::new(vec![field("X"), field("x"), field("X")]);
    let (remapped, name_map) =
        remap_physical_schema(&logical, &physical, false, None, false, false).unwrap();
    assert_eq!(names(&remapped), vec!["x", "x", "x"]);
    assert_eq!(name_map.get("x").map(String::as_str), Some("X"));
}

#[test]
fn field_identifiers_are_read_from_metadata() {
    assert_eq!(parse_field_id(&field_with_id("a", "12")), Some(12));
    assert_eq!(parse_field_id(&field_with_id("a", "+12")), Some(12));
    assert_eq!(parse_field_id(&field_with_id("a", "-2147483648")), Some(i32::MIN));
    assert_eq!(parse_field_id(&field_with_id("a", "2147483647")), Some(i32::MAX));
    assert_eq!(parse_field_id(&field_with_id("a", "2147483648")), None);
    assert_eq!(parse_field_id(&field_with_id("a", "-2147483649")), None);
    assert_eq!(parse_field_id(&field_with_id("a", "")), None);
    assert_eq!(parse_field_id(&field_with_id("a", "-")), None);
    assert_eq!(parse_field_id(&field_with_id("a", " 1")), None);
    assert_eq!(parse_field_id(&field_with_id("a", "1x")), None);
    assert_eq!(parse_field_id(&field("a")), None);
    assert!(schema_has_field_ids(&Schema::new(vec![field("a"), field_with_id("b", "0")])));
    assert!(!schema_has_field_ids(&Schema::new(vec![field("a"), field_with_id("b", "x")])));
    assert!(!schema_has_field_ids(&Schema::new(vec![])));
}

#[test]
fn the_first_field_of_a_name_is_found() {
    let schema = Schema::new(vec![field("a"), field("b"), field("b")]);
    assert_eq!(index_of(&schema, &"b".to_string()), Some(1));
    assert_eq!(index_of(&schema, &"B".to_string()), None);
}

#[test]
fn string_maps_keep_the_last_value_of_a_key() {
    let mut a = StringMap::new();
    assert!(a.is_empty());
    a.insert("k".to_string(), "1".to_string());
    a.insert("l".to_string(), "2".to_string());
    a.insert("k".to_string(), "3".to_string());
    assert!(!a.is_empty());
    assert_eq!(a.get("k").map(String::as_str), Some("3"));
    assert_eq!(a.get("m"), None);
    let mut b = StringMap::new();
    b.insert("l".to_string(), "2".to_string());
    assert!(!a.same_entries(&b));
    b.insert("k".to_string(), "3".to_string());
    assert!(a.same_entries(&b));
}
