use dedupe_utils::exif::ExifData;
use dedupe_utils::report::{is_blank_char, parse_exif_report};

fn pairs(exif: &ExifData) -> Vec<(String, String)> {
    exif.pairs()
}

fn pair(name: &str, value: &str) -> (String, String) {
    (name.to_string(), value.to_string())
}

#[test]
fn new_map_is_empty() {
    let exif = ExifData::new();
    assert_eq!(exif.len(), 0);
    assert!(!exif.contains_key("Model"));
    assert!(exif.get("Model").is_none());
    assert!(pairs(&exif).is_empty());
}

#[test]
fn inserted_attribute_is_found() {
    let mut exif = ExifData::new();
    exif.insert("Model".to_string(), "K800i".to_string());
    assert_eq!(exif.len(), 1);
    assert!(exif.contains_key("Model"));
    assert_eq!(exif.get("Model").map(|v| v.as_str()), Some("K800i"));
    assert!(!exif.contains_key("model"));
    assert!(exif.get("Mode").is_none());
}

#[test]
fn second_insert_replaces_the_value() {
    let mut exif = ExifData::new();
    exif.insert("Model".to_string(), "K800i".to_string());
    exif.insert("Flash".to_string(), "fired".to_string());
    exif.insert("Model".to_string(), "K810i".to_string());
    assert_eq!(exif.len(), 2);
    assert_eq!(exif.get("Model").map(|v| v.as_str()), Some("K810i"));
    assert_eq!(pairs(&exif), vec![pair("Model", "K810i"), pair("Flash", "fired")]);
}

#[test]
fn report_lines_become_attributes() {
    let exif = parse_exif_report("Model\tK800i\nOrientation\tTop-left\n");
    assert_eq!(pairs(&exif), vec![pair("Model", "K800i"), pair("Orientation", "Top-left")]);
}

#[test]
fn names_and_values_are_trimmed() {
    let exif = parse_exif_report("  Model \t K800i  \r\n\u{a0}X-Resolution\u{3000}\t\u{2003}72 \n");
    assert_eq!(pairs(&exif), vec![pair("Model", "K800i"), pair("X-Resolution", "72")]);
}

#[test]
fn inner_white_space_is_kept() {
    let exif = parse_exif_report("Software\tR1KG001     prgCXC1250210_GENERIC_W 0.0\n");
    assert_eq!(
        exif.get("Software").map(|v| v.as_str()),
        Some("R1KG001     prgCXC1250210_GENERIC_W 0.0")
    );
}

#[test]
fn lines_with_other_than_two_fields_are_discarded() {
    let exif = parse_exif_report("no tab here\na\tb\tc\n\nModel\tK800i\n\t\t\nlast line");
    assert_eq!(pairs(&exif), vec![pair("Model", "K800i")]);
}

#[test]
fn last_line_needs_no_line_end() {
    let exif = parse_exif_report("Model\tK800i");
    assert_eq!(pairs(&exif), vec![pair("Model", "K800i")]);
}

#[test]
fn empty_report_states_nothing() {
    assert_eq!(parse_exif_report("").len(), 0);
    assert_eq!(parse_exif_report("\n\n\n").len(), 0);
}

#[test]
fn empty_fields_state_an_empty_attribute() {
    let exif = parse_exif_report("\t\nName\t\n\tvalue\n");
    assert_eq!(pairs(&exif), vec![pair("", "value"), pair("Name", "")]);
}

#[test]
fn later_line_replaces_an_earlier_one() {
    let exif = parse_exif_report("Model\tK800i\nFlash\tfired\nModel\tK810i\n");
    assert_eq!(pairs(&exif), vec![pair("Model", "K810i"), pair("Flash", "fired")]);
}

#[test]
fn report_agrees_with_splitting_and_trimming() {
    let report = "Color Space\tsRGB\nbroken\n Date and Time \t 2008:12:11 13:36:33 \nA\tB\tC\nX\t\n";
    let mut expected = std::collections::HashMap::new();
    for line in report.split('\n').filter(|line| !line.is_empty()) {
        let fields: Vec<&str> = line.split('\t').collect();
        if fields.len() == 2 {
            expected.insert(fields[0].trim().to_owned(), fields[1].trim().to_owned());
        }
    }
    let exif = parse_exif_report(report);
    assert_eq!(exif.len(), expected.len());
    for (name, value) in &expected {
        assert_eq!(exif.get(name), Some(value));
    }
}

#[test]
fn white_space_is_what_the_standard_library_calls_so() {
    for n in 0..0x11_0000u32 {
        if let Some(c) = char::from_u32(n) {
            assert_eq!(is_blank_char(c), c.is_whitespace(), "for the character {:?}", c);
        }
    }
}

#[test]
fn pairs_and_back_give_the_same_attributes() {
    let mut exif = ExifData::new();
    exif.insert("Model".to_string(), "K800i".to_string());
    exif.insert("Flash".to_string(), "fired".to_string());
    exif.insert("Date and Time".to_string(), "2008:12:11 13:36:33".to_string());
    let back = ExifData::from_pairs(exif.pairs());
    assert_eq!(back.pairs(), exif.pairs());
    assert_eq!(back.len(), 3);
    assert_eq!(back.get("Flash").map(|v| v.as_str()), Some("fired"));
}

#[test]
fn later_pair_of_a_list_counts() {
    let exif = ExifData::from_pairs(vec![
        pair("Model", "K800i"),
        pair("Flash", "fired"),
        pair("Model", "K810i"),
    ]);
    assert_eq!(pairs(&exif), vec![pair("Model", "K810i"), pair("Flash", "fired")]);
    assert_eq!(ExifData::from_pairs(Vec::new()).len(), 0);
}
