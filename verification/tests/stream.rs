use dedupe_utils::duplicates::{find_duplicates, DuplicateGroup};
use dedupe_utils::exif::ExifData;
use dedupe_utils::record::FileInfo;
use serde_json::Value;

/// One record as a line of the record stream.
fn to_line(info: &FileInfo) -> String {
    let mut object = serde_json::Map::new();
    object.insert("file_path".to_string(), Value::String(info.file_path.clone()));
    object.insert("hash".to_string(), Value::String(info.hash.clone()));
    let exif = match &info.exif_data {
        Some(exif) => {
            let mut attributes = serde_json::Map::new();
            for (name, value) in exif.pairs() {
                attributes.insert(name, Value::String(value));
            }
            Value::Object(attributes)
        }
        None => Value::Null,
    };
    object.insert("exif_data".to_string(), exif);
    serde_json::to_string(&Value::Object(object)).unwrap()
}

/// The record that a line of the record stream holds.
fn from_line(line: &str) -> FileInfo {
    let value: Value = serde_json::from_str(line).unwrap();
    let text = |key: &str| value.get(key).and_then(Value::as_str).unwrap().to_string();
    let exif_data = match value.get("exif_data") {
        Some(Value::Object(attributes)) => Some(ExifData::from_pairs(
            attributes
                .iter()
                .map(|(name, value)| (name.clone(), value.as_str().unwrap().to_string()))
                .collect(),
        )),
        _ => None,
    };
    FileInfo { file_path: text("file_path"), hash: text("hash"), exif_data }
}

fn sorted(exif: &ExifData) -> Vec<(String, String)> {
    let mut pairs = exif.pairs();
    pairs.sort();
    pairs
}

fn group_line(group: &DuplicateGroup) -> String {
    let mut object = serde_json::Map::new();
    object.insert("hash".to_string(), Value::String(group.hash.clone()));
    let files = group.files.iter().map(|f| Value::String(f.clone())).collect();
    object.insert("files".to_string(), Value::Array(files));
    object.insert("count".to_string(), Value::from(group.count));
    serde_json::to_string(&Value::Object(object)).unwrap()
}

#[test]
fn record_with_metadata_survives_the_stream() {
    let mut exif = ExifData::new();
    exif.insert("Date and Time".to_string(), "2008:12:11 13:36:33".to_string());
    exif.insert("Model".to_string(), "K800i".to_string());
    exif.insert("Software".to_string(), "R1KG001 \"x\" \\ \t end".to_string());
    let info = FileInfo {
        file_path: "/home/k/pics/dsc04143.jpg".to_string(),
        hash: "275633487630418693378022278012862368828".to_string(),
        exif_data: Some(exif),
    };
    let line = to_line(&info);
    assert!(!line.contains('\n'));
    let back = from_line(&line);
    assert_eq!(back.file_path, info.file_path);
    assert_eq!(back.hash, info.hash);
    assert_eq!(
        sorted(back.exif_data.as_ref().unwrap()),
        sorted(info.exif_data.as_ref().unwrap())
    );
    assert_eq!(back.get_exif_date(), info.get_exif_date());
}

#[test]
fn record_without_metadata_survives_the_stream() {
    let info = FileInfo {
        file_path: "/home/k/pics/a b.jpg".to_string(),
        hash: "1".to_string(),
        exif_data: None,
    };
    let line = to_line(&info);
    assert_eq!(line, r#"{"exif_data":null,"file_path":"/home/k/pics/a b.jpg","hash":"1"}"#);
    let back = from_line(&line);
    assert_eq!(back.file_path, info.file_path);
    assert_eq!(back.hash, info.hash);
    assert!(back.exif_data.is_none());
}

#[test]
fn record_with_absent_metadata_is_read() {
    let back = from_line(r#"{"file_path":"/a","hash":"2"}"#);
    assert_eq!(back.file_path, "/a");
    assert_eq!(back.hash, "2");
    assert!(back.exif_data.is_none());
}

#[test]
fn record_with_empty_metadata_keeps_it() {
    let back = from_line(r#"{"file_path":"/a","hash":"2","exif_data":{}}"#);
    assert_eq!(back.exif_data.as_ref().map(|e| e.len()), Some(0));
    assert!(!back.has_date_key());
}

#[test]
fn groups_are_written_one_per_line() {
    let lines = [
        r#"{"file_path":"/a","hash":"x","exif_data":null}"#,
        r#"{"file_path":"/b","hash":"y"}"#,
        r#"{"file_path":"/c","hash":"x","exif_data":{"Model":"K800i"}}"#,
    ];
    let records: Vec<FileInfo> = lines.iter().map(|line| from_line(line)).collect();
    let written: Vec<String> = find_duplicates(&records).iter().map(group_line).collect();
    assert_eq!(written, vec![r#"{"count":2,"files":["/a","/c"],"hash":"x"}"#]);
}
