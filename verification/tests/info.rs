use prpr::info::{info_from_csv, info_from_csv_rows, info_from_kv, info_from_txt, infer_diff, split_key_value, InfoError, NumericKey};

#[test]
fn info_text_fields() {
    let text = "#\nName: Foo\nLevel: IN Lv.15\nSong: bar.mp3\nAspectRatio: 1.5\nPicture: bg.png\nDesigner: me\n";
    let f = info_from_txt(text).unwrap();
    assert_eq!(f.name.as_deref(), Some("Foo"));
    assert_eq!(f.level.as_deref(), Some("IN Lv.15"));
    assert_eq!(f.difficulty, Some(15));
    assert_eq!(f.music.as_deref(), Some("bar.mp3"));
    assert_eq!(f.illustration.as_deref(), Some("bg.png"));
    assert_eq!(f.charter.as_deref(), Some("me"));
    assert_eq!(f.numbers, vec![(NumericKey::AspectRatio, "1.5".to_string())]);
    assert_eq!(f.chart, None);
}

#[test]
fn info_text_header() {
    assert_eq!(info_from_txt("").err(), Some(InfoError::MissingHeader));
    assert_eq!(info_from_txt("Name: x\n").err(), Some(InfoError::MissingHeader));
    assert!(info_from_txt("\u{feff}#\nName: x\n").is_ok());
    assert!(info_from_txt("\n\n#\n\nName: x\n\n").is_ok());
    assert!(info_from_txt("#").is_ok());
}

#[test]
fn info_text_bad_line() {
    assert_eq!(info_from_txt("#\nName=Foo\n").err(), Some(InfoError::BadLine));
    assert_eq!(info_from_txt("#\nName: ok\nbroken\n").err(), Some(InfoError::BadLine));
}

#[test]
fn info_text_crlf_and_trimmed_keys() {
    // the key before the first ": " is trimmed; the value is what follows
    let f = info_from_txt("#\r\n  Name : x\r\nComposer: y\r\n").unwrap();
    assert_eq!(f.name.as_deref(), Some("x"));
    let f = info_from_txt("#\r\n  Name: x\r\nComposer: y\r\n").unwrap();
    assert_eq!(f.name.as_deref(), Some("x"));
    assert_eq!(f.composer.as_deref(), Some("y"));
}

#[test]
fn info_skipped_and_unknown_keys() {
    let f = info_from_txt("#\nPath: 123\nNoteScale: 2\nGlobalAlpha: 1\nWhatever: 5\nLength: 10\n").unwrap();
    assert_eq!(f.name, None);
    assert_eq!(f.numbers, vec![]);
    assert_eq!(f.difficulty, None);
}

#[test]
fn info_later_keys_win_and_numbers_keep_order() {
    let f = info_from_txt("#\nName: a\nName: b\nBackgroundDim: 0.4\nAspectRatio: x\nLevel: Lv.3\nLevel: Lv.?\n").unwrap();
    assert_eq!(f.name.as_deref(), Some("b"));
    assert_eq!(
        f.numbers,
        vec![(NumericKey::BackgroundDim, "0.4".to_string()), (NumericKey::AspectRatio, "x".to_string())]
    );
    // a level without trailing digits keeps the earlier difficulty
    assert_eq!(f.difficulty, Some(3));
    assert_eq!(f.level.as_deref(), Some("Lv.?"));
}

#[test]
fn info_kv_csv_skips_blank_values() {
    let kvs = vec![
        ("Name".to_string(), "A".to_string()),
        ("Name".to_string(), "  ".to_string()),
        ("Charter".to_string(), "".to_string()),
    ];
    let f = info_from_kv(&kvs, true);
    assert_eq!(f.name.as_deref(), Some("A"));
    assert_eq!(f.charter, None);
    let f = info_from_kv(&kvs, false);
    assert_eq!(f.name.as_deref(), Some("  "));
    assert_eq!(f.charter.as_deref(), Some(""));
}

#[test]
fn infer_diff_values() {
    assert_eq!(infer_diff("IN Lv.15"), Some(15));
    assert_eq!(infer_diff("Lv.007"), Some(7));
    assert_eq!(infer_diff("12"), Some(12));
    assert_eq!(infer_diff("SP Lv.?"), None);
    assert_eq!(infer_diff(""), None);
    assert_eq!(infer_diff("4294967295"), Some(u32::MAX));
    assert_eq!(infer_diff("4294967296"), None);
    assert_eq!(infer_diff("99999999999"), None);
}

#[test]
fn split_at_first_separator() {
    assert_eq!(split_key_value("a: b: c"), Some(("a".to_string(), "b: c".to_string())));
    assert_eq!(split_key_value("a:b"), None);
    assert_eq!(split_key_value(": "), Some((String::new(), String::new())));
}

#[test]
fn info_csv_last_row_under_header() {
    let text = "Name,Level,Music,Path\nOld,EZ Lv.1,a.ogg,x\nFoo,IN Lv.13,b.ogg,y\n";
    let f = info_from_csv(text).unwrap();
    assert_eq!(f.name.as_deref(), Some("Foo"));
    assert_eq!(f.level.as_deref(), Some("IN Lv.13"));
    assert_eq!(f.difficulty, Some(13));
    assert_eq!(f.music.as_deref(), Some("b.ogg"));
}

#[test]
fn info_csv_blank_and_short_rows() {
    // a blank value is skipped; a short row pairs as far as it goes
    let f = info_from_csv("Name,Charter,Composer\nFoo,  \n").unwrap();
    assert_eq!(f.name.as_deref(), Some("Foo"));
    assert_eq!(f.charter, None);
    assert_eq!(f.composer, None);
    let f = info_from_csv("Name,Artist\n\"A, B\",C\n").unwrap();
    assert_eq!(f.name.as_deref(), Some("A, B"));
    assert_eq!(f.composer.as_deref(), Some("C"));
}

#[test]
fn info_csv_needs_a_row() {
    assert_eq!(info_from_csv("Name,Level\n").err(), Some(InfoError::NoRecords));
    assert_eq!(info_from_csv("").err(), Some(InfoError::NoRecords));
}

#[test]
fn info_csv_rows_pair_by_position() {
    let headers = vec!["Name".to_string(), "Chart".to_string(), "Image".to_string()];
    let row = vec!["X".to_string(), "c.json".to_string()];
    let f = info_from_csv_rows(&headers, &row);
    assert_eq!(f.name.as_deref(), Some("X"));
    assert_eq!(f.chart.as_deref(), Some("c.json"));
    assert_eq!(f.illustration, None);
}

#[test]
fn info_text_unicode_space_keys_and_lone_carriage_return() {
    let f = info_from_txt("#\n\u{3000}Name\u{a0}: x\r").unwrap();
    assert_eq!(f.name.as_deref(), Some("x\r"));
    let f = info_from_txt("#\nName: x\r\n").unwrap();
    assert_eq!(f.name.as_deref(), Some("x"));
}
