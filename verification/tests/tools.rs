use prpr::samples::{auto_offset_note_kind, cached_chart_ids, count_csv_data_rows, listing_label, rpe_note_kind, NoteClass};
use prpr::note::NoteKind;
use prpr::csv::{csv_escape, csv_optional_bool, get_col, parse_optional_bool, split_csv_line};
use prpr::methods::{audio_method_description, note_method_description, AudioMethod, NoteMethod};
use prpr::report::{abs_lag_colorscale, html_escape, js_escape, mean_score_colorscale};
use prpr::retry::{attempts_for, next_step, should_retry_status, Outcome, RetryStep};
use prpr::study::{grouped_counts, HistogramBucket};

#[test]
fn csv_split_plain_and_quoted() {
    assert_eq!(split_csv_line("a,b,c"), vec!["a", "b", "c"]);
    assert_eq!(split_csv_line(""), vec![""]);
    assert_eq!(split_csv_line("a,"), vec!["a", ""]);
    assert_eq!(split_csv_line("\"x,y\",z"), vec!["x,y", "z"]);
    assert_eq!(split_csv_line("\"say \"\"hi\"\"\",2"), vec!["say \"hi\"", "2"]);
}

#[test]
fn csv_escape_values() {
    assert_eq!(csv_escape("plain"), "plain");
    assert_eq!(csv_escape("a,b"), "\"a,b\"");
    assert_eq!(csv_escape("say \"hi\""), "\"say \"\"hi\"\"\"");
    assert_eq!(csv_escape("two\nlines"), "\"two\nlines\"");
    assert_eq!(csv_escape("cr\r"), "\"cr\r\"");
}

#[test]
fn csv_escape_then_split_gives_field_back() {
    for field in ["plain", "a,b", "q\"q", "", "x\"\",y"] {
        let line = format!("{},{}", csv_escape(field), csv_escape("next"));
        assert_eq!(split_csv_line(&line), vec![field.to_string(), "next".to_string()]);
    }
}

#[test]
fn csv_columns_by_header() {
    let headers = vec!["id".to_string(), "name".to_string(), "id".to_string()];
    let cols = vec!["1".to_string(), "n".to_string()];
    assert_eq!(get_col(&headers, &cols, "id"), Some("1"));
    assert_eq!(get_col(&headers, &cols, "name"), Some("n"));
    assert_eq!(get_col(&headers, &cols, "missing"), None);
    let short = vec!["1".to_string()];
    assert_eq!(get_col(&headers, &short, "name"), None);
}

#[test]
fn csv_optional_bools() {
    for v in [Some(true), Some(false), None] {
        assert_eq!(parse_optional_bool(csv_optional_bool(v)), v);
    }
    assert_eq!(csv_optional_bool(Some(true)), "true");
    assert_eq!(csv_optional_bool(None), "");
    assert_eq!(parse_optional_bool("TRUE"), None);
    assert_eq!(parse_optional_bool("yes"), None);
}

#[test]
fn html_and_js_escapes() {
    assert_eq!(html_escape("<a href=\"x\">&</a>"), "&lt;a href=&quot;x&quot;&gt;&amp;&lt;/a&gt;");
    assert_eq!(html_escape("plain"), "plain");
    assert_eq!(js_escape("it's"), "it\\'s");
    assert_eq!(js_escape("a\\b"), "ab");
    assert_eq!(js_escape("\\'"), "\\'");
}

#[test]
fn colorscales() {
    assert!(mean_score_colorscale().starts_with("[[0.00, '#313695']"));
    assert!(abs_lag_colorscale().ends_with("[1.00, '#08306b']]"));
}

#[test]
fn histogram_buckets() {
    let all = HistogramBucket::all();
    assert_eq!(all.len(), 4);
    let keys: Vec<&str> = all.iter().map(|b| b.key()).collect();
    assert_eq!(keys, vec!["all", "listed", "unlisted", "unknown"]);
    assert_eq!(HistogramBucket::Listed.label(), "listed");
    for listed in [Some(true), Some(false), None] {
        assert!(HistogramBucket::All.includes(listed));
        let specific = all[1..].iter().filter(|b| b.includes(listed)).count();
        assert_eq!(specific, 1);
    }
    assert!(HistogramBucket::Unknown.includes(None));
    assert!(!HistogramBucket::Listed.includes(Some(false)));
}

#[test]
fn retry_statuses() {
    assert!(should_retry_status(429));
    assert!(should_retry_status(500));
    assert!(should_retry_status(503));
    assert!(should_retry_status(599));
    assert!(!should_retry_status(600));
    assert!(!should_retry_status(404));
    assert!(!should_retry_status(200));
}

#[test]
fn retry_steps() {
    assert_eq!(attempts_for(0), 1);
    assert_eq!(attempts_for(3), 3);
    assert_eq!(next_step(1, 3, Outcome::Response(200)), RetryStep::Deliver);
    assert_eq!(next_step(1, 3, Outcome::Response(503)), RetryStep::RetryAfter(150));
    assert_eq!(next_step(2, 3, Outcome::Failed), RetryStep::RetryAfter(300));
    assert_eq!(next_step(3, 3, Outcome::Response(503)), RetryStep::Deliver);
    assert_eq!(next_step(3, 3, Outcome::Failed), RetryStep::GiveUp);
}

#[test]
fn retry_loop_makes_at_most_the_attempts() {
    // every try fails: the loop waits after each try but the last
    let attempts = attempts_for(4);
    let mut waits = Vec::new();
    let mut attempt = 1;
    loop {
        match next_step(attempt, attempts, Outcome::Failed) {
            RetryStep::RetryAfter(ms) => {
                waits.push(ms);
                attempt += 1;
            }
            RetryStep::GiveUp => break,
            RetryStep::Deliver => unreachable!(),
        }
    }
    assert_eq!(attempt, 4);
    assert_eq!(waits, vec![150, 300, 450]);
}

#[test]
fn method_descriptions() {
    assert_eq!(
        audio_method_description(AudioMethod::Superflux),
        "superflux (recommended; lowest measured hit-sound timing bias)"
    );
    assert_eq!(audio_method_description(AudioMethod::Spectral), "spectral flux (diagnostic; tends to report late peaks)");
    assert_eq!(audio_method_description(AudioMethod::Energy), "energy diff (diagnostic; simple and less robust for music)");
    assert_eq!(
        note_method_description(NoteMethod::PreprocessedGaussian),
        "preprocessed gaussian (recommended; uses note kinds)"
    );
    assert_eq!(note_method_description(NoteMethod::Gaussian), "gaussian (diagnostic; ignores note kinds)");
}

#[test]
fn cached_ids_are_numeric_folders() {
    let entries = vec![
        ("12".to_string(), true),
        ("abc".to_string(), true),
        ("7".to_string(), false),
        ("-3".to_string(), true),
        ("+5".to_string(), true),
        ("12".to_string(), true),
        ("99999999999".to_string(), true),
    ];
    let ids: Vec<i32> = cached_chart_ids(&entries).into_iter().collect();
    assert_eq!(ids, vec![-3, 5, 12]);
}

#[test]
fn data_rows_skip_header_and_blank_lines() {
    assert_eq!(count_csv_data_rows("id,score\n1,2\n\n   \n3,4\n"), 2);
    assert_eq!(count_csv_data_rows("id,score\n"), 0);
    assert_eq!(count_csv_data_rows(""), 0);
    assert_eq!(count_csv_data_rows("a\r\nb\r\nc"), 2);
}

#[test]
fn note_classes_and_labels() {
    assert_eq!(rpe_note_kind(1), NoteClass::Tap);
    assert_eq!(rpe_note_kind(2), NoteClass::Hold);
    assert_eq!(rpe_note_kind(3), NoteClass::Flick);
    assert_eq!(rpe_note_kind(4), NoteClass::Drag);
    assert_eq!(rpe_note_kind(9), NoteClass::Tap);
    assert_eq!(auto_offset_note_kind(&NoteKind::Flick), NoteClass::Flick);
    assert_eq!(auto_offset_note_kind(&NoteKind::Click), NoteClass::Tap);
    assert_eq!(listing_label(Some(true)), "listed");
    assert_eq!(listing_label(Some(false)), "unlisted");
    assert_eq!(listing_label(None), "unknown");
}

#[test]
fn grouped_counts_per_series() {
    let rows = vec![(Some(0), Some(true)), (Some(2), Some(false)), (None, Some(true)), (Some(2), None), (Some(2), Some(true))];
    let c = grouped_counts(3, &rows);
    assert_eq!(c, vec![vec![1, 0, 3], vec![1, 0, 1], vec![0, 0, 1], vec![0, 0, 1]]);
    assert_eq!(grouped_counts(2, &vec![]), vec![vec![0, 0]; 4]);
}
