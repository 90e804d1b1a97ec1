use prpr::chart_info::{ChartFiles, ChartInfoEdit};
use prpr::fs::{patched_exists, patched_list_root, update_zip, update_zip_checked, FsError, Patches, ZipFileSystem};
use prpr::l10n::{bundle_for, initial_locale_order, lang_index, lang_tag, prefered_locale_order, ENGLISH, LANG_COUNT};
use std::io::{Cursor, Read, Write};
use zip::ZipArchive;
use zip::write::SimpleFileOptions;
use zip::ZipWriter;

fn zip_of(dirs: &[&str], files: &[(&str, &[u8])]) -> Vec<u8> {
    let mut w = ZipWriter::new(Cursor::new(Vec::new()));
    let options = SimpleFileOptions::default();
    for d in dirs {
        w.add_directory(*d, options).unwrap();
    }
    for (name, data) in files {
        w.start_file(*name, options).unwrap();
        w.write_all(data).unwrap();
    }
    w.finish().unwrap().into_inner()
}

#[test]
fn lang_table_round_trips() {
    for i in 0..LANG_COUNT {
        assert_eq!(lang_index(lang_tag(i)), Some(i));
    }
    assert_eq!(lang_tag(ENGLISH), "en-US");
    assert_eq!(lang_index("zh-CN"), Some(10));
    assert_eq!(lang_index("de-DE"), None);
    assert_eq!(lang_index("en-us"), None);
}

#[test]
fn locale_orders_end_in_english() {
    assert_eq!(initial_locale_order(None), vec![0]);
    assert_eq!(initial_locale_order(Some(3)), vec![3, 0]);
    assert_eq!(initial_locale_order(Some(0)), vec![0, 0]);
    assert_eq!(prefered_locale_order(Some(10), Some(3)), vec![10, 3, 0]);
    assert_eq!(prefered_locale_order(None, Some(3)), vec![3, 0]);
    assert_eq!(prefered_locale_order(Some(5), None), vec![5, 0]);
    assert_eq!(prefered_locale_order(None, None), vec![0]);
}

fn files(unlock: Option<&str>) -> ChartFiles {
    ChartFiles {
        chart: "chart.json".to_string(),
        music: "song.ogg".to_string(),
        illustration: "bg.png".to_string(),
        unlock_video: unlock.map(str::to_string),
    }
}

#[test]
fn chart_info_edit_starts_clean() {
    let e = ChartInfoEdit::new(files(None));
    assert!(!e.enable_unlock && !e.updated);
    assert!(e.chart.is_none() && e.music.is_none() && e.illustration.is_none() && e.unlock_video.is_none());
    let e = ChartInfoEdit::new(files(Some("u.mp4")));
    assert!(e.enable_unlock);
    assert!(e.patch_sources().is_empty());
}

#[test]
fn chart_info_edit_toggles_unlock() {
    let mut e = ChartInfoEdit::new(files(None));
    e.toggle_unlock();
    assert!(e.enable_unlock && e.updated);
    assert_eq!(e.info.unlock_video.as_deref(), Some("unlock.mp4"));
    e.toggle_unlock();
    assert!(!e.enable_unlock);
    assert_eq!(e.info.unlock_video, None);
}

#[test]
fn chart_info_edit_takes_files_and_plans_patches() {
    let mut e = ChartInfoEdit::new(files(None));
    assert_eq!(e.accept_file("music", "/tmp/a.ogg".to_string()), None);
    assert!(e.updated);
    assert_eq!(e.accept_file("unlock", "/tmp/u.mp4".to_string()), None);
    assert_eq!(e.unlock_video, None);
    assert_eq!(
        e.accept_file("avatar", "/tmp/me.png".to_string()),
        Some(("avatar".to_string(), "/tmp/me.png".to_string()))
    );
    assert_eq!(e.accept_file("chart", "/tmp/c.json".to_string()), None);
    e.toggle_unlock();
    assert_eq!(e.accept_file("unlock", "/tmp/u.mp4".to_string()), None);
    assert_eq!(
        e.patch_sources(),
        vec![
            ("chart.json".to_string(), "/tmp/c.json".to_string()),
            ("song.ogg".to_string(), "/tmp/a.ogg".to_string()),
            ("unlock.mp4".to_string(), "/tmp/u.mp4".to_string()),
        ]
    );
    let mut e = ChartInfoEdit::new(files(Some("intro.mp4")));
    e.accept_file("unlock", "/tmp/v.mp4".to_string());
    e.accept_file("illustration", "/tmp/i.png".to_string());
    assert_eq!(
        e.patch_sources(),
        vec![
            ("bg.png".to_string(), "/tmp/i.png".to_string()),
            ("intro.mp4".to_string(), "/tmp/v.mp4".to_string()),
        ]
    );
}

#[test]
fn patches_replace_and_list() {
    let mut p = Patches::new();
    p.insert("info.yml".to_string(), b"a".to_vec());
    p.insert("chart.json".to_string(), b"b".to_vec());
    p.insert("info.yml".to_string(), b"c".to_vec());
    assert_eq!(p.get("info.yml"), Some(&b"c".to_vec()));
    assert_eq!(p.get("music.ogg"), None);
    assert!(p.contains("chart.json"));
    assert_eq!(p.path_list(), vec!["info.yml".to_string(), "chart.json".to_string()]);
    assert!(patched_exists(false, &p, "chart.json"));
    assert!(patched_exists(true, &p, "music.ogg"));
    assert!(!patched_exists(false, &p, "music.ogg"));
}

#[test]
fn patched_listing_cuts_neighbouring_repeats() {
    let mut p = Patches::new();
    p.insert("info.yml".to_string(), Vec::new());
    p.insert("a.png".to_string(), Vec::new());
    let base = vec!["chart.json".to_string(), "info.yml".to_string()];
    assert_eq!(
        patched_list_root(base, &p),
        vec!["chart.json".to_string(), "info.yml".to_string(), "a.png".to_string()]
    );
    let base = vec!["a.png".to_string(), "info.yml".to_string(), "info.yml".to_string()];
    assert_eq!(
        patched_list_root(base, &p),
        vec!["a.png".to_string(), "info.yml".to_string(), "a.png".to_string()]
    );
}

#[test]
fn zip_with_one_top_directory_reads_under_it() {
    let bytes = zip_of(&["song/"], &[("song/info.yml", b"name: x"), ("song/sub/a.txt", b"1")]);
    let mut z = ZipFileSystem::new(bytes).unwrap();
    assert_eq!(z.list_root(), vec!["song/".to_string(), "song/info.yml".to_string()]);
    assert!(z.path_exists("info.yml"));
    assert!(!z.path_exists("song/info.yml"));
    assert_eq!(z.load_file("info.yml"), Ok(b"name: x".to_vec()));
    assert_eq!(z.load_file("sub/a.txt"), Ok(b"1".to_vec()));
    assert_eq!(z.load_file("missing"), Err(FsError::NotFound));
}

#[test]
fn zip_without_single_top_directory_reads_from_the_top() {
    let bytes = zip_of(&["a/", "b/"], &[("info.yml", b"x"), ("a/c.txt", b"y")]);
    let mut z = ZipFileSystem::new(bytes).unwrap();
    assert_eq!(z.list_root(), vec!["info.yml".to_string()]);
    assert_eq!(z.load_file("a/c.txt"), Ok(b"y".to_vec()));
    let bytes = zip_of(&[], &[("chart.json", b"{}")]);
    let mut z = ZipFileSystem::new(bytes).unwrap();
    assert_eq!(z.list_root(), vec!["chart.json".to_string()]);
    assert!(z.path_exists("chart.json"));
}

#[test]
fn zip_rejects_non_archives() {
    assert!(matches!(ZipFileSystem::new(b"not a zip".to_vec()), Err(FsError::Archive)));
}

fn entries_of(bytes: Vec<u8>) -> Vec<(String, Vec<u8>)> {
    let mut a = ZipArchive::new(Cursor::new(bytes)).unwrap();
    let mut out = Vec::new();
    for i in 0..a.len() {
        let mut f = a.by_index(i).unwrap();
        let mut data = Vec::new();
        f.read_to_end(&mut data).unwrap();
        out.push((f.name().to_string(), data));
    }
    out
}

#[test]
fn update_zip_replaces_patched_files_and_appends_patches() {
    let bytes = zip_of(&["song/"], &[("song/a.txt", b"old"), ("song/b.txt", b"keep"), ("../evil.txt", b"x")]);
    let mut archive = ZipArchive::new(Cursor::new(bytes)).unwrap();
    let mut p = Patches::new();
    p.insert("song/a.txt".to_string(), b"new".to_vec());
    p.insert("info.yml".to_string(), b"name: y".to_vec());
    let out = update_zip(&mut archive, &p).unwrap();
    assert_eq!(
        entries_of(out),
        vec![
            ("song/".to_string(), Vec::new()),
            ("song/b.txt".to_string(), b"keep".to_vec()),
            ("song/a.txt".to_string(), b"new".to_vec()),
            ("info.yml".to_string(), b"name: y".to_vec()),
        ]
    );
}

#[test]
fn update_zip_without_patches_copies() {
    let bytes = zip_of(&[], &[("chart.json", b"{}"), ("music.ogg", b"OggS")]);
    let mut archive = ZipArchive::new(Cursor::new(bytes)).unwrap();
    let out = update_zip(&mut archive, &Patches::new()).unwrap();
    assert_eq!(
        entries_of(out),
        vec![("chart.json".to_string(), b"{}".to_vec()), ("music.ogg".to_string(), b"OggS".to_vec())]
    );
}

#[test]
fn update_zip_deflates_files_and_gives_every_entry_its_mode() {
    let bytes = zip_of(&["song/"], &[("song/a.txt", b"aaaa")]);
    let mut archive = ZipArchive::new(Cursor::new(bytes)).unwrap();
    let mut p = Patches::new();
    p.insert("new.txt".to_string(), b"n".to_vec());
    let out = update_zip(&mut archive, &p).unwrap();
    let mut a = ZipArchive::new(Cursor::new(out)).unwrap();
    let mut seen = Vec::new();
    for i in 0..a.len() {
        let f = a.by_index(i).unwrap();
        seen.push((f.name().to_string(), f.compression(), f.unix_mode()));
    }
    assert_eq!(
        seen,
        vec![
            ("song/".to_string(), zip::CompressionMethod::Stored, Some(0o40755)),
            ("song/a.txt".to_string(), zip::CompressionMethod::Deflated, Some(0o100755)),
            ("new.txt".to_string(), zip::CompressionMethod::Deflated, Some(0o100755)),
        ]
    );
}

#[test]
fn update_zip_checked_refuses_names_too_long_for_a_header() {
    let bytes = zip_of(&[], &[("chart.json", b"{}")]);
    let mut archive = ZipArchive::new(Cursor::new(bytes)).unwrap();
    let mut p = Patches::new();
    p.insert("x".repeat(65536), b"data".to_vec());
    assert!(update_zip_checked(&mut archive, &p).is_none());
    let mut q = Patches::new();
    q.insert("y".repeat(65535), b"data".to_vec());
    let out = update_zip_checked(&mut archive, &q).unwrap().unwrap();
    let entries = entries_of(out);
    assert_eq!(entries.len(), 2);
    assert_eq!(entries[0], ("chart.json".to_string(), b"{}".to_vec()));
    assert_eq!(entries[1].0.len(), 65535);
    assert_eq!(entries[1].1, b"data".to_vec());
}

#[test]
fn update_zip_fails_on_a_patch_named_like_a_directory() {
    let bytes = zip_of(&["song/"], &[("song/a.txt", b"a")]);
    let mut archive = ZipArchive::new(Cursor::new(bytes)).unwrap();
    let mut p = Patches::new();
    p.insert("song/".to_string(), b"x".to_vec());
    assert_eq!(update_zip_checked(&mut archive, &p), Some(Err(FsError::Archive)));
}

#[test]
fn listed_root_entries_are_never_missing() {
    let bytes = zip_of(&["pack/"], &[("pack/info.yml", b"i"), ("pack/chart.json", b"c"), ("pack/x/y.png", b"p")]);
    let mut z = ZipFileSystem::new(bytes).unwrap();
    for name in z.list_root() {
        let path = name.strip_prefix("pack/").unwrap().to_string();
        assert_ne!(z.load_file(&path), Err(FsError::NotFound), "{name}");
    }
}

#[test]
fn first_bundle_with_the_message_answers() {
    let has = vec![true, false, true, false];
    assert_eq!(bundle_for(&vec![3, 2, 0], &has), Some(2));
    assert_eq!(bundle_for(&vec![1, 0], &has), Some(0));
    assert_eq!(bundle_for(&vec![1, 3], &has), None);
    assert_eq!(bundle_for(&vec![], &has), None);
}
