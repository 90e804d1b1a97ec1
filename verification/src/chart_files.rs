//! Which files of a chart archive are its chart, its music and its
//! illustration, when its metadata does not say.
//!
//! A file's kind is given by its extension (after the last `.`, in any
//! case). A file named by the metadata and present is kept; otherwise the
//! first file of the right kind in the archive's listing is taken.
//!
//! The metadata itself is looked for in a fixed list of files, in order.

use vstd::prelude::*;
use crate::text::{chars_of, str_eq, string_of};

verus! {

broadcast use vstd::seq_lib::group_seq_properties;

/// What a file of a chart archive holds, by its extension.
#[derive(Clone, Copy, Debug, PartialEq, Eq, Structural)]
pub enum FileKind {
    /// `json` or `pec`.
    Chart,
    /// `mp3`, `ogg`, `wav`, `flac` or `aac`.
    Music,
    /// `png`, `jpg`, `jpeg`, `bmp`, `gif`, `webp`, `avif` or `ppm`.
    Illustration,
    Other,
}

/// `c` in ASCII lower case.
pub open spec fn ascii_lower(c: char) -> char {
    if 'A' <= c <= 'Z' {
        ((c as u32) + 32) as char
    } else {
        c
    }
}

/// Where the last `.` of `s` before index `end` is.
pub open spec fn last_dot(s: Seq<char>, end: int) -> Option<int>
    decreases end,
{
    if end <= 0 {
        None
    } else if s[end - 1] == '.' {
        Some(end - 1)
    } else {
        last_dot(s, end - 1)
    }
}

/// The extension of a file name, lower-cased: what follows its last `.`.
pub open spec fn extension(name: Seq<char>) -> Option<Seq<char>> {
    match last_dot(name, name.len() as int) {
        Some(i) => Some(name.skip(i + 1).map_values(|c: char| ascii_lower(c))),
        None => None,
    }
}

/// The kind of an extension.
pub open spec fn kind_of_extension(e: Seq<char>) -> FileKind {
    if e == "json"@ || e == "pec"@ {
        FileKind::Chart
    } else if e == "mp3"@ || e == "ogg"@ || e == "wav"@ || e == "flac"@ || e == "aac"@ {
        FileKind::Music
    } else if e == "png"@ || e == "jpg"@ || e == "jpeg"@ || e == "bmp"@ || e == "gif"@ || e
        == "webp"@ || e == "avif"@ || e == "ppm"@ {
        FileKind::Illustration
    } else {
        FileKind::Other
    }
}

/// The kind of a file, by its name.
pub open spec fn spec_file_kind(name: Seq<char>) -> FileKind {
    match extension(name) {
        Some(e) => kind_of_extension(e),
        None => FileKind::Other,
    }
}

proof fn lemma_last_dot(s: Seq<char>, end: int)
    requires
        0 <= end <= s.len(),
    ensures
        last_dot(s, end) matches Some(i) ==> 0 <= i < end && s[i] == '.' && forall|j: int|
            i < j < end ==> s[j] != '.',
        last_dot(s, end) is None ==> forall|j: int| 0 <= j < end ==> s[j] != '.',
    decreases end,
{
    if end > 0 && s[end - 1] != '.' {
        lemma_last_dot(s, end - 1);
    }
}

/// The extension of a name that ends in `.` and a text without `.` is
/// that text, lower-cased.
pub proof fn lemma_extension_of(stem: Seq<char>, ext: Seq<char>)
    requires
        forall|i: int| 0 <= i < ext.len() ==> ext[i] != '.',
    ensures
        extension(stem + seq!['.'] + ext) == Some(ext.map_values(|c: char| ascii_lower(c))),
{
    let name = stem + seq!['.'] + ext;
    let d = stem.len() as int;
    assert forall|i: int| d < i < name.len() implies name[i] != '.' by {
        assert(name[i] == ext[i - d - 1]);
    }
    lemma_last_dot_skips(name, d, name.len() as int);
    assert(name[d] == '.');
    assert(last_dot(name, d + 1) == Some(d));
    assert(name.skip(d + 1) =~= ext);
}

proof fn lemma_last_dot_skips(name: Seq<char>, d: int, end: int)
    requires
        0 <= d < end <= name.len(),
        forall|i: int| d < i < name.len() ==> name[i] != '.',
    ensures
        last_dot(name, end) == last_dot(name, d + 1),
    decreases end,
{
    if end > d + 1 {
        lemma_last_dot_skips(name, d, end - 1);
    }
}

/// A file's kind by its extension, in any case: `json` and `pec` a chart;
/// `mp3`, `ogg`, `wav`, `flac` and `aac` music; `png`, `jpg`, `jpeg`,
/// `bmp`, `gif`, `webp`, `avif` and `ppm` an illustration; any other
/// extension, or none, something else.
pub proof fn lemma_file_kinds(stem: Seq<char>, ext: Seq<char>)
    requires
        forall|i: int| 0 <= i < ext.len() ==> ext[i] != '.',
    ensures
        ({
            let e = ext.map_values(|c: char| ascii_lower(c));
            let k = spec_file_kind(stem + seq!['.'] + ext);
            &&& (e == "json"@ || e == "pec"@) ==> k == FileKind::Chart
            &&& (e == "mp3"@ || e == "ogg"@ || e == "wav"@ || e == "flac"@ || e == "aac"@) ==> k == FileKind::Music
            &&& (e == "png"@ || e == "jpg"@ || e == "jpeg"@ || e == "bmp"@ || e == "gif"@ || e == "webp"@
                || e == "avif"@ || e == "ppm"@) ==> k == FileKind::Illustration
            &&& !(e == "json"@ || e == "pec"@ || e == "mp3"@ || e == "ogg"@ || e == "wav"@ || e == "flac"@
                || e == "aac"@ || e == "png"@ || e == "jpg"@ || e == "jpeg"@ || e == "bmp"@ || e == "gif"@
                || e == "webp"@ || e == "avif"@ || e == "ppm"@) ==> k == FileKind::Other
        }),
        (forall|i: int| 0 <= i < stem.len() ==> stem[i] != '.') ==> spec_file_kind(stem) == FileKind::Other,
{
    lemma_extension_of(stem, ext);
    lemma_last_dot(stem, stem.len() as int);
    reveal_strlit("json");
    reveal_strlit("pec");
    reveal_strlit("mp3");
    reveal_strlit("ogg");
    reveal_strlit("wav");
    reveal_strlit("flac");
    reveal_strlit("aac");
    reveal_strlit("png");
    reveal_strlit("jpg");
    reveal_strlit("jpeg");
    reveal_strlit("bmp");
    reveal_strlit("gif");
    reveal_strlit("webp");
    reveal_strlit("avif");
    reveal_strlit("ppm");
    // Extensions of one length differ in their first letter, or else in
    // their second.
    assert("json"@.len() == 4 && "json"@[0] == 'j');
    assert("pec"@.len() == 3 && "pec"@[0] == 'p' && "pec"@[1] == 'e');
    assert("mp3"@.len() == 3 && "mp3"@[0] == 'm');
    assert("ogg"@.len() == 3 && "ogg"@[0] == 'o');
    assert("wav"@.len() == 3 && "wav"@[0] == 'w');
    assert("flac"@.len() == 4 && "flac"@[0] == 'f');
    assert("aac"@.len() == 3 && "aac"@[0] == 'a');
    assert("png"@.len() == 3 && "png"@[0] == 'p' && "png"@[1] == 'n');
    assert("jpg"@.len() == 3 && "jpg"@[0] == 'j');
    assert("jpeg"@.len() == 4 && "jpeg"@[0] == 'j' && "jpeg"@[1] == 'p');
    assert("bmp"@.len() == 3 && "bmp"@[0] == 'b');
    assert("gif"@.len() == 3 && "gif"@[0] == 'g');
    assert("webp"@.len() == 4 && "webp"@[0] == 'w');
    assert("avif"@.len() == 4 && "avif"@[0] == 'a');
    assert("ppm"@.len() == 3 && "ppm"@[0] == 'p' && "ppm"@[1] == 'p');
}

/// A slice of `chars` from `start`, lower-cased, as a `String`.
fn lower_tail(chars: &Vec<char>, start: usize) -> (s: String)
    requires
        start <= chars.len(),
    ensures
        s@ == chars@.skip(start as int).map_values(|c: char| ascii_lower(c)),
{
    let mut out: Vec<char> = Vec::new();
    let mut i = start;
    while i < chars.len()
        invariant
            start <= i <= chars.len(),
            out@ == chars@.subrange(start as int, i as int).map_values(|c: char| ascii_lower(c)),
        decreases chars.len() - i,
    {
        let c = chars[i];
        let l = if 'A' <= c && c <= 'Z' {
            ((c as u8) + 32) as char
        } else {
            c
        };
        out.push(l);
        i = i + 1;
        assert(out@ =~= chars@.subrange(start as int, i as int).map_values(
            |c: char| ascii_lower(c),
        ));
    }
    assert(chars@.subrange(start as int, chars.len() as int) =~= chars@.skip(start as int));
    string_of(&out)
}

/// The kind of a file, by the extension after the last `.` of its name in
/// any case.
pub fn file_kind(name: &str) -> (k: FileKind)
    ensures
        k == spec_file_kind(name@),
{
    let chars = chars_of(name);
    let mut end = chars.len();
    proof {
        lemma_last_dot(name@, name@.len() as int);
    }
    while end > 0 && chars[end - 1] != '.'
        invariant
            end <= chars.len(),
            chars@ == name@,
            last_dot(name@, name@.len() as int) == last_dot(name@, end as int),
        decreases end,
    {
        end = end - 1;
    }
    if end == 0 {
        return FileKind::Other;
    }
    let ext = lower_tail(&chars, end);
    let e = ext.as_str();
    if str_eq(e, "json") || str_eq(e, "pec") {
        FileKind::Chart
    } else if str_eq(e, "mp3") || str_eq(e, "ogg") || str_eq(e, "wav") || str_eq(e, "flac")
        || str_eq(e, "aac") {
        FileKind::Music
    } else if str_eq(e, "png") || str_eq(e, "jpg") || str_eq(e, "jpeg") || str_eq(e, "bmp")
        || str_eq(e, "gif") || str_eq(e, "webp") || str_eq(e, "avif") || str_eq(e, "ppm") {
        FileKind::Illustration
    } else {
        FileKind::Other
    }
}

/// The first of `files` of kind `k`.
pub open spec fn first_of_kind(files: Seq<Seq<char>>, k: FileKind) -> Option<Seq<char>>
    decreases files.len(),
{
    if files.len() == 0 {
        None
    } else if spec_file_kind(files[0]) == k {
        Some(files[0])
    } else {
        first_of_kind(files.drop_first(), k)
    }
}

/// The views of optional strings.
pub open spec fn opt_str(s: Option<String>) -> Option<Seq<char>> {
    match s {
        Some(x) => Some(x@),
        None => None,
    }
}

/// The file already chosen, else the first of `files` of kind `k`.
pub open spec fn spec_pick(current: Option<Seq<char>>, files: Seq<Seq<char>>, k: FileKind) -> Option<
    Seq<char>,
> {
    match current {
        Some(c) => Some(c),
        None => first_of_kind(files, k),
    }
}

/// Keeps the file already chosen, else takes the first of `files` of kind
/// `k`.
pub fn pick_file(current: Option<String>, files: &[String], k: FileKind) -> (r: Option<String>)
    ensures
        opt_str(r) == spec_pick(opt_str(current), files@.map_values(|f: String| f@), k),
{
    let ghost fs = files@.map_values(|f: String| f@);
    let mut status = current;
    let mut i: usize = 0;
    assert(fs.skip(0) =~= fs);
    while i < files.len()
        invariant
            i <= files.len(),
            fs == files@.map_values(|f: String| f@),
            spec_pick(opt_str(current), fs, k) == spec_pick(opt_str(status), fs.skip(i as int), k),
        decreases files.len() - i,
    {
        proof {
            assert(fs.skip(i as int)[0] == files@[i as int]@);
            assert(fs.skip(i as int).drop_first() =~= fs.skip(i + 1));
        }
        if file_kind(files[i].as_str()) == k {
            if status.is_none() {
                status = Some(files[i].clone());
            }
        }
        i = i + 1;
    }
    status
}

/// The format a metadata file is written in.
#[derive(Clone, Copy, Debug, PartialEq, Eq, Structural)]
pub enum InfoFormat {
    Yaml,
    /// `#`, then `Key: Value` lines.
    Text,
    /// A header row of keys and rows of values.
    Csv,
}

/// The files a chart's metadata is looked for in, in the order they are
/// tried, each with its format: the first that loads is read, and when
/// none does the metadata is inferred from the listing.
pub open spec fn spec_info_candidates() -> Seq<(Seq<char>, InfoFormat)> {
    seq![
        (":info"@, InfoFormat::Yaml),
        ("info.yml"@, InfoFormat::Yaml),
        ("info.txt"@, InfoFormat::Text),
        ("info.csv"@, InfoFormat::Csv),
    ]
}

/// The `k`-th file a chart's metadata is looked for in, with its format;
/// none past the last.
pub fn info_candidate(k: usize) -> (r: Option<(&'static str, InfoFormat)>)
    ensures
        k < spec_info_candidates().len() ==> (r matches Some((p, f)) && (p@, f) == spec_info_candidates()[k as int]),
        k >= spec_info_candidates().len() ==> r is None,
{
    if k == 0 {
        Some((":info", InfoFormat::Yaml))
    } else if k == 1 {
        Some(("info.yml", InfoFormat::Yaml))
    } else if k == 2 {
        Some(("info.txt", InfoFormat::Text))
    } else if k == 3 {
        Some(("info.csv", InfoFormat::Csv))
    } else {
        None
    }
}

} // verus!
