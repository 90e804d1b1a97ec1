//! The text forms of a chart's metadata: a `#` line, then `Key: Value`
//! lines; or a comma-separated table whose last row holds the values under
//! the header's names.
//!
//! Keys name the chart's fields (some under several names); unknown keys
//! are ignored. A `Level` also sets the difficulty from the digits at its
//! end. The aspect ratio and background dim are numbers, which the caller
//! parses: they are kept as text, in the order they came.

use vstd::prelude::*;
use crate::text::{chars_of, lines_of, str_eq, str_lines, str_trim, string_of, trimmed};

verus! {

broadcast use vstd::seq_lib::group_seq_properties;

/// Why a metadata text was refused.
#[derive(Clone, Copy, Debug, PartialEq, Eq, Structural)]
pub enum InfoError {
    /// The first non-empty line is not `#`.
    MissingHeader,
    /// A line after the first has no `": "`.
    BadLine,
    /// A table does not read as comma-separated values.
    Csv,
    /// A table has no row after its header.
    NoRecords,
}

/// A metadata field that holds a number.
#[derive(Clone, Copy, Debug, PartialEq, Eq, Structural)]
pub enum NumericKey {
    AspectRatio,
    BackgroundDim,
}

/// The fields that a metadata text sets; `None` where it sets nothing.
pub struct InfoFields {
    pub name: Option<String>,
    pub music: Option<String>,
    pub chart: Option<String>,
    pub illustration: Option<String>,
    pub level: Option<String>,
    pub illustrator: Option<String>,
    pub composer: Option<String>,
    pub charter: Option<String>,
    /// The number at the end of the last `Level` that ends in one.
    pub difficulty: Option<u32>,
    /// The texts of the numeric fields, in order.
    pub numbers: Vec<(NumericKey, String)>,
}

/// What the fields of a metadata text hold.
pub struct InfoFieldsView {
    pub name: Option<Seq<char>>,
    pub music: Option<Seq<char>>,
    pub chart: Option<Seq<char>>,
    pub illustration: Option<Seq<char>>,
    pub level: Option<Seq<char>>,
    pub illustrator: Option<Seq<char>>,
    pub composer: Option<Seq<char>>,
    pub charter: Option<Seq<char>>,
    pub difficulty: Option<u32>,
    pub numbers: Seq<(NumericKey, Seq<char>)>,
}

/// The view of an optional string.
pub open spec fn opt_view(s: Option<String>) -> Option<Seq<char>> {
    match s {
        Some(x) => Some(x@),
        None => None,
    }
}

impl View for InfoFields {
    type V = InfoFieldsView;

    open spec fn view(&self) -> InfoFieldsView {
        InfoFieldsView {
            name: opt_view(self.name),
            music: opt_view(self.music),
            chart: opt_view(self.chart),
            illustration: opt_view(self.illustration),
            level: opt_view(self.level),
            illustrator: opt_view(self.illustrator),
            composer: opt_view(self.composer),
            charter: opt_view(self.charter),
            difficulty: self.difficulty,
            numbers: self.numbers@.map_values(|p: (NumericKey, String)| (p.0, p.1@)),
        }
    }
}

/// No field set.
pub open spec fn no_fields() -> InfoFieldsView {
    InfoFieldsView {
        name: None,
        music: None,
        chart: None,
        illustration: None,
        level: None,
        illustrator: None,
        composer: None,
        charter: None,
        difficulty: None,
        numbers: Seq::empty(),
    }
}

/// Whether `c` is an ASCII digit.
pub open spec fn is_digit(c: char) -> bool {
    '0' <= c <= '9'
}

/// The longest run of ASCII digits at the end of `s`.
pub open spec fn trailing_digits(s: Seq<char>) -> Seq<char>
    decreases s.len(),
{
    if s.len() == 0 || !is_digit(s.last()) {
        Seq::empty()
    } else {
        trailing_digits(s.drop_last()).push(s.last())
    }
}

/// The number that decimal digits `ds` write.
pub open spec fn digits_value(ds: Seq<char>) -> nat
    decreases ds.len(),
{
    if ds.len() == 0 {
        0
    } else {
        (10 * digits_value(ds.drop_last()) + (ds.last() as int - '0' as int)) as nat
    }
}

/// The difficulty that a level names: the number its trailing digits
/// write, when there are any and it fits in `u32`.
pub open spec fn spec_infer_diff(level: Seq<char>) -> Option<u32> {
    let ds = trailing_digits(level);
    if ds.len() > 0 && digits_value(ds) <= u32::MAX {
        Some(digits_value(ds) as u32)
    } else {
        None
    }
}

proof fn lemma_trailing_digits(s: Seq<char>)
    ensures
        trailing_digits(s).len() <= s.len(),
        trailing_digits(s) == s.skip(s.len() - trailing_digits(s).len()),
        forall|i: int| 0 <= i < trailing_digits(s).len() ==> is_digit(#[trigger] trailing_digits(s)[i]),
        trailing_digits(s).len() < s.len() ==> !is_digit(s[s.len() - trailing_digits(s).len() - 1]),
    decreases s.len(),
{
    if s.len() > 0 && is_digit(s.last()) {
        lemma_trailing_digits(s.drop_last());
        let d = trailing_digits(s.drop_last());
        assert(d.push(s.last()) =~= s.skip(s.len() - d.len() - 1));
    } else {
        assert(s.skip(s.len() as int) =~= Seq::<char>::empty());
    }
}

pub(crate) proof fn lemma_digits_value_prefix(ds: Seq<char>, i: int)
    requires
        0 <= i <= ds.len(),
        forall|j: int| 0 <= j < ds.len() ==> is_digit(#[trigger] ds[j]),
    ensures
        digits_value(ds.take(i)) <= digits_value(ds),
    decreases ds.len() - i,
{
    if i < ds.len() {
        lemma_digits_value_prefix(ds, i + 1);
        assert(ds.take(i + 1).drop_last() =~= ds.take(i));
    } else {
        assert(ds.take(i) =~= ds);
    }
}

/// The difficulty that a level names: the number its trailing ASCII digits
/// write, when there are any and it fits in `u32`.
pub fn infer_diff(level: &str) -> (d: Option<u32>)
    ensures
        d == spec_infer_diff(level@),
{
    let cs = chars_of(level);
    let mut start = cs.len();
    proof {
        lemma_trailing_digits(level@);
    }
    let ghost n = trailing_digits(level@).len();
    while start > 0 && '0' <= cs[start - 1] && cs[start - 1] <= '9'
        invariant
            start <= cs.len(),
            cs@ == level@,
            n == trailing_digits(level@).len(),
            cs.len() - start <= n,
            trailing_digits(level@) == level@.skip(level@.len() - n),
            forall|i: int| 0 <= i < n ==> is_digit(#[trigger] trailing_digits(level@)[i]),
            n < level@.len() ==> !is_digit(level@[level@.len() - n - 1]),
        decreases start,
    {
        proof {
            if cs.len() - start == n {
                assert(!is_digit(level@[start - 1]));
            }
        }
        start = start - 1;
    }
    proof {
        if start > 0 {
            assert(cs.len() - start == n) by {
                if cs.len() - start < n {
                    let k = start - 1 - (cs.len() - n);
                    assert(trailing_digits(level@)[k] == level@[start - 1]);
                }
            }
        } else {
            assert(n <= cs.len());
        }
    }
    let ghost ds = trailing_digits(level@);
    assert(ds =~= cs@.skip(start as int));
    if start == cs.len() {
        return None;
    }
    let mut value: u32 = 0;
    let mut i = start;
    assert(ds.take(0) =~= Seq::<char>::empty());
    while i < cs.len()
        invariant
            start <= i <= cs.len(),
            start < cs.len(),
            cs@ == level@,
            ds == cs@.skip(start as int),
            ds == trailing_digits(level@),
            forall|j: int| 0 <= j < ds.len() ==> is_digit(#[trigger] ds[j]),
            value == digits_value(ds.take(i - start)),
        decreases cs.len() - i,
    {
        let c = cs[i];
        assert(ds[i - start] == c);
        let digit: u32 = (c as u32) - ('0' as u32);
        assert(ds.take(i - start + 1).drop_last() =~= ds.take(i - start));
        assert(digits_value(ds.take(i - start + 1)) == 10 * value + digit);
        match value.checked_mul(10) {
            Some(v) => match v.checked_add(digit) {
                Some(w) => {
                    value = w;
                },
                None => {
                    proof {
                        lemma_digits_value_prefix(ds, i - start + 1);
                    }
                    return None;
                },
            },
            None => {
                proof {
                    lemma_digits_value_prefix(ds, i - start + 1);
                }
                return None;
            },
        }
        i = i + 1;
    }
    assert(ds.take(i - start) =~= ds);
    Some(value)
}

/// Where `": "` first occurs in `s` at or after `from`.
pub open spec fn find_sep(s: Seq<char>, from: nat) -> Option<nat>
    decreases s.len() - from,
{
    if from + 1 >= s.len() {
        None
    } else if s[from as int] == ':' && s[from + 1int] == ' ' {
        Some(from)
    } else {
        find_sep(s, from + 1)
    }
}

/// A line split at its first `": "` into key and value.
pub open spec fn split_kv(s: Seq<char>) -> Option<(Seq<char>, Seq<char>)> {
    match find_sep(s, 0) {
        Some(i) => Some((s.take(i as int), s.skip((i + 2) as int))),
        None => None,
    }
}

proof fn lemma_find_sep_bound(s: Seq<char>, from: nat)
    ensures
        find_sep(s, from) matches Some(i) ==> from <= i && i + 1 < s.len(),
    decreases s.len() - from,
{
    if from + 1 < s.len() && !(s[from as int] == ':' && s[from + 1int] == ' ') {
        lemma_find_sep_bound(s, from + 1);
    }
}

/// A line split at its first `": "` into key and value; none when it has
/// no `": "`.
pub fn split_key_value(line: &str) -> (r: Option<(String, String)>)
    ensures
        match split_kv(line@) {
            Some((k, v)) => r matches Some(p) && p.0@ == k && p.1@ == v,
            None => r is None,
        },
{
    let cs = chars_of(line);
    let n = cs.len();
    let mut i: usize = 0;
    while i < n && n - i > 1
        invariant
            cs@ == line@,
            n == cs.len(),
            find_sep(line@, 0) == find_sep(line@, i as nat),
        decreases cs.len() - i,
    {
        if cs[i] == ':' && cs[i + 1] == ' ' {
            let mut key: Vec<char> = Vec::new();
            let mut j: usize = 0;
            while j < i
                invariant
                    j <= i,
                    i + 1 < cs.len(),
                    key@ == cs@.take(j as int),
                decreases i - j,
            {
                key.push(cs[j]);
                j = j + 1;
                assert(key@ =~= cs@.take(j as int));
            }
            let mut value: Vec<char> = Vec::new();
            let mut j: usize = i + 2;
            while j < cs.len()
                invariant
                    i + 2 <= j <= cs.len(),
                    value@ == cs@.subrange(i + 2, j as int),
                decreases cs.len() - j,
            {
                value.push(cs[j]);
                j = j + 1;
                assert(value@ =~= cs@.subrange(i + 2, j as int));
            }
            assert(cs@.subrange(i + 2, cs.len() as int) =~= cs@.skip(i + 2));
            return Some((string_of(&key), string_of(&value)));
        }
        i = i + 1;
    }
    None
}

/// Whether `k` is one of the keys whose lines are skipped: a path, and the
/// scale and alpha settings that have no field.
pub open spec fn skipped_key(k: Seq<char>) -> bool {
    k == "NoteScale"@ || k == "ScaleRatio"@ || k == "GlobalAlpha"@
}

/// The fields after one `key: value` pair.
#[verifier::opaque]
pub open spec fn apply_kv(f: InfoFieldsView, key: Seq<char>, value: Seq<char>, csv: bool) -> InfoFieldsView {
    let k = trimmed(key);
    if csv && trimmed(value).len() == 0 {
        f
    } else if k == "Path"@ {
        f
    } else {
        let f1 = if k == "Level"@ && spec_infer_diff(value) is Some {
            InfoFieldsView { difficulty: spec_infer_diff(value), ..f }
        } else {
            f
        };
        if k == "AspectRatio"@ {
            InfoFieldsView { numbers: f1.numbers.push((NumericKey::AspectRatio, value)), ..f1 }
        } else if k == "BackgroundDim"@ {
            InfoFieldsView { numbers: f1.numbers.push((NumericKey::BackgroundDim, value)), ..f1 }
        } else if skipped_key(k) {
            f1
        } else if k == "Name"@ {
            InfoFieldsView { name: Some(value), ..f1 }
        } else if k == "Music"@ || k == "Song"@ {
            InfoFieldsView { music: Some(value), ..f1 }
        } else if k == "Chart"@ {
            InfoFieldsView { chart: Some(value), ..f1 }
        } else if k == "Image"@ || k == "Picture"@ {
            InfoFieldsView { illustration: Some(value), ..f1 }
        } else if k == "Level"@ {
            InfoFieldsView { level: Some(value), ..f1 }
        } else if k == "Illustrator"@ {
            InfoFieldsView { illustrator: Some(value), ..f1 }
        } else if k == "Artist"@ || k == "Composer"@ || k == "Musician"@ {
            InfoFieldsView { composer: Some(value), ..f1 }
        } else if k == "Charter"@ || k == "Designer"@ {
            InfoFieldsView { charter: Some(value), ..f1 }
        } else {
            f1
        }
    }
}

/// Each documented key sets its own field to the value and leaves every
/// other field as it was: `Name` the name, `Music` and `Song` the music,
/// `Chart` the chart, `Image` and `Picture` the illustration, `Level` the
/// level (and the difficulty, when the level ends in a number),
/// `Illustrator` the illustrator, `Artist`, `Composer` and `Musician` the
/// composer, `Charter` and `Designer` the charter; `AspectRatio` and
/// `BackgroundDim` add their text to the numbers; `Path`, `NoteScale`,
/// `ScaleRatio`, `GlobalAlpha` and any other key change nothing. The key
/// is taken without surrounding white space. In a table, a blank value
/// changes nothing.
pub proof fn lemma_apply_kv_keys(f: InfoFieldsView, key: Seq<char>, value: Seq<char>, csv: bool)
    ensures
        csv && trimmed(value).len() == 0 ==> apply_kv(f, key, value, csv) == f,
        !(csv && trimmed(value).len() == 0) ==> {
            let k = trimmed(key);
            let r = apply_kv(f, key, value, csv);
            &&& k == "Name"@ ==> r == (InfoFieldsView { name: Some(value), ..f })
            &&& (k == "Music"@ || k == "Song"@) ==> r == (InfoFieldsView { music: Some(value), ..f })
            &&& k == "Chart"@ ==> r == (InfoFieldsView { chart: Some(value), ..f })
            &&& (k == "Image"@ || k == "Picture"@) ==> r == (InfoFieldsView { illustration: Some(value), ..f })
            &&& k == "Level"@ ==> r == (InfoFieldsView {
                level: Some(value),
                difficulty: if spec_infer_diff(value) is Some {
                    spec_infer_diff(value)
                } else {
                    f.difficulty
                },
                ..f
            })
            &&& k == "Illustrator"@ ==> r == (InfoFieldsView { illustrator: Some(value), ..f })
            &&& (k == "Artist"@ || k == "Composer"@ || k == "Musician"@) ==> r == (InfoFieldsView {
                composer: Some(value),
                ..f
            })
            &&& (k == "Charter"@ || k == "Designer"@) ==> r == (InfoFieldsView { charter: Some(value), ..f })
            &&& k == "AspectRatio"@ ==> r == (InfoFieldsView {
                numbers: f.numbers.push((NumericKey::AspectRatio, value)),
                ..f
            })
            &&& k == "BackgroundDim"@ ==> r == (InfoFieldsView {
                numbers: f.numbers.push((NumericKey::BackgroundDim, value)),
                ..f
            })
            &&& (k == "Path"@ || k == "NoteScale"@ || k == "ScaleRatio"@ || k == "GlobalAlpha"@ || k
                == "Length"@ || k == "EditTime"@ || k == "LastEditTime"@) ==> r == f
        },
{
    reveal(apply_kv);
    reveal_strlit("Name");
    reveal_strlit("Music");
    reveal_strlit("Song");
    reveal_strlit("Chart");
    reveal_strlit("Image");
    reveal_strlit("Picture");
    reveal_strlit("Level");
    reveal_strlit("Illustrator");
    reveal_strlit("Artist");
    reveal_strlit("Composer");
    reveal_strlit("Musician");
    reveal_strlit("Charter");
    reveal_strlit("Designer");
    reveal_strlit("AspectRatio");
    reveal_strlit("BackgroundDim");
    reveal_strlit("Path");
    reveal_strlit("NoteScale");
    reveal_strlit("ScaleRatio");
    reveal_strlit("GlobalAlpha");
    reveal_strlit("Length");
    reveal_strlit("EditTime");
    reveal_strlit("LastEditTime");
    // Keys differ in their length, or else in their first letter.
    assert("Name"@.len() == 4 && "Name"@[0] == 'N');
    assert("Music"@.len() == 5 && "Music"@[0] == 'M');
    assert("Song"@.len() == 4 && "Song"@[0] == 'S');
    assert("Chart"@.len() == 5 && "Chart"@[0] == 'C');
    assert("Image"@.len() == 5 && "Image"@[0] == 'I');
    assert("Picture"@.len() == 7 && "Picture"@[0] == 'P');
    assert("Level"@.len() == 5 && "Level"@[0] == 'L');
    assert("Illustrator"@.len() == 11 && "Illustrator"@[0] == 'I');
    assert("Artist"@.len() == 6 && "Artist"@[0] == 'A');
    assert("Composer"@.len() == 8 && "Composer"@[0] == 'C');
    assert("Musician"@.len() == 8 && "Musician"@[0] == 'M');
    assert("Charter"@.len() == 7 && "Charter"@[0] == 'C');
    assert("Designer"@.len() == 8 && "Designer"@[0] == 'D');
    assert("AspectRatio"@.len() == 11 && "AspectRatio"@[0] == 'A');
    assert("BackgroundDim"@.len() == 13 && "BackgroundDim"@[0] == 'B');
    assert("Path"@.len() == 4 && "Path"@[0] == 'P');
    assert("NoteScale"@.len() == 9 && "NoteScale"@[0] == 'N');
    assert("ScaleRatio"@.len() == 10 && "ScaleRatio"@[0] == 'S');
    assert("GlobalAlpha"@.len() == 11 && "GlobalAlpha"@[0] == 'G');
    assert("Length"@.len() == 6 && "Length"@[0] == 'L');
    assert("EditTime"@.len() == 8 && "EditTime"@[0] == 'E');
    assert("LastEditTime"@.len() == 12 && "LastEditTime"@[0] == 'L');
}

/// The fields after the pairs `kvs`, in order, from `f`.
pub open spec fn apply_kvs(
    f: InfoFieldsView,
    kvs: Seq<(Seq<char>, Seq<char>)>,
    csv: bool,
) -> InfoFieldsView
    decreases kvs.len(),
{
    if kvs.len() == 0 {
        f
    } else {
        apply_kv(apply_kvs(f, kvs.drop_last(), csv), kvs.last().0, kvs.last().1, csv)
    }
}

/// The views of key-value pairs.
pub open spec fn kv_views(kvs: Seq<(String, String)>) -> Seq<(Seq<char>, Seq<char>)> {
    kvs.map_values(|p: (String, String)| (p.0@, p.1@))
}

fn set_field(slot: &mut Option<String>, value: &String)
    ensures
        opt_view(*final(slot)) == Some(value@),
{
    *slot = Some(value.clone());
}

/// Applies one `key: value` pair to the fields.
fn apply_pair(f: &mut InfoFields, key: &str, value: &String, csv: bool)
    ensures
        final(f)@ == apply_kv(old(f)@, key@, value@, csv),
{
    reveal(apply_kv);
    let k = str_trim(key);
    if csv && str_trim(value.as_str()).is_empty() {
        return;
    }
    if str_eq(k, "Path") {
        return;
    }
    let is_level = str_eq(k, "Level");
    if is_level {
        match infer_diff(value.as_str()) {
            Some(d) => {
                f.difficulty = Some(d);
            },
            None => {},
        }
    }
    let ghost f1 = f@;
    if str_eq(k, "AspectRatio") {
        let ghost before = f.numbers@;
        f.numbers.push((NumericKey::AspectRatio, value.clone()));
        proof {
            assert(f.numbers@.map_values(|p: (NumericKey, String)| (p.0, p.1@)) =~= before.map_values(
                |p: (NumericKey, String)| (p.0, p.1@),
            ).push((NumericKey::AspectRatio, value@)));
        }
    } else if str_eq(k, "BackgroundDim") {
        let ghost before = f.numbers@;
        f.numbers.push((NumericKey::BackgroundDim, value.clone()));
        proof {
            assert(f.numbers@.map_values(|p: (NumericKey, String)| (p.0, p.1@)) =~= before.map_values(
                |p: (NumericKey, String)| (p.0, p.1@),
            ).push((NumericKey::BackgroundDim, value@)));
        }
    } else if str_eq(k, "NoteScale") || str_eq(k, "ScaleRatio") || str_eq(k, "GlobalAlpha") {
    } else if str_eq(k, "Name") {
        set_field(&mut f.name, value);
    } else if str_eq(k, "Music") || str_eq(k, "Song") {
        set_field(&mut f.music, value);
    } else if str_eq(k, "Chart") {
        set_field(&mut f.chart, value);
    } else if str_eq(k, "Image") || str_eq(k, "Picture") {
        set_field(&mut f.illustration, value);
    } else if is_level {
        set_field(&mut f.level, value);
    } else if str_eq(k, "Illustrator") {
        set_field(&mut f.illustrator, value);
    } else if str_eq(k, "Artist") || str_eq(k, "Composer") || str_eq(k, "Musician") {
        set_field(&mut f.composer, value);
    } else if str_eq(k, "Charter") || str_eq(k, "Designer") {
        set_field(&mut f.charter, value);
    }
}

/// The fields that key-value pairs set, in order; with `csv`, pairs whose
/// value is blank are skipped.
pub fn info_from_kv(kvs: &Vec<(String, String)>, csv: bool) -> (f: InfoFields)
    ensures
        f@ == apply_kvs(no_fields(), kv_views(kvs@), csv),
{
    let mut f = InfoFields {
        name: None,
        music: None,
        chart: None,
        illustration: None,
        level: None,
        illustrator: None,
        composer: None,
        charter: None,
        difficulty: None,
        numbers: Vec::new(),
    };
    assert(f@.numbers =~= Seq::<(NumericKey, Seq<char>)>::empty());
    assert(kv_views(kvs@).take(0) =~= Seq::<(Seq<char>, Seq<char>)>::empty());
    let mut i: usize = 0;
    while i < kvs.len()
        invariant
            i <= kvs.len(),
            f@ == apply_kvs(no_fields(), kv_views(kvs@).take(i as int), csv),
        decreases kvs.len() - i,
    {
        apply_pair(&mut f, kvs[i].0.as_str(), &kvs[i].1, csv);
        proof {
            let taken = kv_views(kvs@).take(i + 1);
            assert(taken.drop_last() =~= kv_views(kvs@).take(i as int));
            assert(taken.last() == (kvs@[i as int].0@, kvs@[i as int].1@));
        }
        i = i + 1;
    }
    assert(kv_views(kvs@).take(kvs.len() as int) =~= kv_views(kvs@));
    f
}

/// Whether a line is the header: `#`, possibly after a byte order mark.
pub open spec fn is_header(l: Seq<char>) -> bool {
    l =~= seq!['#'] || l =~= seq!['\u{feff}', '#']
}

/// The lines after leading empty ones.
pub open spec fn skip_empty(ls: Seq<Seq<char>>) -> Seq<Seq<char>>
    decreases ls.len(),
{
    if ls.len() > 0 && ls[0].len() == 0 {
        skip_empty(ls.drop_first())
    } else {
        ls
    }
}

/// The key-value pairs of the non-empty lines of `ls`; none when one of
/// them has no `": "`.
pub open spec fn kv_lines(ls: Seq<Seq<char>>) -> Option<Seq<(Seq<char>, Seq<char>)>>
    decreases ls.len(),
{
    if ls.len() == 0 {
        Some(Seq::empty())
    } else if ls.last().len() == 0 {
        kv_lines(ls.drop_last())
    } else {
        match (kv_lines(ls.drop_last()), split_kv(ls.last())) {
            (Some(kvs), Some(kv)) => Some(kvs.push(kv)),
            _ => None,
        }
    }
}

/// What a metadata text sets: its first non-empty line must be the header,
/// and each later non-empty line a `Key: Value` pair.
pub open spec fn spec_info_from_txt(text: Seq<char>) -> Result<InfoFieldsView, InfoError> {
    let ls = skip_empty(lines_of(text));
    if ls.len() == 0 || !is_header(ls[0]) {
        Err(InfoError::MissingHeader)
    } else {
        match kv_lines(ls.drop_first()) {
            Some(kvs) => Ok(apply_kvs(no_fields(), kvs, false)),
            None => Err(InfoError::BadLine),
        }
    }
}

proof fn lemma_skip_empty(ls: Seq<Seq<char>>)
    ensures
        exists|k: int| 0 <= k <= ls.len() && skip_empty(ls) == ls.skip(k) && (forall|j: int|
            0 <= j < k ==> (#[trigger] ls[j]).len() == 0) && (k < ls.len() ==> ls[k].len() > 0),
    decreases ls.len(),
{
    if ls.len() > 0 && ls[0].len() == 0 {
        lemma_skip_empty(ls.drop_first());
        let k = choose|k: int|
            0 <= k <= ls.drop_first().len() && skip_empty(ls.drop_first()) == ls.drop_first().skip(k)
                && (forall|j: int| 0 <= j < k ==> (#[trigger] ls.drop_first()[j]).len() == 0) && (k
                < ls.drop_first().len() ==> ls.drop_first()[k].len() > 0);
        assert(ls.drop_first().skip(k) =~= ls.skip(k + 1));
        assert forall|j: int| 0 <= j < k + 1 implies (#[trigger] ls[j]).len() == 0 by {
            if j > 0 {
                assert(ls[j] == ls.drop_first()[j - 1]);
            }
        };
    } else {
        assert(ls.skip(0) =~= ls);
    }
}

/// The fields that a metadata text sets: its first non-empty line must be
/// `#` (after a possible byte order mark), and each later non-empty line a
/// `Key: Value` pair.
#[verifier::rlimit(30)]
pub fn info_from_txt(text: &str) -> (r: Result<InfoFields, InfoError>)
    ensures
        match spec_info_from_txt(text@) {
            Ok(v) => r matches Ok(f) && f@ == v,
            Err(e) => r matches Err(x) && x == e,
        },
{
    let lines = str_lines(text);
    let ghost ls = lines_of(text@);
    assert(lines@.map_values(|l: String| l@) == ls);
    let mut i: usize = 0;
    while i < lines.len() && lines[i].as_str().is_empty()
        invariant
            i <= lines.len(),
            lines@.map_values(|l: String| l@) == ls,
            skip_empty(ls) == skip_empty(ls.skip(i as int)),
        decreases lines.len() - i,
    {
        proof {
            assert(ls.skip(i as int)[0] == lines@[i as int]@);
            assert(ls.skip(i as int).drop_first() =~= ls.skip(i + 1));
        }
        i = i + 1;
    }
    let ghost rest = ls.skip(i as int);
    proof {
        if i < lines.len() {
            assert(rest[0] == lines@[i as int]@);
            assert(rest[0].len() > 0);
        }
        assert(skip_empty(rest) == rest);
    }
    if i == lines.len() {
        return Err(InfoError::MissingHeader);
    }
    let first = chars_of(lines[i].as_str());
    let header = (first.len() == 1 && first[0] == '#') || (first.len() == 2 && first[0] == '\u{feff}'
        && first[1] == '#');
    proof {
        assert(rest[0] == first@);
        if first.len() == 1 && first[0] == '#' {
            assert(first@ =~= seq!['#']);
        }
        if first.len() == 2 && first[0] == '\u{feff}' && first[1] == '#' {
            assert(first@ =~= seq!['\u{feff}', '#']);
        }
    }
    if !header {
        return Err(InfoError::MissingHeader);
    }
    proof {
        assert(rest.drop_first() =~= ls.skip(i + 1));
    }
    match collect_pairs(&lines, i + 1) {
        Some(kvs) => Ok(info_from_kv(&kvs, false)),
        None => Err(InfoError::BadLine),
    }
}

/// The key-value pairs of the non-empty lines from index `from` on; none
/// when one of them has no `": "`.
fn collect_pairs(lines: &Vec<String>, from: usize) -> (r: Option<Vec<(String, String)>>)
    requires
        from <= lines.len(),
    ensures
        match kv_lines(lines@.map_values(|l: String| l@).skip(from as int)) {
            Some(kvs) => r matches Some(v) && kv_views(v@) == kvs,
            None => r is None,
        },
{
    let ghost body = lines@.map_values(|l: String| l@).skip(from as int);
    let mut kvs: Vec<(String, String)> = Vec::new();
    let mut j: usize = from;
    assert(body.take(0) =~= Seq::<Seq<char>>::empty());
    assert(kv_views(kvs@) =~= Seq::<(Seq<char>, Seq<char>)>::empty());
    while j < lines.len()
        invariant
            from <= j <= lines.len(),
            body == lines@.map_values(|l: String| l@).skip(from as int),
            kv_lines(body.take(j - from)) == Some(kv_views(kvs@)),
        decreases lines.len() - j,
    {
        proof {
            lemma_kv_lines_step(body, j - from);
            assert(body[j - from] == lines@[j as int]@);
        }
        if !lines[j].as_str().is_empty() {
            match split_key_value(lines[j].as_str()) {
                Some(kv) => {
                    let ghost before = kvs@;
                    kvs.push(kv);
                    proof {
                        assert(kv_views(kvs@) =~= kv_views(before).push((kv.0@, kv.1@)));
                    }
                },
                None => {
                    proof {
                        lemma_kv_lines_none(body, j - from + 1);
                    }
                    return None;
                },
            }
        }
        j = j + 1;
    }
    assert(body.take(j - from) =~= body);
    Some(kvs)
}

/// One more line: skipped when empty, else split.
proof fn lemma_kv_lines_step(body: Seq<Seq<char>>, k: int)
    requires
        0 <= k < body.len(),
    ensures
        kv_lines(body.take(k + 1)) == (if body[k].len() == 0 {
            kv_lines(body.take(k))
        } else {
            match (kv_lines(body.take(k)), split_kv(body[k])) {
                (Some(kvs), Some(kv)) => Some(kvs.push(kv)),
                _ => None,
            }
        }),
{
    assert(body.take(k + 1).drop_last() =~= body.take(k));
    assert(body.take(k + 1).last() == body[k]);
}

/// A line without `": "` makes every longer run of lines fail too.
proof fn lemma_kv_lines_none(body: Seq<Seq<char>>, k: int)
    requires
        0 <= k <= body.len(),
        kv_lines(body.take(k)) is None,
    ensures
        kv_lines(body) is None,
    decreases body.len() - k,
{
    if k < body.len() {
        assert(body.take(k + 1).drop_last() =~= body.take(k));
        lemma_kv_lines_none(body, k + 1);
    } else {
        assert(body.take(k) =~= body);
    }
}

/// The error of the csv reader.
#[verifier::external_type_specification]
#[verifier::external_body]
pub struct ExCsvError(csv::Error);

/// What the csv reader, with rows of any length allowed, makes of a text:
/// none when its header row does not read; else the header row and every
/// row after it in order, each `None` when that row does not read.
pub uninterp spec fn csv_records_of(text: Seq<char>) -> Option<(Seq<Seq<char>>, Seq<Option<Seq<Seq<char>>>>)>;

/// The views of a row of strings.
pub open spec fn row_views(row: Seq<String>) -> Seq<Seq<char>> {
    row.map_values(|s: String| s@)
}

/// The views of rows as read: a row's fields, or none for a row that did
/// not read.
pub open spec fn record_views(records: Seq<Result<Vec<String>, csv::Error>>) -> Seq<Option<Seq<Seq<char>>>> {
    records.map_values(
        |r: Result<Vec<String>, csv::Error>|
            match r {
                Ok(row) => Some(row_views(row@)),
                Err(_) => None,
            },
    )
}

/// The csv crate's `Reader` (built with `flexible(true)`) over the text:
/// its `headers`, then every item of `into_records`, each row's fields
/// copied out. The result is `csv_records_of` the text.
#[verifier::external_body]
fn read_csv_records(text: &str) -> (r: Result<(Vec<String>, Vec<Result<Vec<String>, csv::Error>>), csv::Error>)
    ensures
        match r {
            Ok((headers, records)) => csv_records_of(text@) == Some((row_views(headers@), record_views(records@))),
            Err(_) => csv_records_of(text@) is None,
        },
{
    let mut reader = csv::ReaderBuilder::new().flexible(true).from_reader(std::io::Cursor::new(text));
    let headers = reader.headers()?.iter().map(str::to_owned).collect::<Vec<_>>();
    let records = reader.into_records().map(|rec| rec.map(|rec| rec.iter().map(str::to_owned).collect())).collect();
    Ok((headers, records))
}

/// Header names paired with a row's values, as far as both go.
pub open spec fn csv_pairs(headers: Seq<Seq<char>>, row: Seq<Seq<char>>) -> Seq<(Seq<char>, Seq<char>)> {
    let n = if headers.len() < row.len() {
        headers.len()
    } else {
        row.len()
    };
    Seq::new(n, |i: int| (headers[i], row[i]))
}

/// What a table read by the csv reader sets: the last row's values under
/// the header's names, blank values skipped; an error when the header or
/// the last row does not read, or there is no row after the header.
pub open spec fn spec_info_from_csv(
    table: Option<(Seq<Seq<char>>, Seq<Option<Seq<Seq<char>>>>)>,
) -> Result<InfoFieldsView, InfoError> {
    match table {
        None => Err(InfoError::Csv),
        Some((headers, rows)) => if rows.len() == 0 {
            Err(InfoError::NoRecords)
        } else {
            match rows.last() {
                None => Err(InfoError::Csv),
                Some(row) => Ok(apply_kvs(no_fields(), csv_pairs(headers, row), true)),
            }
        },
    }
}

/// The fields a table sets from its header and its last row: each value
/// under the name above it, blank values skipped.
pub fn info_from_csv_rows(headers: &Vec<String>, row: &Vec<String>) -> (f: InfoFields)
    ensures
        f@ == apply_kvs(no_fields(), csv_pairs(row_views(headers@), row_views(row@)), true),
{
    let n = if headers.len() < row.len() {
        headers.len()
    } else {
        row.len()
    };
    let mut kvs: Vec<(String, String)> = Vec::new();
    let mut i: usize = 0;
    while i < n
        invariant
            i <= n,
            n <= headers@.len(),
            n <= row@.len(),
            kv_views(kvs@) == csv_pairs(row_views(headers@), row_views(row@)).take(i as int),
        decreases n - i,
    {
        let ghost before = kvs@;
        kvs.push((headers[i].clone(), row[i].clone()));
        proof {
            assert(kv_views(kvs@) =~= kv_views(before).push((headers@[i as int]@, row@[i as int]@)));
            assert(csv_pairs(row_views(headers@), row_views(row@)).take(i + 1) =~= csv_pairs(
                row_views(headers@),
                row_views(row@),
            ).take(i as int).push((headers@[i as int]@, row@[i as int]@)));
        }
        i = i + 1;
    }
    assert(csv_pairs(row_views(headers@), row_views(row@)).take(n as int) =~= csv_pairs(
        row_views(headers@),
        row_views(row@),
    ));
    info_from_kv(&kvs, true)
}

/// The fields a comma-separated table sets: the values of its last row
/// under the names of its header, blank values skipped.
pub fn info_from_csv(text: &str) -> (r: Result<InfoFields, InfoError>)
    ensures
        match spec_info_from_csv(csv_records_of(text@)) {
            Ok(v) => r matches Ok(f) && f@ == v,
            Err(e) => r matches Err(x) && x == e,
        },
{
    match read_csv_records(text) {
        Err(_) => Err(InfoError::Csv),
        Ok((headers, records)) => {
            let n = records.len();
            if n == 0 {
                return Err(InfoError::NoRecords);
            }
            assert(record_views(records@).last() == record_views(records@)[n - 1]);
            match &records[n - 1] {
                Err(_) => Err(InfoError::Csv),
                Ok(row) => Ok(info_from_csv_rows(&headers, row)),
            }
        },
    }
}

} // verus!
