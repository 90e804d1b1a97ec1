//! The CSV dialect of the auto-offset study results: fields are separated
//! by commas; a field holding a comma, a quote or a line break is wrapped
//! in quotes, with its quotes doubled.

use vstd::prelude::*;
use crate::bin::views_of;
use crate::text::{chars_of, str_eq, string_of};

verus! {

broadcast use vstd::seq_lib::group_seq_properties;

/// Characters that force a field into quotes.
pub open spec fn is_csv_special(c: char) -> bool {
    c == ',' || c == '"' || c == '\n' || c == '\r'
}

/// Whether a field must be quoted.
pub open spec fn needs_quotes(s: Seq<char>) -> bool {
    exists|i: int| 0 <= i < s.len() && is_csv_special(#[trigger] s[i])
}

/// A character with its quote doubled.
pub open spec fn double_quote_char(c: char) -> Seq<char> {
    if c == '"' {
        seq!['"', '"']
    } else {
        seq![c]
    }
}

/// `s` with every quote doubled.
pub open spec fn double_quotes(s: Seq<char>) -> Seq<char>
    decreases s.len(),
{
    if s.len() == 0 {
        Seq::empty()
    } else {
        double_quotes(s.drop_last()) + double_quote_char(s.last())
    }
}

/// The written form of a field.
pub open spec fn spec_csv_escape(s: Seq<char>) -> Seq<char> {
    if needs_quotes(s) {
        seq!['"'] + double_quotes(s) + seq!['"']
    } else {
        s
    }
}

/// Splits the rest `s` of a line into fields, in the middle of a field
/// `cur` (inside quotes when `quoted`), after the fields `cols`. A doubled
/// quote inside quotes stands for one quote; any other quote opens or
/// closes quotes; a comma outside quotes ends a field.
pub open spec fn csv_split_from(s: Seq<char>, quoted: bool, cur: Seq<char>, cols: Seq<Seq<char>>) -> Seq<
    Seq<char>,
>
    decreases s.len(),
{
    if s.len() == 0 {
        cols.push(cur)
    } else if s[0] == '"' && quoted && s.len() > 1 && s[1] == '"' {
        csv_split_from(s.skip(2), quoted, cur.push('"'), cols)
    } else if s[0] == '"' {
        csv_split_from(s.skip(1), !quoted, cur, cols)
    } else if s[0] == ',' && !quoted {
        csv_split_from(s.skip(1), quoted, Seq::empty(), cols.push(cur))
    } else {
        csv_split_from(s.skip(1), quoted, cur.push(s[0]), cols)
    }
}

/// The fields of a line.
pub open spec fn spec_split_csv_line(line: Seq<char>) -> Seq<Seq<char>> {
    csv_split_from(line, false, Seq::empty(), Seq::empty())
}

/// A row written field by field: the written fields joined by commas.
pub open spec fn csv_join(fields: Seq<Seq<char>>) -> Seq<char>
    decreases fields.len(),
{
    if fields.len() <= 1 {
        if fields.len() == 0 {
            Seq::empty()
        } else {
            spec_csv_escape(fields[0])
        }
    } else {
        spec_csv_escape(fields[0]) + seq![','] + csv_join(fields.drop_first())
    }
}

/// Splits a line into fields.
pub fn split_csv_line(line: &str) -> (cols: Vec<String>)
    ensures
        views_of(cols@) == spec_split_csv_line(line@),
{
    let chars = chars_of(line);
    let n = chars.len();
    let mut cols: Vec<String> = Vec::new();
    let mut cur: Vec<char> = Vec::new();
    let mut quoted = false;
    let mut i: usize = 0;
    assert(chars@.skip(0) =~= chars@);
    assert(views_of(cols@) =~= Seq::<Seq<char>>::empty());
    while i < n
        invariant
            n == chars@.len(),
            chars@ == line@,
            i <= n,
            spec_split_csv_line(line@) == csv_split_from(chars@.skip(i as int), quoted, cur@, views_of(cols@)),
        decreases n - i,
    {
        let ghost rest = chars@.skip(i as int);
        let ch = chars[i];
        if ch == '"' && quoted && i + 1 < n && chars[i + 1] == '"' {
            cur.push('"');
            i = i + 2;
            assert(rest.skip(2) =~= chars@.skip(i as int));
        } else if ch == '"' {
            quoted = !quoted;
            i = i + 1;
            assert(rest.skip(1) =~= chars@.skip(i as int));
        } else if ch == ',' && !quoted {
            let field = string_of(&cur);
            let ghost before = views_of(cols@);
            cols.push(field);
            assert(views_of(cols@) =~= before.push(field@));
            cur = Vec::new();
            i = i + 1;
            assert(rest.skip(1) =~= chars@.skip(i as int));
            assert(cur@ =~= Seq::<char>::empty());
        } else {
            cur.push(ch);
            i = i + 1;
            assert(rest.skip(1) =~= chars@.skip(i as int));
        }
    }
    let field = string_of(&cur);
    let ghost before = views_of(cols@);
    cols.push(field);
    assert(views_of(cols@) =~= before.push(field@));
    assert(chars@.skip(i as int) =~= Seq::<char>::empty());
    cols
}

/// The written form of a field: quoted, with its quotes doubled, when it
/// holds a comma, a quote or a line break; unchanged otherwise.
pub fn csv_escape(value: &str) -> (s: String)
    ensures
        s@ == spec_csv_escape(value@),
{
    let chars = chars_of(value);
    let n = chars.len();
    let mut special = false;
    let mut i: usize = 0;
    while i < n
        invariant
            n == chars@.len(),
            i <= n,
            special <==> exists|j: int| 0 <= j < i && is_csv_special(#[trigger] chars@[j]),
        decreases n - i,
    {
        let c = chars[i];
        if c == ',' || c == '"' || c == '\n' || c == '\r' {
            special = true;
        }
        i = i + 1;
    }
    if !special {
        return string_of(&chars);
    }
    let mut out: Vec<char> = Vec::new();
    out.push('"');
    let mut k: usize = 0;
    assert(chars@.take(0) =~= Seq::<char>::empty());
    assert(out@ =~= seq!['"'] + double_quotes(chars@.take(0)));
    while k < n
        invariant
            n == chars@.len(),
            k <= n,
            out@ == seq!['"'] + double_quotes(chars@.take(k as int)),
        decreases n - k,
    {
        let c = chars[k];
        let ghost before = chars@.take(k as int);
        if c == '"' {
            out.push('"');
            out.push('"');
        } else {
            out.push(c);
        }
        k = k + 1;
        proof {
            assert(chars@.take(k as int).drop_last() =~= before);
            assert(out@ =~= seq!['"'] + double_quotes(chars@.take(k as int)));
        }
    }
    out.push('"');
    assert(chars@.take(n as int) =~= chars@);
    string_of(&out)
}

/// Position of the first header equal to `name`.
pub open spec fn header_position(headers: Seq<Seq<char>>, name: Seq<char>) -> Option<nat>
    decreases headers.len(),
{
    if headers.len() == 0 {
        None
    } else if headers[0] == name {
        Some(0)
    } else {
        match header_position(headers.drop_first(), name) {
            Some(i) => Some(i + 1),
            None => None,
        }
    }
}

proof fn lemma_header_position(headers: Seq<Seq<char>>, name: Seq<char>, i: int)
    requires
        0 <= i <= headers.len(),
        forall|j: int| 0 <= j < i ==> headers[j] != name,
    ensures
        i < headers.len() && headers[i] == name ==> header_position(headers, name) == Some(
            i as nat,
        ),
        i == headers.len() ==> header_position(headers, name) is None,
    decreases i,
{
    if i > 0 {
        lemma_header_position(headers.drop_first(), name, i - 1);
    }
}

/// The column of a row under the first header called `name`, if the row
/// reaches it.
pub open spec fn spec_get_col(headers: Seq<Seq<char>>, cols: Seq<Seq<char>>, name: Seq<char>) -> Option<
    Seq<char>,
> {
    match header_position(headers, name) {
        Some(i) => if i < cols.len() {
            Some(cols[i as int])
        } else {
            None
        },
        None => None,
    }
}

/// The field of `cols` under the first header called `name`.
pub fn get_col<'a>(headers: &[String], cols: &'a [String], name: &str) -> (r: Option<&'a str>)
    ensures
        spec_get_col(views_of(headers@), views_of(cols@), name@) == match r {
            Some(s) => Some(s@),
            None => None::<Seq<char>>,
        },
{
    let ghost hs = views_of(headers@);
    let mut i: usize = 0;
    while i < headers.len()
        invariant
            i <= headers@.len(),
            hs == views_of(headers@),
            forall|j: int| 0 <= j < i ==> hs[j] != name@,
        decreases headers.len() - i,
    {
        if str_eq(headers[i].as_str(), name) {
            proof {
                lemma_header_position(hs, name@, i as int);
            }
            if i < cols.len() {
                return Some(cols[i].as_str());
            } else {
                return None;
            }
        }
        i = i + 1;
    }
    proof {
        lemma_header_position(hs, name@, i as int);
    }
    None
}

/// How a listing flag is written.
pub fn csv_optional_bool(value: Option<bool>) -> (s: &'static str)
    ensures
        s@ == match value {
            Some(true) => "true"@,
            Some(false) => "false"@,
            None => ""@,
        },
{
    match value {
        Some(true) => "true",
        Some(false) => "false",
        None => "",
    }
}

/// Reads a listing flag: `true`, `false`, anything else unknown.
pub fn parse_optional_bool(value: &str) -> (r: Option<bool>)
    ensures
        r == (if value@ == "true"@ {
            Some(true)
        } else if value@ == "false"@ {
            Some(false)
        } else {
            None
        }),
{
    if str_eq(value, "true") {
        Some(true)
    } else if str_eq(value, "false") {
        Some(false)
    } else {
        None
    }
}

/// A listing flag written and read back is unchanged.
pub proof fn lemma_optional_bool_roundtrip(value: Option<bool>)
    ensures
        (if (match value {
            Some(true) => "true"@,
            Some(false) => "false"@,
            None => ""@,
        }) == "true"@ {
            Some(true)
        } else if (match value {
            Some(true) => "true"@,
            Some(false) => "false"@,
            None => ""@,
        }) == "false"@ {
            Some(false)
        } else {
            None
        }) == value,
{
    reveal_strlit("true");
    reveal_strlit("false");
    reveal_strlit("");
    assert("true"@.len() == 4 && "false"@.len() == 5 && ""@.len() == 0);
    assert("true"@ != "false"@);
}

// ---------------------------------------------------------------------
// reading back what was written
// ---------------------------------------------------------------------

proof fn lemma_double_quotes_front(s: Seq<char>)
    requires
        s.len() > 0,
    ensures
        double_quotes(s) == double_quote_char(s[0]) + double_quotes(s.drop_first()),
    decreases s.len(),
{
    if s.len() == 1 {
        assert(s.drop_last() =~= Seq::<char>::empty());
        assert(s.drop_first() =~= Seq::<char>::empty());
    } else {
        lemma_double_quotes_front(s.drop_last());
        assert(s.drop_last().drop_first() =~= s.drop_first().drop_last());
        assert(s.drop_first().last() == s.last());
    }
}

/// A field without quotes or commas is taken over character by character.
proof fn lemma_split_plain(v: Seq<char>, t: Seq<char>, cur: Seq<char>, cols: Seq<Seq<char>>)
    requires
        forall|i: int| 0 <= i < v.len() ==> v[i] != '"' && v[i] != ',',
    ensures
        csv_split_from(v + t, false, cur, cols) == csv_split_from(t, false, cur + v, cols),
    decreases v.len(),
{
    if v.len() == 0 {
        assert(v + t =~= t);
        assert(cur + v =~= cur);
    } else {
        let s = v + t;
        assert(s[0] == v[0]);
        assert(s.skip(1) =~= v.drop_first() + t);
        lemma_split_plain(v.drop_first(), t, cur.push(v[0]), cols);
        assert(cur.push(v[0]) + v.drop_first() =~= cur + v);
    }
}

/// The inside of a quoted field, with its closing quote, gives back the
/// field, as long as no quote follows the closing one.
proof fn lemma_split_quoted(v: Seq<char>, t: Seq<char>, cur: Seq<char>, cols: Seq<Seq<char>>)
    requires
        t.len() == 0 || t[0] != '"',
    ensures
        csv_split_from(double_quotes(v) + seq!['"'] + t, true, cur, cols) == csv_split_from(
            t,
            false,
            cur + v,
            cols,
        ),
    decreases v.len(),
{
    let s = double_quotes(v) + seq!['"'] + t;
    if v.len() == 0 {
        assert(double_quotes(v) =~= Seq::<char>::empty());
        assert(s =~= seq!['"'] + t);
        assert(s.skip(1) =~= t);
        assert(cur + v =~= cur);
    } else {
        lemma_double_quotes_front(v);
        let c = v[0];
        let rest = double_quotes(v.drop_first()) + seq!['"'] + t;
        assert(s =~= double_quote_char(c) + rest);
        lemma_split_quoted(v.drop_first(), t, cur.push(c), cols);
        assert(cur.push(c) + v.drop_first() =~= cur + v);
        if c == '"' {
            assert(s[0] == '"' && s[1] == '"');
            assert(s.skip(2) =~= rest);
        } else {
            assert(s[0] == c);
            assert(s.skip(1) =~= rest);
        }
    }
}

/// A written field is read back whole, as long as the line goes on with a
/// comma or ends.
pub proof fn lemma_split_escaped(v: Seq<char>, t: Seq<char>, cur: Seq<char>, cols: Seq<Seq<char>>)
    requires
        t.len() == 0 || t[0] == ',',
    ensures
        csv_split_from(spec_csv_escape(v) + t, false, cur, cols) == csv_split_from(t, false, cur + v, cols),
{
    if needs_quotes(v) {
        let s = spec_csv_escape(v) + t;
        assert(s =~= seq!['"'] + (double_quotes(v) + seq!['"'] + t));
        assert(s.skip(1) =~= double_quotes(v) + seq!['"'] + t);
        lemma_split_quoted(v, t, cur, cols);
    } else {
        assert forall|i: int| 0 <= i < v.len() implies v[i] != '"' && v[i] != ',' by {
            if v[i] == '"' || v[i] == ',' {
                assert(is_csv_special(v[i]));
            }
        };
        lemma_split_plain(v, t, cur, cols);
    }
}

/// Any field written with `csv_escape` is read back by `split_csv_line` as
/// that one field.
pub proof fn lemma_csv_field_roundtrip(v: Seq<char>)
    ensures
        spec_split_csv_line(spec_csv_escape(v)) == seq![v],
{
    let e = spec_csv_escape(v);
    assert(e + Seq::<char>::empty() =~= e);
    lemma_split_escaped(v, Seq::empty(), Seq::empty(), Seq::empty());
    assert(Seq::<char>::empty() + v =~= v);
    assert(Seq::<Seq<char>>::empty().push(v) =~= seq![v]);
}

proof fn lemma_split_join(fields: Seq<Seq<char>>, cols: Seq<Seq<char>>)
    requires
        fields.len() >= 1,
    ensures
        csv_split_from(csv_join(fields), false, Seq::empty(), cols) == cols + fields,
    decreases fields.len(),
{
    let f0 = fields[0];
    if fields.len() == 1 {
        let e = spec_csv_escape(f0);
        assert(e + Seq::<char>::empty() =~= e);
        lemma_split_escaped(f0, Seq::empty(), Seq::empty(), cols);
        assert(Seq::<char>::empty() + f0 =~= f0);
        assert(cols.push(f0) =~= cols + fields);
    } else {
        let rest = fields.drop_first();
        let t = seq![','] + csv_join(rest);
        assert(csv_join(fields) =~= spec_csv_escape(f0) + t);
        lemma_split_escaped(f0, t, Seq::empty(), cols);
        assert(Seq::<char>::empty() + f0 =~= f0);
        assert(t.skip(1) =~= csv_join(rest));
        lemma_split_join(rest, cols.push(f0));
        assert(cols.push(f0) + rest =~= cols + fields);
    }
}

/// A row written as fields escaped and joined by commas is read back by
/// `split_csv_line` as the same fields.
pub proof fn lemma_csv_row_roundtrip(fields: Seq<Seq<char>>)
    requires
        fields.len() >= 1,
    ensures
        spec_split_csv_line(csv_join(fields)) == fields,
{
    lemma_split_join(fields, Seq::empty());
    assert(Seq::<Seq<char>>::empty() + fields =~= fields);
}

} // verus!
