//! Escaping for the HTML study report and the JavaScript embedded in it,
//! and its fixed colour scales.

use vstd::prelude::*;
use crate::text::{chars_of, string_of};

verus! {

broadcast use vstd::seq_lib::group_seq_properties;

/// The HTML form of one character.
pub open spec fn html_escape_char(c: char) -> Seq<char> {
    if c == '&' {
        seq!['&', 'a', 'm', 'p', ';']
    } else if c == '<' {
        seq!['&', 'l', 't', ';']
    } else if c == '>' {
        seq!['&', 'g', 't', ';']
    } else if c == '"' {
        seq!['&', 'q', 'u', 'o', 't', ';']
    } else {
        seq![c]
    }
}

/// `s` with `&`, `<`, `>` and `"` replaced by their entities.
pub open spec fn spec_html_escape(s: Seq<char>) -> Seq<char>
    decreases s.len(),
{
    if s.len() == 0 {
        Seq::empty()
    } else {
        spec_html_escape(s.drop_last()) + html_escape_char(s.last())
    }
}

/// The form of one character inside a single-quoted JavaScript string.
pub open spec fn js_escape_char(c: char) -> Seq<char> {
    if c == '\\' {
        Seq::empty()
    } else if c == '\'' {
        seq!['\\', '\'']
    } else {
        seq![c]
    }
}

/// `s` with backslashes dropped and single quotes escaped.
pub open spec fn spec_js_escape(s: Seq<char>) -> Seq<char>
    decreases s.len(),
{
    if s.len() == 0 {
        Seq::empty()
    } else {
        spec_js_escape(s.drop_last()) + js_escape_char(s.last())
    }
}

/// Escapes text for HTML.
pub fn html_escape(value: &str) -> (s: String)
    ensures
        s@ == spec_html_escape(value@),
{
    let chars = chars_of(value);
    let mut out: Vec<char> = Vec::new();
    let mut i: usize = 0;
    assert(chars@.take(0) =~= Seq::<char>::empty());
    while i < chars.len()
        invariant
            i <= chars@.len(),
            out@ == spec_html_escape(chars@.take(i as int)),
        decreases chars.len() - i,
    {
        let c = chars[i];
        if c == '&' {
            out.push('&');
            out.push('a');
            out.push('m');
            out.push('p');
            out.push(';');
        } else if c == '<' {
            out.push('&');
            out.push('l');
            out.push('t');
            out.push(';');
        } else if c == '>' {
            out.push('&');
            out.push('g');
            out.push('t');
            out.push(';');
        } else if c == '"' {
            out.push('&');
            out.push('q');
            out.push('u');
            out.push('o');
            out.push('t');
            out.push(';');
        } else {
            out.push(c);
        }
        let ghost prev = chars@.take(i as int);
        i = i + 1;
        proof {
            assert(chars@.take(i as int).drop_last() =~= prev);
            assert(out@ =~= spec_html_escape(chars@.take(i as int)));
        }
    }
    assert(chars@.take(chars@.len() as int) =~= chars@);
    string_of(&out)
}

/// Escapes text for a single-quoted JavaScript string: backslashes are
/// dropped, single quotes get a backslash.
pub fn js_escape(value: &str) -> (s: String)
    ensures
        s@ == spec_js_escape(value@),
{
    let chars = chars_of(value);
    let mut out: Vec<char> = Vec::new();
    let mut i: usize = 0;
    assert(chars@.take(0) =~= Seq::<char>::empty());
    while i < chars.len()
        invariant
            i <= chars@.len(),
            out@ == spec_js_escape(chars@.take(i as int)),
        decreases chars.len() - i,
    {
        let c = chars[i];
        if c == '\\' {
        } else if c == '\'' {
            out.push('\\');
            out.push('\'');
        } else {
            out.push(c);
        }
        let ghost prev = chars@.take(i as int);
        i = i + 1;
        proof {
            assert(chars@.take(i as int).drop_last() =~= prev);
            assert(out@ =~= spec_js_escape(chars@.take(i as int)));
        }
    }
    assert(chars@.take(chars@.len() as int) =~= chars@);
    string_of(&out)
}

/// HTML-escaped text holds no `<`, `>` or `"`.
pub proof fn lemma_html_escape_safe(s: Seq<char>)
    ensures
        forall|i: int|
            0 <= i < spec_html_escape(s).len() ==> {
                let c = #[trigger] spec_html_escape(s)[i];
                c != '<' && c != '>' && c != '"'
            },
    decreases s.len(),
{
    if s.len() > 0 {
        lemma_html_escape_safe(s.drop_last());
        let a = spec_html_escape(s.drop_last());
        let b = html_escape_char(s.last());
        assert forall|i: int| 0 <= i < spec_html_escape(s).len() implies {
            let c = #[trigger] spec_html_escape(s)[i];
            c != '<' && c != '>' && c != '"'
        } by {
            if i >= a.len() {
                assert(spec_html_escape(s)[i] == b[i - a.len()]);
            } else {
                assert(spec_html_escape(s)[i] == a[i]);
            }
        };
    }
}

/// In JavaScript-escaped text every single quote follows a backslash, and
/// every backslash comes before a single quote, so the text cannot end a
/// single-quoted string early.
pub proof fn lemma_js_escape_safe(s: Seq<char>)
    ensures
        forall|i: int|
            0 <= i < spec_js_escape(s).len() && #[trigger] spec_js_escape(s)[i] == '\'' ==> i > 0
                && spec_js_escape(s)[i - 1] == '\\',
        forall|i: int|
            0 <= i < spec_js_escape(s).len() && #[trigger] spec_js_escape(s)[i] == '\\' ==> i + 1
                < spec_js_escape(s).len() && spec_js_escape(s)[i + 1] == '\'',
    decreases s.len(),
{
    if s.len() > 0 {
        lemma_js_escape_safe(s.drop_last());
        let a = spec_js_escape(s.drop_last());
        let b = js_escape_char(s.last());
        let r = spec_js_escape(s);
        assert(r == a + b);
        assert forall|i: int| 0 <= i < r.len() && #[trigger] r[i] == '\'' implies i > 0 && r[i
            - 1] == '\\' by {
            if i >= a.len() {
                assert(b[i - a.len()] == '\'');
                assert(i - a.len() == 1);
            } else {
                assert(a[i] == '\'');
            }
        };
        assert forall|i: int| 0 <= i < r.len() && #[trigger] r[i] == '\\' implies i + 1 < r.len()
            && r[i + 1] == '\'' by {
            if i >= a.len() {
                assert(b[i - a.len()] == '\\');
            } else {
                assert(a[i] == '\\');
            }
        };
    }
}

/// The colour scale of the mean-score histogram.
pub fn mean_score_colorscale() -> (s: &'static str)
    ensures
        s@ == "[[0.00, '#313695'], [0.20, '#4575b4'], [0.35, '#74add1'], [0.50, '#ffffbf'], [0.65, '#fdae61'], [0.80, '#f46d43'], [1.00, '#a50026']]"@,
{
    "[[0.00, '#313695'], [0.20, '#4575b4'], [0.35, '#74add1'], [0.50, '#ffffbf'], [0.65, '#fdae61'], [0.80, '#f46d43'], [1.00, '#a50026']]"
}

/// The colour scale of the mean-absolute-lag histogram.
pub fn abs_lag_colorscale() -> (s: &'static str)
    ensures
        s@ == "[[0.00, '#f7fbff'], [0.18, '#deebf7'], [0.36, '#9ecae1'], [0.55, '#4292c6'], [0.74, '#08519c'], [1.00, '#08306b']]"@,
{
    "[[0.00, '#f7fbff'], [0.18, '#deebf7'], [0.36, '#9ecae1'], [0.55, '#4292c6'], [0.74, '#08519c'], [1.00, '#08306b']]"
}

} // verus!
