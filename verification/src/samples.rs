//! The offset study's sample charts: which are already downloaded, how
//! their notes are classed, and how many rows a results table holds.

use vstd::prelude::*;
use std::collections::BTreeSet;
use crate::note::NoteKind;
use crate::rpe::{parse_i32, spec_parse_i32};
use crate::text::{lines_of, str_lines, str_trim, trimmed};

verus! {

broadcast use vstd::std_specs::btree::group_btree_axioms;

/// The class of a note, as the offset estimate weighs it.
#[derive(Clone, Copy, Debug, PartialEq, Eq, Structural)]
pub enum NoteClass {
    Tap,
    Hold,
    Flick,
    Drag,
}

/// The class of an RPE note type: `2` hold, `3` flick, `4` drag, any
/// other a tap.
pub fn rpe_note_kind(kind: u8) -> (c: NoteClass)
    ensures
        c == (if kind == 2 {
            NoteClass::Hold
        } else if kind == 3 {
            NoteClass::Flick
        } else if kind == 4 {
            NoteClass::Drag
        } else {
            NoteClass::Tap
        }),
{
    if kind == 2 {
        NoteClass::Hold
    } else if kind == 3 {
        NoteClass::Flick
    } else if kind == 4 {
        NoteClass::Drag
    } else {
        NoteClass::Tap
    }
}

/// The class of a chart's note.
pub fn auto_offset_note_kind(kind: &NoteKind) -> (c: NoteClass)
    ensures
        c is Tap <==> *kind is Click,
        c is Hold <==> *kind is Hold,
        c is Flick <==> *kind is Flick,
        c is Drag <==> *kind is Drag,
{
    match kind {
        NoteKind::Click => NoteClass::Tap,
        NoteKind::Hold { .. } => NoteClass::Hold,
        NoteKind::Flick => NoteClass::Flick,
        NoteKind::Drag => NoteClass::Drag,
    }
}

/// How a chart's listing status is written.
pub fn listing_label(chart_listed: Option<bool>) -> (s: &'static str)
    ensures
        s@ == (match chart_listed {
            Some(true) => "listed"@,
            Some(false) => "unlisted"@,
            None => "unknown"@,
        }),
{
    match chart_listed {
        Some(true) => "listed",
        Some(false) => "unlisted",
        None => "unknown",
    }
}

/// Whether chart id `id` names one of the folders among `entries` (each a
/// name and whether it is a folder).
pub open spec fn names_chart(entries: Seq<(String, bool)>, id: i32) -> bool {
    exists|k: int| 0 <= k < entries.len() && (#[trigger] entries[k]).1 && spec_parse_i32(entries[k].0@) == Some(id)
}

/// The charts already downloaded: the folders among `entries` whose names
/// read as `i32` ids.
pub fn cached_chart_ids(entries: &Vec<(String, bool)>) -> (ids: BTreeSet<i32>)
    ensures
        forall|id: i32| ids@.contains(id) <==> names_chart(entries@, id),
{
    let mut ids: BTreeSet<i32> = BTreeSet::new();
    let mut i: usize = 0;
    while i < entries.len()
        invariant
            i <= entries@.len(),
            forall|id: i32| ids@.contains(id) <==> names_chart(entries@.take(i as int), id),
        decreases entries@.len() - i,
    {
        let ghost before = ids@;
        let ghost pre = entries@.take(i as int);
        let ghost next = entries@.take(i as int + 1);
        assert(next =~= pre.push(entries@[i as int]));
        if entries[i].1 {
            match parse_i32(entries[i].0.as_str()) {
                Some(id) => {
                    ids.insert(id);
                },
                None => {},
            }
        }
        assert forall|id: i32| ids@.contains(id) <==> names_chart(next, id) by {
            if names_chart(next, id) {
                let k = choose|k: int| 0 <= k < next.len() && (#[trigger] next[k]).1 && spec_parse_i32(next[k].0@) == Some(id);
                if k < i {
                    assert(pre[k] == next[k]);
                    assert(names_chart(pre, id));
                }
            }
            if names_chart(pre, id) {
                let k = choose|k: int| 0 <= k < pre.len() && (#[trigger] pre[k]).1 && spec_parse_i32(pre[k].0@) == Some(id);
                assert(next[k] == pre[k]);
            }
            if ids@.contains(id) && !before.contains(id) {
                assert(next[i as int] == entries@[i as int]);
            }
        }
        i = i + 1;
    }
    assert(entries@.take(i as int) =~= entries@);
    ids
}

/// How many of `lines` hold more than whitespace.
pub open spec fn non_blank_count(lines: Seq<Seq<char>>) -> nat
    decreases lines.len(),
{
    if lines.len() == 0 {
        0
    } else {
        non_blank_count(lines.drop_last()) + if trimmed(lines.last()).len() > 0 {
            1nat
        } else {
            0nat
        }
    }
}

/// The lines after the first, if there is one.
pub open spec fn after_header(lines: Seq<Seq<char>>) -> Seq<Seq<char>> {
    if lines.len() == 0 {
        lines
    } else {
        lines.skip(1)
    }
}

/// The data rows of a results table: the lines after the header that
/// hold more than whitespace.
pub fn count_csv_data_rows(text: &str) -> (n: usize)
    ensures
        n == non_blank_count(after_header(lines_of(text@))),
{
    let lines = str_lines(text);
    let ghost ls = lines_of(text@);
    if lines.len() == 0 {
        return 0;
    }
    let ghost body = ls.skip(1);
    let mut n: usize = 0;
    let mut i: usize = 1;
    assert(body.take(0) =~= Seq::<Seq<char>>::empty());
    while i < lines.len()
        invariant
            1 <= i <= lines@.len(),
            lines@.map_values(|l: String| l@) == ls,
            body == ls.skip(1),
            n == non_blank_count(body.take(i - 1)),
            n <= i,
        decreases lines@.len() - i,
    {
        assert(body.take(i as int).drop_last() =~= body.take(i - 1));
        assert(body.take(i as int).last() == lines@[i as int]@);
        if !str_trim(lines[i].as_str()).is_empty() {
            n = n + 1;
        }
        i = i + 1;
    }
    assert(body.take(i - 1) =~= body);
    n
}

} // verus!
