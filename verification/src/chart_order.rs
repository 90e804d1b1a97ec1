//! The order a chart's lines are drawn in, and the lines that carry the
//! interface elements.
//!
//! A line attached to an interface element (the bar, the pause button, the
//! combo, the score, the name, the level) moves that element and is not
//! drawn as a line; the others are drawn by rising z-index, ties in the
//! order the lines come.

use vstd::prelude::*;
use crate::line::{ui_code, JudgeLine};

verus! {

/// Whether line `a` is drawn before line `b`: a lower z-index, or the same
/// z-index and an earlier line.
pub open spec fn drawn_before(lines: Seq<JudgeLine>, a: int, b: int) -> bool {
    lines[a].z_index < lines[b].z_index || (lines[a].z_index == lines[b].z_index && a < b)
}

/// The last line attached to the interface element with code `c`, if any.
pub open spec fn last_attached(lines: Seq<JudgeLine>, c: u8) -> Option<usize>
    decreases lines.len(),
{
    if lines.len() == 0 {
        None
    } else if lines.last().attach_ui matches Some(e) && ui_code(e) == c {
        Some((lines.len() - 1) as usize)
    } else {
        last_attached(lines.drop_last(), c)
    }
}

/// A sequence of lines is in drawing order.
pub open spec fn sorted_by_draw(lines: Seq<JudgeLine>, order: Seq<usize>) -> bool {
    forall|j: int, k: int| 0 <= j < k < order.len() ==> drawn_before(lines, #[trigger] order[j] as int, #[trigger] order[k] as int)
}

/// Where a chart's lines go: the lines drawn, in drawing order, and for
/// each interface element (by code, from 1) the line attached to it.
pub struct DrawOrder {
    pub order: Vec<usize>,
    pub attach_ui: [Option<usize>; 7],
}

proof fn lemma_drawn_before_total(lines: Seq<JudgeLine>, a: int, b: int)
    requires
        a != b,
    ensures
        drawn_before(lines, a, b) || drawn_before(lines, b, a),
        !(drawn_before(lines, a, b) && drawn_before(lines, b, a)),
{
}

proof fn lemma_drawn_before_trans(lines: Seq<JudgeLine>, a: int, b: int, c: int)
    requires
        drawn_before(lines, a, b),
        drawn_before(lines, b, c),
    ensures
        drawn_before(lines, a, c),
{
}

/// Puts line `x` into its place among `sorted`.
fn insert_sorted(lines: &Vec<JudgeLine>, sorted: &mut Vec<usize>, x: usize)
    requires
        x < lines@.len(),
        !old(sorted)@.contains(x),
        sorted_by_draw(lines@, old(sorted)@),
        forall|k: int| 0 <= k < old(sorted)@.len() ==> #[trigger] old(sorted)@[k] < lines@.len(),
    ensures
        sorted_by_draw(lines@, final(sorted)@),
        forall|k: int| 0 <= k < final(sorted)@.len() ==> #[trigger] final(sorted)@[k] < lines@.len(),
        forall|y: usize| #[trigger] final(sorted)@.contains(y) <==> (old(sorted)@.contains(y) || y == x),
        final(sorted)@.len() == old(sorted)@.len() + 1,
{
    let ghost s0 = sorted@;
    let mut p: usize = 0;
    while p < sorted.len() && !(lines[x].z_index < lines[sorted[p]].z_index || (lines[x].z_index
        == lines[sorted[p]].z_index && x < sorted[p]))
        invariant
            p <= sorted@.len(),
            sorted@ == s0,
            x < lines@.len(),
            forall|k: int| 0 <= k < s0.len() ==> #[trigger] s0[k] < lines@.len(),
            forall|k: int| 0 <= k < p ==> drawn_before(lines@, #[trigger] s0[k] as int, x as int),
            !s0.contains(x),
        decreases sorted@.len() - p,
    {
        proof {
            assert(s0[p as int] != x);
            lemma_drawn_before_total(lines@, x as int, s0[p as int] as int);
        }
        p = p + 1;
    }
    sorted.insert(p, x);
    proof {
        let s1 = sorted@;
        assert(s1 == s0.insert(p as int, x));
        assert forall|j: int, k: int| 0 <= j < k < s1.len() implies drawn_before(
            lines@,
            #[trigger] s1[j] as int,
            #[trigger] s1[k] as int,
        ) by {
            if k < p {
                assert(s1[j] == s0[j] && s1[k] == s0[k]);
            } else if k == p {
                assert(s1[j] == s0[j]);
            } else if j == p {
                assert(s1[k] == s0[k - 1]);
                if p < s0.len() {
                    assert(drawn_before(lines@, x as int, s0[p as int] as int));
                    if k - 1 > p {
                        lemma_drawn_before_trans(lines@, x as int, s0[p as int] as int, s0[k - 1] as int);
                    }
                }
            } else if j < p {
                assert(s1[j] == s0[j] && s1[k] == s0[k - 1]);
                if p < s0.len() {
                    assert(drawn_before(lines@, s0[j] as int, x as int));
                    assert(drawn_before(lines@, x as int, s0[p as int] as int));
                    lemma_drawn_before_trans(lines@, s0[j] as int, x as int, s0[p as int] as int);
                    if k - 1 > p {
                        lemma_drawn_before_trans(lines@, s0[j] as int, s0[p as int] as int, s0[k - 1] as int);
                    }
                }
            } else {
                assert(s1[j] == s0[j - 1] && s1[k] == s0[k - 1]);
            }
        }
        assert forall|y: usize| #[trigger] s1.contains(y) <==> (s0.contains(y) || y == x) by {
            if s1.contains(y) {
                let k = choose|k: int| 0 <= k < s1.len() && s1[k] == y;
                if k < p {
                    assert(s0[k] == y);
                } else if k > p {
                    assert(s0[k - 1] == y);
                }
            }
            if s0.contains(y) {
                let k = choose|k: int| 0 <= k < s0.len() && s0[k] == y;
                if k < p {
                    assert(s1[k] == y);
                } else {
                    assert(s1[k + 1] == y);
                }
            }
            if y == x {
                assert(s1[p as int] == x);
            }
        }
        assert forall|k: int| 0 <= k < s1.len() implies #[trigger] s1[k] < lines@.len() by {
            if k < p {
                assert(s1[k] == s0[k]);
            } else if k > p {
                assert(s1[k] == s0[k - 1]);
            }
        }
    }
}

/// The chart's drawing order: the lines not attached to an interface
/// element, by rising z-index and then by position; and, for each element,
/// the last line attached to it.
pub fn draw_order(lines: &Vec<JudgeLine>) -> (d: DrawOrder)
    ensures
        sorted_by_draw(lines@, d.order@),
        forall|k: int| 0 <= k < d.order@.len() ==> #[trigger] d.order@[k] < lines@.len() && lines@[d.order@[k] as int].attach_ui is None,
        forall|i: usize| i < lines@.len() && lines@[i as int].attach_ui is None ==> #[trigger] d.order@.contains(i),
        forall|c: int| 1 <= c <= 7 ==> #[trigger] d.attach_ui@[c - 1] == last_attached(lines@, c as u8),
{
    let mut attach_ui: [Option<usize>; 7] = [None; 7];
    let mut order: Vec<usize> = Vec::new();
    let mut i: usize = 0;
    while i < lines.len()
        invariant
            i <= lines@.len(),
            sorted_by_draw(lines@, order@),
            forall|k: int| 0 <= k < order@.len() ==> #[trigger] order@[k] < i,
            forall|y: usize| #[trigger] order@.contains(y) <==> (y < i && lines@[y as int].attach_ui is None),
            forall|c: int| 1 <= c <= 7 ==> #[trigger] attach_ui@[c - 1] == last_attached(lines@.take(i as int), c as u8),
        decreases lines@.len() - i,
    {
        let ghost pre = lines@.take(i as int);
        let ghost next = lines@.take(i as int + 1);
        assert(next.drop_last() =~= pre);
        assert(next.last() == lines@[i as int]);
        match lines[i].attach_ui {
            Some(e) => {
                let c = e.to_u8();
                let ghost before = attach_ui@;
                attach_ui.set((c - 1) as usize, Some(i));
                proof {
                    assert forall|d: int| 1 <= d <= 7 implies #[trigger] attach_ui@[d - 1] == last_attached(next, d as u8) by {
                        if d != c {
                            assert(attach_ui@[d - 1] == before[d - 1]);
                        }
                    }
                    assert forall|y: usize| #[trigger] order@.contains(y) <==> (y < i + 1 && lines@[y as int].attach_ui is None) by {
                        if order@.contains(y) {
                            let k = choose|k: int| 0 <= k < order@.len() && order@[k] == y;
                            assert(order@[k] < i);
                        }
                    }
                }
            },
            None => {
                proof {
                    assert forall|k: int| 0 <= k < order@.len() implies #[trigger] order@[k] < lines@.len() by {
                    }
                    assert(!order@.contains(i)) by {
                        if order@.contains(i) {
                            let k = choose|k: int| 0 <= k < order@.len() && order@[k] == i;
                            assert(order@[k] < i);
                        }
                    }
                    assert forall|d: int| 1 <= d <= 7 implies #[trigger] attach_ui@[d - 1] == last_attached(next, d as u8) by {
                    }
                }
                insert_sorted(lines, &mut order, i);
                proof {
                    assert forall|k: int| 0 <= k < order@.len() implies #[trigger] order@[k] < i + 1 by {
                        assert(order@.contains(order@[k]));
                    }
                }
            },
        }
        i = i + 1;
    }
    assert(lines@.take(i as int) =~= lines@);
    proof {
        assert forall|k: int| 0 <= k < order@.len() implies #[trigger] order@[k] < lines@.len() && lines@[order@[k] as int].attach_ui is None by {
            assert(order@.contains(order@[k]));
        }
    }
    DrawOrder { order, attach_ui }
}

} // verus!
