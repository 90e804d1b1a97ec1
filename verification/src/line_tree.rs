//! How judge lines hang from their parents: a chart is refused when
//! following parents from some line comes back to a line already passed.

use vstd::prelude::*;
use vstd::set_lib::{lemma_int_range, lemma_len_subset, set_int_range};

verus! {

/// The parent a chart's `father` field names: `-1` (or nothing) for none,
/// else the number taken as an index (a negative one wraps around, as an
/// `as` cast does).
pub fn rpe_parent(father: Option<i64>) -> (p: Option<u64>)
    ensures
        p == (match father {
            None => None,
            Some(f) => if f == -1 {
                None
            } else {
                Some(f as u64)
            },
        }),
{
    let f = match father {
        Some(f) => f,
        None => -1,
    };
    if f == -1 {
        None
    } else {
        Some(f as u64)
    }
}

/// Lines passed so far: no line twice, each an index of a line.
pub open spec fn walk_ok(n: int, visited: Seq<u64>) -> bool {
    visited.no_duplicates() && forall|k: int| 0 <= k < visited.len() ==> visited[k] < n
}

/// Distinct indices below `n` are at most `n` many.
pub proof fn lemma_walk_len(n: int, visited: Seq<u64>)
    requires
        n >= 0,
        walk_ok(n, visited),
    ensures
        visited.len() <= n,
{
    let ints = visited.map_values(|x: u64| x as int);
    assert(ints.no_duplicates()) by {
        assert forall|i: int, j: int| 0 <= i < ints.len() && 0 <= j < ints.len() && i != j implies ints[i]
            != ints[j] by {
            assert(visited[i] != visited[j]);
        }
    }
    ints.unique_seq_to_set();
    lemma_int_range(0, n);
    assert(ints.to_set().subset_of(set_int_range(0, n))) by {
        assert forall|x: int| ints.to_set().contains(x) implies set_int_range(0, n).contains(x) by {
            let k = choose|k: int| 0 <= k < ints.len() && ints[k] == x;
            assert(visited[k] < n);
        }
    }
    lemma_len_subset(ints.to_set(), set_int_range(0, n));
}

/// Following parents from `cur`, with the lines passed so far: the first
/// parent that is one of them, or none when a line without a parent (or
/// with a parent that is no line) is reached.
pub open spec fn parent_walk(parents: Seq<Option<u64>>, visited: Seq<u64>, cur: u64) -> Option<u64>
    decreases parents.len() - visited.len(),
{
    if !walk_ok(parents.len() as int, visited) || cur >= parents.len() {
        None
    } else {
        match parents[cur as int] {
            None => None,
            Some(p) => if visited.contains(p) {
                Some(p)
            } else if p >= parents.len() {
                None
            } else {
                proof {
                    lemma_walk_len(parents.len() as int, visited.push(p));
                }
                parent_walk(parents, visited.push(p), p)
            },
        }
    }
}

/// Where the parents of line `i` first come back to a line already passed.
pub open spec fn line_cycle(parents: Seq<Option<u64>>, i: u64) -> Option<u64> {
    parent_walk(parents, seq![i], i)
}

/// Whether every parent is a line.
pub open spec fn parents_in_range(parents: Seq<Option<u64>>) -> bool {
    forall|k: int| 0 <= k < parents.len() ==> (#[trigger] parents[k] matches Some(p) ==> p < parents.len())
}

/// Whether every parent is a line, as the parent check needs.
pub fn all_parents_in_range(parents: &Vec<Option<u64>>) -> (r: bool)
    ensures
        r == parents_in_range(parents@),
{
    let n = parents.len() as u64;
    let mut k: usize = 0;
    while k < parents.len()
        invariant
            k <= parents@.len(),
            n == parents@.len(),
            forall|j: int| 0 <= j < k ==> (#[trigger] parents@[j] matches Some(p) ==> p < parents@.len()),
        decreases parents@.len() - k,
    {
        match parents[k] {
            Some(p) => {
                if p >= n {
                    return false;
                }
            },
            None => {},
        }
        k = k + 1;
    }
    true
}

fn contains_u64(v: &Vec<u64>, x: u64) -> (r: bool)
    ensures
        r == v@.contains(x),
{
    let mut i: usize = 0;
    while i < v.len()
        invariant
            i <= v@.len(),
            forall|k: int| 0 <= k < i ==> v@[k] != x,
        decreases v@.len() - i,
    {
        if v[i] == x {
            return true;
        }
        i = i + 1;
    }
    false
}

/// The line where the parents of line `i` first come back to a line
/// already passed, if they do.
fn walk_from(parents: &Vec<Option<u64>>, i: u64) -> (r: Option<u64>)
    requires
        i < parents@.len(),
        parents_in_range(parents@),
    ensures
        r == line_cycle(parents@, i),
{
    let n = parents.len();
    let mut visited: Vec<u64> = Vec::new();
    visited.push(i);
    let mut cur = i;
    assert(visited@ =~= seq![i]);
    assert(walk_ok(n as int, visited@));
    loop
        invariant
            n == parents@.len(),
            parents_in_range(parents@),
            walk_ok(n as int, visited@),
            cur < n,
            parent_walk(parents@, visited@, cur) == line_cycle(parents@, i),
        decreases n - visited@.len(),
    {
        proof {
            lemma_walk_len(n as int, visited@);
        }
        assert(parents@[cur as int] == parents[cur as int]);
        match parents[cur as usize] {
            None => {
                return None;
            },
            Some(p) => {
                if contains_u64(&visited, p) {
                    return Some(p);
                }
                let ghost before = visited@;
                visited.push(p);
                proof {
                    assert(visited@ == before.push(p));
                    assert(walk_ok(n as int, visited@)) by {
                        assert forall|a: int, b: int|
                            0 <= a < visited@.len() && 0 <= b < visited@.len() && a != b implies visited@[a]
                            != visited@[b] by {
                            if a == before.len() as int {
                                assert(visited@[b] == before[b]);
                            } else if b == before.len() as int {
                                assert(visited@[a] == before[a]);
                            }
                        }
                    }
                    lemma_walk_len(n as int, visited@);
                }
                cur = p;
            },
        }
    }
}

/// The first line (by index) whose parents come back to a line already
/// passed, with the line they come back to; none when the parents form no
/// loop.
pub open spec fn first_cycle(parents: Seq<Option<u64>>, from: int) -> Option<u64>
    decreases parents.len() - from,
{
    if from < 0 || from >= parents.len() {
        None
    } else {
        match line_cycle(parents, from as u64) {
            Some(l) => Some(l),
            None => first_cycle(parents, from + 1),
        }
    }
}

/// The line a chart is refused for: following parents from each line in
/// turn, the first line passed twice; none when no parents loop. Every
/// parent must be a line.
pub fn find_parent_cycle(parents: &Vec<Option<u64>>) -> (r: Option<u64>)
    requires
        parents_in_range(parents@),
    ensures
        r == first_cycle(parents@, 0),
        r is None <==> forall|i: u64| i < parents@.len() ==> #[trigger] line_cycle(parents@, i) is None,
{
    let mut i: usize = 0;
    while i < parents.len()
        invariant
            i <= parents@.len(),
            parents_in_range(parents@),
            first_cycle(parents@, 0) == first_cycle(parents@, i as int),
            forall|k: u64| k < i ==> #[trigger] line_cycle(parents@, k) is None,
        decreases parents@.len() - i,
    {
        match walk_from(parents, i as u64) {
            Some(l) => {
                proof {
                    lemma_first_cycle_some(parents@, i as int);
                }
                return Some(l);
            },
            None => {},
        }
        i = i + 1;
    }
    proof {
        lemma_first_cycle_none(parents@, i as int);
    }
    None
}

proof fn lemma_first_cycle_some(parents: Seq<Option<u64>>, i: int)
    requires
        0 <= i < parents.len(),
        line_cycle(parents, i as u64) is Some,
    ensures
        first_cycle(parents, i) == line_cycle(parents, i as u64),
        exists|k: u64| k < parents.len() && #[trigger] line_cycle(parents, k) is Some,
{
    assert(line_cycle(parents, i as u64) is Some);
}

proof fn lemma_first_cycle_none(parents: Seq<Option<u64>>, i: int)
    requires
        i == parents.len(),
    ensures
        first_cycle(parents, i) is None,
{
}

} // verus!
