//! Judgement bookkeeping: counts of each judgement, the running combo and
//! the best combo of a play, and the result icon of a final score.
//!
//! The score and accuracy of a play are floating-point formulas over these
//! counts and are computed outside the verified library.

use vstd::prelude::*;
use crate::note::NoteKind;
use crate::text::str_eq;

verus! {

/// The judgement of one note.
#[derive(Clone, Copy, Debug, PartialEq, Eq, Structural)]
pub enum Judgement {
    Perfect,
    Good,
    Bad,
    Miss,
}

/// Position of a judgement in the counts array.
pub open spec fn judgement_index(j: Judgement) -> int {
    match j {
        Judgement::Perfect => 0,
        Judgement::Good => 1,
        Judgement::Bad => 2,
        Judgement::Miss => 3,
    }
}

/// Whether a judgement keeps the combo going.
pub open spec fn keeps_combo(j: Judgement) -> bool {
    j == Judgement::Perfect || j == Judgement::Good
}

/// The sound a note makes when hit.
#[derive(Clone, Debug)]
pub enum HitSound {
    /// No sound.
    Silent,
    Click,
    Flick,
    Drag,
    /// A sound the chart brings, by name.
    Custom(String),
}

impl HitSound {
    /// The sound of a note of kind `kind` that names no sound of its own:
    /// flicks and drags have their own, clicks and holds click.
    pub fn default_from_kind(kind: &NoteKind) -> (s: Self)
        ensures
            s is Click <==> (*kind is Click || *kind is Hold),
            s is Flick <==> *kind is Flick,
            s is Drag <==> *kind is Drag,
    {
        match kind {
            NoteKind::Click => HitSound::Click,
            NoteKind::Flick => HitSound::Flick,
            NoteKind::Drag => HitSound::Drag,
            NoteKind::Hold { .. } => HitSound::Click,
        }
    }

    /// The sound an RPE note names: the built-in `flick.mp3`, `tap.mp3` and
    /// `drag.mp3` are the flick, click and drag sounds, any other name is a
    /// sound the chart brings; a note naming none sounds as its kind does.
    pub fn from_rpe_name(name: Option<String>, kind: &NoteKind) -> (s: Self)
        ensures
            match name {
                None => (s is Click <==> (*kind is Click || *kind is Hold)) && (s is Flick <==> *kind is Flick)
                    && (s is Drag <==> *kind is Drag),
                Some(n) => if n@ == "flick.mp3"@ {
                    s is Flick
                } else if n@ == "tap.mp3"@ {
                    s is Click
                } else if n@ == "drag.mp3"@ {
                    s is Drag
                } else {
                    s matches HitSound::Custom(c) && c == n
                },
            },
    {
        match name {
            None => Self::default_from_kind(kind),
            Some(n) => if str_eq(n.as_str(), "flick.mp3") {
                HitSound::Flick
            } else if str_eq(n.as_str(), "tap.mp3") {
                HitSound::Click
            } else if str_eq(n.as_str(), "drag.mp3") {
                HitSound::Drag
            } else {
                HitSound::Custom(n)
            },
        }
    }
}

/// Running totals of a play.
pub struct JudgeInner {
    combo: u32,
    max_combo: u32,
    counts: [u32; 4],
    num_of_notes: u32,
    good_early: u32,
    good_late: u32,
}

/// The mathematical state of a play.
pub struct JudgeState {
    pub combo: nat,
    pub max_combo: nat,
    pub counts: Seq<nat>,
    pub num_of_notes: nat,
    pub good_early: nat,
    pub good_late: nat,
}

/// Total number of judgements in a counts sequence.
pub open spec fn total_of(counts: Seq<nat>) -> nat {
    counts[0] + counts[1] + counts[2] + counts[3]
}

/// The state after committing `what`; `early` tells whether a Good came
/// before the note's time.
pub open spec fn commit_state(s: JudgeState, what: Judgement, early: bool) -> JudgeState {
    let combo = if keeps_combo(what) {
        s.combo + 1
    } else {
        0
    };
    JudgeState {
        combo: combo as nat,
        max_combo: if combo > s.max_combo {
            combo as nat
        } else {
            s.max_combo
        },
        counts: s.counts.update(judgement_index(what), s.counts[judgement_index(what)] + 1),
        num_of_notes: s.num_of_notes,
        good_early: if what == Judgement::Good && early {
            s.good_early + 1
        } else {
            s.good_early
        },
        good_late: if what == Judgement::Good && !early {
            s.good_late + 1
        } else {
            s.good_late
        },
    }
}

/// The invariant kept by every sequence of commits: the combo never
/// exceeds the best combo, which never exceeds the number of judgements,
/// and the early and late Goods add up to the Goods.
pub open spec fn state_consistent(s: JudgeState) -> bool {
    &&& s.counts.len() == 4
    &&& s.combo <= s.max_combo
    &&& s.max_combo <= total_of(s.counts)
    &&& s.good_early + s.good_late == s.counts[1]
}

impl View for JudgeInner {
    type V = JudgeState;

    /// The state of the play.
    closed spec fn view(&self) -> JudgeState {
        JudgeState {
            combo: self.combo as nat,
            max_combo: self.max_combo as nat,
            counts: self.counts@.map_values(|c: u32| c as nat),
            num_of_notes: self.num_of_notes as nat,
            good_early: self.good_early as nat,
            good_late: self.good_late as nat,
        }
    }
}

impl JudgeInner {
    #[verifier::type_invariant]
    spec fn inv(self) -> bool {
        state_consistent(self@)
    }

    /// A fresh play of `num_of_notes` notes.
    pub fn new(num_of_notes: u32) -> (j: Self)
        ensures
            j@ == fresh_state(num_of_notes as nat),
    {
        let j = JudgeInner {
            combo: 0,
            max_combo: 0,
            counts: [0, 0, 0, 0],
            num_of_notes,
            good_early: 0,
            good_late: 0,
        };
        assert(j.counts@.map_values(|c: u32| c as nat) =~= seq![0nat, 0nat, 0nat, 0nat]);
        j
    }

    /// Records a judgement. Perfect and Good extend the combo (and the best
    /// combo with it); Bad and Miss break it. `early` tells, for a Good,
    /// whether it came before the note's time.
    pub fn commit(&mut self, what: Judgement, early: bool)
        requires
            total_of(old(self)@.counts) < u32::MAX,
        ensures
            final(self)@ == commit_state(old(self)@, what, early),
    {
        proof {
            use_type_invariant(&*self);
        }
        let ghost s0 = self@;
        let idx: usize = match what {
            Judgement::Perfect => 0,
            Judgement::Good => 1,
            Judgement::Bad => 2,
            Judgement::Miss => 3,
        };
        let mut counts = self.counts;
        assert(counts[idx as int] <= total_of(s0.counts));
        counts[idx] = counts[idx] + 1;
        let mut combo = self.combo;
        let mut max_combo = self.max_combo;
        let mut good_early = self.good_early;
        let mut good_late = self.good_late;
        match what {
            Judgement::Perfect | Judgement::Good => {
                combo = combo + 1;
                if combo > max_combo {
                    max_combo = combo;
                }
            },
            _ => {
                combo = 0;
            },
        }
        if let Judgement::Good = what {
            if early {
                good_early = good_early + 1;
            } else {
                good_late = good_late + 1;
            }
        }
        let ghost expect = commit_state(s0, what, early);
        proof {
            assert(counts@.map_values(|c: u32| c as nat) =~= expect.counts);
        }
        *self = JudgeInner { combo, max_combo, counts, num_of_notes: self.num_of_notes, good_early, good_late };
    }

    /// Forgets every judgement; the number of notes stays.
    pub fn reset(&mut self)
        ensures
            final(self)@ == fresh_state(old(self)@.num_of_notes),
    {
        let n = self.num_of_notes;
        *self = JudgeInner::new(n);
    }

    /// The current combo.
    pub fn combo(&self) -> (c: u32)
        ensures
            c == self@.combo,
    {
        self.combo
    }

    /// The best combo so far.
    pub fn max_combo(&self) -> (c: u32)
        ensures
            c == self@.max_combo,
    {
        self.max_combo
    }

    /// The number of Perfect, Good, Bad and Miss judgements, in that order.
    pub fn counts(&self) -> (c: [u32; 4])
        ensures
            c@.map_values(|x: u32| x as nat) == self@.counts,
    {
        self.counts
    }

    /// The number of notes of the play.
    pub fn num_of_notes(&self) -> (n: u32)
        ensures
            n == self@.num_of_notes,
    {
        self.num_of_notes
    }

    /// The number of Goods before and after their notes' times.
    pub fn early_late(&self) -> (r: (u32, u32))
        ensures
            r.0 == self@.good_early,
            r.1 == self@.good_late,
    {
        (self.good_early, self.good_late)
    }
}

/// Every state reached from a fresh play by commits satisfies the
/// bookkeeping invariant, and a commit adds exactly one judgement.
pub proof fn lemma_commit_keeps_consistent(s: JudgeState, what: Judgement, early: bool)
    requires
        state_consistent(s),
    ensures
        state_consistent(commit_state(s, what, early)),
        total_of(commit_state(s, what, early).counts) == total_of(s.counts) + 1,
        commit_state(s, what, early).max_combo >= s.max_combo,
        keeps_combo(what) ==> commit_state(s, what, early).combo == s.combo + 1,
        !keeps_combo(what) ==> commit_state(s, what, early).combo == 0,
{
}

/// The state of a fresh play of `n` notes.
pub open spec fn fresh_state(n: nat) -> JudgeState {
    JudgeState {
        combo: 0,
        max_combo: 0,
        counts: seq![0nat, 0nat, 0nat, 0nat],
        num_of_notes: n,
        good_early: 0,
        good_late: 0,
    }
}

/// The state after committing each judgement of `ws` in turn, each with
/// its early flag.
pub open spec fn commits_from(s: JudgeState, ws: Seq<(Judgement, bool)>) -> JudgeState
    decreases ws.len(),
{
    if ws.len() == 0 {
        s
    } else {
        commit_state(commits_from(s, ws.drop_last()), ws.last().0, ws.last().1)
    }
}

/// How many commits of `ws` pass `p`.
pub open spec fn count_where(ws: Seq<(Judgement, bool)>, p: spec_fn((Judgement, bool)) -> bool) -> nat
    decreases ws.len(),
{
    if ws.len() == 0 {
        0
    } else {
        count_where(ws.drop_last(), p) + if p(ws.last()) {
            1nat
        } else {
            0nat
        }
    }
}

/// How many judgements of `ws` are `j`.
pub open spec fn count_of(ws: Seq<(Judgement, bool)>, j: Judgement) -> nat {
    count_where(ws, |w: (Judgement, bool)| w.0 == j)
}

/// The length of the run of Perfects and Goods that ends `ws`.
pub open spec fn trailing_run(ws: Seq<(Judgement, bool)>) -> nat
    decreases ws.len(),
{
    if ws.len() == 0 {
        0
    } else if keeps_combo(ws.last().0) {
        trailing_run(ws.drop_last()) + 1
    } else {
        0
    }
}

/// The length of the longest run of Perfects and Goods in `ws`.
pub open spec fn longest_run(ws: Seq<(Judgement, bool)>) -> nat
    decreases ws.len(),
{
    if ws.len() == 0 {
        0
    } else {
        let before = longest_run(ws.drop_last());
        if trailing_run(ws) > before {
            trailing_run(ws)
        } else {
            before
        }
    }
}

/// A play that starts fresh and commits the judgements of `ws` in turn
/// counts each kind of judgement as often as it occurs, has as combo the
/// run of Perfects and Goods that ends the play and as best combo the
/// longest such run, counts each Good as early or late by its flag, and
/// keeps its number of notes.
pub proof fn lemma_commits_count(n: nat, ws: Seq<(Judgement, bool)>)
    ensures
        commits_from(fresh_state(n), ws).counts == seq![
            count_of(ws, Judgement::Perfect),
            count_of(ws, Judgement::Good),
            count_of(ws, Judgement::Bad),
            count_of(ws, Judgement::Miss),
        ],
        commits_from(fresh_state(n), ws).combo == trailing_run(ws),
        commits_from(fresh_state(n), ws).max_combo == longest_run(ws),
        commits_from(fresh_state(n), ws).good_early == count_where(
            ws,
            |w: (Judgement, bool)| w.0 == Judgement::Good && w.1,
        ),
        commits_from(fresh_state(n), ws).good_late == count_where(
            ws,
            |w: (Judgement, bool)| w.0 == Judgement::Good && !w.1,
        ),
        commits_from(fresh_state(n), ws).num_of_notes == n,
        total_of(commits_from(fresh_state(n), ws).counts) == ws.len(),
    decreases ws.len(),
{
    if ws.len() == 0 {
        assert(fresh_state(n).counts =~= seq![0nat, 0nat, 0nat, 0nat]);
    } else {
        lemma_commits_count(n, ws.drop_last());
        let before = commits_from(fresh_state(n), ws.drop_last());
        let after = commits_from(fresh_state(n), ws);
        assert(after == commit_state(before, ws.last().0, ws.last().1));
        assert(after.counts =~= seq![
            count_of(ws, Judgement::Perfect),
            count_of(ws, Judgement::Good),
            count_of(ws, Judgement::Bad),
            count_of(ws, Judgement::Miss),
        ]);
    }
}

/// The result icon of a final score: grades by thresholds, 7 for a perfect
/// million, and 6 or 5 above the last threshold depending on a full combo.
pub open spec fn spec_icon_index(score: u32, full_combo: bool) -> nat {
    if score < 700000 {
        0
    } else if score < 820000 {
        1
    } else if score < 880000 {
        2
    } else if score < 920000 {
        3
    } else if score < 960000 {
        4
    } else if score == 1000000 {
        7
    } else if !full_combo {
        5
    } else {
        6
    }
}

/// Index of the result icon for a final score.
pub fn icon_index(score: u32, full_combo: bool) -> (i: usize)
    ensures
        i == spec_icon_index(score, full_combo),
{
    if score < 700000 {
        0
    } else if score < 820000 {
        1
    } else if score < 880000 {
        2
    } else if score < 920000 {
        3
    } else if score < 960000 {
        4
    } else if score == 1000000 {
        7
    } else if !full_combo {
        5
    } else {
        6
    }
}

/// The result icons by score: below 700000 the lowest grade (0), then a
/// grade each from 700000 (1), 820000 (2), 880000 (3) and 920000 (4); from
/// 960000 the full-combo icon (6) or the plain one (5), and for exactly
/// 1000000 the perfect icon (7).
pub proof fn lemma_icon_grades(score: u32, full_combo: bool)
    ensures
        score < 700000 ==> spec_icon_index(score, full_combo) == 0,
        700000 <= score < 820000 ==> spec_icon_index(score, full_combo) == 1,
        820000 <= score < 880000 ==> spec_icon_index(score, full_combo) == 2,
        880000 <= score < 920000 ==> spec_icon_index(score, full_combo) == 3,
        920000 <= score < 960000 ==> spec_icon_index(score, full_combo) == 4,
        960000 <= score && score != 1000000 && !full_combo ==> spec_icon_index(score, full_combo) == 5,
        960000 <= score && score != 1000000 && full_combo ==> spec_icon_index(score, full_combo) == 6,
        score == 1000000 ==> spec_icon_index(score, full_combo) == 7,
{
}

/// Up to a million, a higher score never gets a lower icon, and a full
/// combo never gets a lower icon than the same score without one.
pub proof fn lemma_icon_index_monotone(s1: u32, s2: u32, fc1: bool, fc2: bool)
    requires
        s1 <= s2 <= 1000000,
        fc1 ==> fc2,
    ensures
        spec_icon_index(s1, fc1) <= spec_icon_index(s2, fc2),
{
}

} // verus!
