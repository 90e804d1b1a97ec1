//! Replay judgements.
//!
//! A replay records, for every judged note, the judgement that was
//! committed; a hold note accepted on press is recorded as a pre-judge
//! that scores nothing on its own. During playback the same judgements are
//! applied again.

use vstd::prelude::*;
use crate::judge::Judgement;
use crate::text::{chars_of, string_of};

verus! {

/// The persisted form of a committed judgement.
#[derive(Clone, Copy, Debug, PartialEq, Eq, Structural)]
pub enum ReplayJudgement {
    Perfect,
    Good,
    Bad,
    Miss,
    /// Hold note accepted on press, rated Perfect.
    HoldPerfect,
    /// Hold note accepted on press, rated Good.
    HoldGood,
}

/// What the judge commits: a judgement, or for a hold note accepted on
/// press `Err(perfect)`.
pub open spec fn spec_from_commit(r: Result<Judgement, bool>) -> ReplayJudgement {
    match r {
        Ok(Judgement::Perfect) => ReplayJudgement::Perfect,
        Ok(Judgement::Good) => ReplayJudgement::Good,
        Ok(Judgement::Bad) => ReplayJudgement::Bad,
        Ok(Judgement::Miss) => ReplayJudgement::Miss,
        Err(true) => ReplayJudgement::HoldPerfect,
        Err(false) => ReplayJudgement::HoldGood,
    }
}

/// The judgement that playback commits, none for a pre-judge.
pub open spec fn spec_to_judgement(r: ReplayJudgement) -> Option<Judgement> {
    match r {
        ReplayJudgement::Perfect => Some(Judgement::Perfect),
        ReplayJudgement::Good => Some(Judgement::Good),
        ReplayJudgement::Bad => Some(Judgement::Bad),
        ReplayJudgement::Miss => Some(Judgement::Miss),
        _ => None,
    }
}

impl ReplayJudgement {
    /// The record of a committed judgement.
    pub fn from_commit(r: Result<Judgement, bool>) -> (j: Self)
        ensures
            j == spec_from_commit(r),
    {
        match r {
            Ok(Judgement::Perfect) => ReplayJudgement::Perfect,
            Ok(Judgement::Good) => ReplayJudgement::Good,
            Ok(Judgement::Bad) => ReplayJudgement::Bad,
            Ok(Judgement::Miss) => ReplayJudgement::Miss,
            Err(true) => ReplayJudgement::HoldPerfect,
            Err(false) => ReplayJudgement::HoldGood,
        }
    }

    /// The judgement to commit in playback, or `None` for a hold
    /// pre-judge.
    pub fn to_judgement(self) -> (j: Option<Judgement>)
        ensures
            j == spec_to_judgement(self),
    {
        match self {
            ReplayJudgement::Perfect => Some(Judgement::Perfect),
            ReplayJudgement::Good => Some(Judgement::Good),
            ReplayJudgement::Bad => Some(Judgement::Bad),
            ReplayJudgement::Miss => Some(Judgement::Miss),
            ReplayJudgement::HoldPerfect | ReplayJudgement::HoldGood => None,
        }
    }

    /// Whether this record is a hold pre-judge.
    pub fn is_hold_prejudge(self) -> (b: bool)
        ensures
            b == (self == ReplayJudgement::HoldPerfect || self == ReplayJudgement::HoldGood),
    {
        match self {
            ReplayJudgement::HoldPerfect | ReplayJudgement::HoldGood => true,
            _ => false,
        }
    }
}

/// Each judgement is recorded under its own name, a hold accepted on
/// press under the pre-judge of its rating, and playback commits each
/// recorded judgement under its own name.
pub proof fn lemma_replay_names(r: ReplayJudgement)
    ensures
        spec_from_commit(Ok(Judgement::Perfect)) == ReplayJudgement::Perfect,
        spec_from_commit(Ok(Judgement::Good)) == ReplayJudgement::Good,
        spec_from_commit(Ok(Judgement::Bad)) == ReplayJudgement::Bad,
        spec_from_commit(Ok(Judgement::Miss)) == ReplayJudgement::Miss,
        spec_from_commit(Err(true)) == ReplayJudgement::HoldPerfect,
        spec_from_commit(Err(false)) == ReplayJudgement::HoldGood,
        r == ReplayJudgement::Perfect ==> spec_to_judgement(r) == Some(Judgement::Perfect),
        r == ReplayJudgement::Good ==> spec_to_judgement(r) == Some(Judgement::Good),
        r == ReplayJudgement::Bad ==> spec_to_judgement(r) == Some(Judgement::Bad),
        r == ReplayJudgement::Miss ==> spec_to_judgement(r) == Some(Judgement::Miss),
{
}

/// Playback commits exactly the judgement that was recorded, and a hold
/// pre-judge is recorded as a pre-judge that commits nothing.
pub proof fn lemma_replay_roundtrip(r: Result<Judgement, bool>)
    ensures
        r matches Ok(j) ==> spec_to_judgement(spec_from_commit(r)) == Some(j),
        r is Err <==> spec_to_judgement(spec_from_commit(r)) is None,
        r matches Err(perfect) ==> spec_from_commit(r) == (if perfect {
            ReplayJudgement::HoldPerfect
        } else {
            ReplayJudgement::HoldGood
        }),
{
}

/// A record is a pre-judge exactly when playback commits nothing for it.
pub proof fn lemma_prejudge_commits_nothing(r: ReplayJudgement)
    ensures
        (r == ReplayJudgement::HoldPerfect || r == ReplayJudgement::HoldGood) <==> spec_to_judgement(r) is None,
{
}

/// Whether the next game scene should record, handed from the launch path
/// to the scene: `take` returns what was last `set` and clears it.
pub struct PendingRecord {
    on: bool,
}

impl View for PendingRecord {
    type V = bool;

    closed spec fn view(&self) -> bool {
        self.on
    }
}

impl PendingRecord {
    /// Nothing pending.
    pub fn new() -> (p: Self)
        ensures
            p@ == false,
    {
        PendingRecord { on: false }
    }

    /// Queues (or cancels) recording for the next scene.
    pub fn set_pending_record(&mut self, on: bool)
        ensures
            final(self)@ == on,
    {
        self.on = on;
    }

    /// Takes the pending flag, leaving nothing pending.
    pub fn take_pending_record(&mut self) -> (v: bool)
        ensures
            v == old(self)@,
            final(self)@ == false,
    {
        let v = self.on;
        self.on = false;
        v
    }
}

/// Whether `c` is a control character (general category Cc: `U+0000` to
/// `U+001F` and `U+007F` to `U+009F`).
pub open spec fn is_control(c: char) -> bool {
    (c as u32) <= 0x1f || (0x7f <= (c as u32) && (c as u32) <= 0x9f)
}

/// A character of a chart name as it may stand in a file name: the
/// characters that file systems reserve, and control characters, become
/// `_`.
pub open spec fn file_name_char(c: char) -> char {
    if c == '/' || c == '\\' || c == ':' || c == '*' || c == '?' || c == '"' || c == '<' || c
        == '>' || c == '|' || is_control(c) {
        '_'
    } else {
        c
    }
}

/// A chart name made safe to stand in a replay's file name.
pub fn safe_file_name(name: &str) -> (s: String)
    ensures
        s@ == name@.map_values(|c: char| file_name_char(c)),
{
    let cs = chars_of(name);
    let mut out: Vec<char> = Vec::new();
    let mut i: usize = 0;
    while i < cs.len()
        invariant
            i <= cs.len(),
            cs@ == name@,
            out@ == cs@.take(i as int).map_values(|c: char| file_name_char(c)),
        decreases cs.len() - i,
    {
        let c = cs[i];
        let u = c as u32;
        let m = if c == '/' || c == '\\' || c == ':' || c == '*' || c == '?' || c == '"' || c == '<'
            || c == '>' || c == '|' || u <= 0x1f || (0x7f <= u && u <= 0x9f) {
            '_'
        } else {
            c
        };
        out.push(m);
        i = i + 1;
        assert(out@ =~= cs@.take(i as int).map_values(|c: char| file_name_char(c)));
    }
    assert(cs@.take(cs.len() as int) =~= cs@);
    string_of(&out)
}

/// The character of the decimal digit `d`.
pub open spec fn digit_char(d: nat) -> char {
    ((d + 48) as u8) as char
}

/// The decimal digits of `n`, most significant first, without leading
/// zeros (`0` is one digit).
pub open spec fn decimal_digits(n: nat) -> Seq<char>
    decreases n,
{
    if n < 10 {
        seq![digit_char(n)]
    } else {
        decimal_digits(n / 10).push(digit_char(n % 10))
    }
}

/// `n` written in decimal, with a `-` before a negative number.
pub open spec fn decimal(n: int) -> Seq<char> {
    if n < 0 {
        seq!['-'] + decimal_digits((-n) as nat)
    } else {
        decimal_digits(n as nat)
    }
}

fn digits_of_u64(m: u64) -> (v: Vec<char>)
    ensures
        v@ == decimal_digits(m as nat),
    decreases m,
{
    let d = ((m % 10) as u8 + 48u8) as char;
    if m < 10 {
        let mut v: Vec<char> = Vec::new();
        v.push(d);
        assert(v@ =~= seq![digit_char(m as nat)]);
        v
    } else {
        let mut v = digits_of_u64(m / 10);
        v.push(d);
        v
    }
}

/// The file a replay is saved under: the session's timestamp in decimal,
/// `_`, the chart name made safe, and `.json`.
pub fn replay_file_name(timestamp: i64, chart_name: &str) -> (s: String)
    ensures
        s@ == decimal(timestamp as int) + seq!['_'] + chart_name@.map_values(
            |c: char| file_name_char(c),
        ) + ".json"@,
{
    let mut cs: Vec<char> = Vec::new();
    let magnitude: u64 = if timestamp < 0 {
        cs.push('-');
        (0i128 - timestamp as i128) as u64
    } else {
        timestamp as u64
    };
    let mut digits = digits_of_u64(magnitude);
    cs.append(&mut digits);
    cs.push('_');
    let head = string_of(&cs);
    proof {
        assert(head@ =~= decimal(timestamp as int) + seq!['_']);
    }
    let safe = safe_file_name(chart_name);
    head.concat(safe.as_str()).concat(".json")
}

} // verus!
