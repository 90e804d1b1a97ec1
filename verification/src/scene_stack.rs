//! The stack of scenes the player shows, with the time each covered scene
//! was left at.
//!
//! The top scene is the one shown. Overlaying a scene remembers the time
//! at which the scene below was covered; popping a scene hands that time
//! back, so the clock can return to it. Entering scenes and handing them
//! results is the caller's work.

use vstd::prelude::*;

verus! {

/// What a scene asks for after a frame.
pub enum NextScene<S, R> {
    /// Stay on the current scene.
    Stay,
    /// Close the current scene.
    Pop,
    /// Close this many scenes.
    PopN(usize),
    /// Close the current scene and hand a result to the one below.
    PopWithResult(R),
    /// Close this many scenes and hand a result to the one then shown.
    PopNWithResult(usize, R),
    /// Leave the player.
    Exit,
    /// Show a scene over the current one.
    Overlay(S),
    /// Show a scene in place of the current one.
    Replace(S),
}

/// The scenes shown, bottom first, and the time each covered scene was
/// left at.
pub struct SceneStack<S, T> {
    scenes: Vec<S>,
    times: Vec<T>,
    should_exit: bool,
}

impl<S, T> SceneStack<S, T> {
    /// The scenes, bottom first.
    pub closed spec fn scenes(&self) -> Seq<S> {
        self.scenes@
    }

    /// The time each covered scene was left at, bottom first.
    pub closed spec fn times(&self) -> Seq<T> {
        self.times@
    }

    /// Whether the player is to be left.
    pub closed spec fn exiting(&self) -> bool {
        self.should_exit
    }

    /// Every scene but the top one is covered, and has a time.
    pub open spec fn wf(&self) -> bool {
        self.scenes().len() == self.times().len() + 1
    }

    /// A stack of one scene.
    pub fn new(root: S) -> (s: Self)
        ensures
            s.wf(),
            s.scenes() == seq![root],
            s.times() == Seq::<T>::empty(),
            !s.exiting(),
    {
        let mut scenes = Vec::new();
        scenes.push(root);
        let s = SceneStack { scenes, times: Vec::new(), should_exit: false };
        assert(s.scenes() =~= seq![root]);
        s
    }

    /// How many scenes there are.
    pub fn len(&self) -> (n: usize)
        ensures
            n == self.scenes().len(),
    {
        self.scenes.len()
    }

    /// Whether the player is to be left.
    pub fn should_exit(&self) -> (b: bool)
        ensures
            b == self.exiting(),
    {
        self.should_exit
    }

    /// The scene shown.
    pub fn top_mut(&mut self) -> (r: &mut S)
        requires
            old(self).wf(),
        ensures
            *r == old(self).scenes().last(),
            final(self).scenes() == old(self).scenes().update(
                old(self).scenes().len() - 1,
                *final(r),
            ),
            final(self).times() == old(self).times(),
            final(self).exiting() == old(self).exiting(),
            final(self).wf(),
    {
        let n = self.scenes.len();
        &mut self.scenes[n - 1]
    }

    /// Shows `scene` over the current one, which was left at `now`.
    pub fn overlay(&mut self, scene: S, now: T)
        requires
            old(self).wf(),
        ensures
            final(self).scenes() == old(self).scenes().push(scene),
            final(self).times() == old(self).times().push(now),
            final(self).exiting() == old(self).exiting(),
            final(self).wf(),
    {
        self.times.push(now);
        self.scenes.push(scene);
    }

    /// Shows `scene` in place of the current one.
    pub fn replace_top(&mut self, scene: S)
        requires
            old(self).wf(),
        ensures
            final(self).scenes() == old(self).scenes().update(old(self).scenes().len() - 1, scene),
            final(self).times() == old(self).times(),
            final(self).exiting() == old(self).exiting(),
            final(self).wf(),
    {
        let _ = self.scenes.pop();
        self.scenes.push(scene);
        assert(self.scenes() =~= old(self).scenes().update(old(self).scenes().len() - 1, scene));
    }

    /// Closes the current scene; the scene below is shown again, and the
    /// time it was left at is handed back.
    pub fn pop(&mut self) -> (t: T)
        requires
            old(self).wf(),
            old(self).scenes().len() >= 2,
        ensures
            t == old(self).times().last(),
            final(self).scenes() == old(self).scenes().drop_last(),
            final(self).times() == old(self).times().drop_last(),
            final(self).exiting() == old(self).exiting(),
            final(self).wf(),
    {
        let _ = self.scenes.pop();
        self.times.pop().unwrap()
    }

    /// Closes `n` scenes; the times the uncovered scenes were left at are
    /// handed back, topmost first.
    pub fn pop_n(&mut self, n: usize) -> (ts: Vec<T>)
        requires
            old(self).wf(),
            n < old(self).scenes().len(),
        ensures
            ts@ == old(self).times().skip(old(self).times().len() - n).reverse(),
            final(self).scenes() == old(self).scenes().take(old(self).scenes().len() - n),
            final(self).times() == old(self).times().take(old(self).times().len() - n),
            final(self).exiting() == old(self).exiting(),
            final(self).wf(),
    {
        let ghost s0 = self.scenes();
        let ghost t0 = self.times();
        let mut ts: Vec<T> = Vec::new();
        let mut i: usize = 0;
        assert(s0.take(s0.len() as int) =~= s0);
        assert(t0.take(t0.len() as int) =~= t0);
        assert(t0.skip(t0.len() as int).reverse() =~= ts@);
        while i < n
            invariant
                i <= n,
                n < s0.len(),
                s0.len() == t0.len() + 1,
                self.wf(),
                self.scenes() == s0.take(s0.len() - i),
                self.times() == t0.take(t0.len() - i),
                ts@ == t0.skip(t0.len() - i).reverse(),
                self.exiting() == old(self).exiting(),
            decreases n - i,
        {
            let ghost before = ts@;
            let t = self.pop();
            ts.push(t);
            i = i + 1;
            proof {
                assert(self.scenes() =~= s0.take(s0.len() - i));
                assert(self.times() =~= t0.take(t0.len() - i));
                assert(ts@ =~= t0.skip(t0.len() - i).reverse());
            }
        }
        ts
    }

    /// Marks the player to be left.
    pub fn exit(&mut self)
        requires
            old(self).wf(),
        ensures
            final(self).scenes() == old(self).scenes(),
            final(self).times() == old(self).times(),
            final(self).exiting(),
            final(self).wf(),
    {
        self.should_exit = true;
    }
}

/// What is left to do for a scene's request once the stack has taken its
/// part: entering scenes and handing them results is the scenes' own work.
pub enum SceneWork<S, R> {
    /// Nothing.
    Nothing,
    /// Enter the scene now shown.
    EnterTop,
    /// Hand the result to the scene now shown, then enter it.
    ResultThenEnterTop(R),
    /// Enter this scene, then show it over the current one.
    EnterThenOverlay(S),
    /// Enter this scene, then show it in place of the current one.
    EnterThenReplace(S),
}

/// Whether a stack of `len` scenes can take `next`: every close leaves a
/// scene to show.
pub open spec fn next_allowed<S, R>(len: nat, next: NextScene<S, R>) -> bool {
    match next {
        NextScene::Pop => len >= 2,
        NextScene::PopWithResult(_) => len >= 2,
        NextScene::PopN(n) => n < len,
        NextScene::PopNWithResult(n, _) => n < len,
        _ => true,
    }
}

/// How many scenes `next` closes.
pub open spec fn closes<S, R>(next: NextScene<S, R>) -> nat {
    match next {
        NextScene::Pop => 1,
        NextScene::PopWithResult(_) => 1,
        NextScene::PopN(n) => n as nat,
        NextScene::PopNWithResult(n, _) => n as nat,
        _ => 0,
    }
}

/// The work left for the scenes after `next`.
pub open spec fn work_after<S, R>(next: NextScene<S, R>) -> SceneWork<S, R> {
    match next {
        NextScene::Stay => SceneWork::Nothing,
        NextScene::Pop => SceneWork::EnterTop,
        NextScene::PopN(_) => SceneWork::EnterTop,
        NextScene::PopWithResult(r) => SceneWork::ResultThenEnterTop(r),
        NextScene::PopNWithResult(_, r) => SceneWork::ResultThenEnterTop(r),
        NextScene::Exit => SceneWork::Nothing,
        NextScene::Overlay(s) => SceneWork::EnterThenOverlay(s),
        NextScene::Replace(s) => SceneWork::EnterThenReplace(s),
    }
}

impl<S, T> SceneStack<S, T> {
    /// Takes the stack's part of a scene's request `next`: closes the
    /// scenes it asks to close, handing back the times the uncovered scenes
    /// were left at (topmost first), or marks the player to be left; and
    /// says what is left for the scenes to do. A new scene is not put on
    /// the stack here: it is entered first.
    pub fn take_next<R>(&mut self, next: NextScene<S, R>) -> (r: (Vec<T>, SceneWork<S, R>))
        requires
            old(self).wf(),
            next_allowed(old(self).scenes().len(), next),
        ensures
            final(self).wf(),
            r.0@ == old(self).times().skip(old(self).times().len() - closes(next)).reverse(),
            final(self).scenes() == old(self).scenes().take(old(self).scenes().len() - closes(next)),
            final(self).times() == old(self).times().take(old(self).times().len() - closes(next)),
            final(self).exiting() == (old(self).exiting() || next is Exit),
            r.1 == work_after(next),
    {
        match next {
            NextScene::Stay => {
                assert(self.scenes().take(self.scenes().len() as int) =~= self.scenes());
                assert(self.times().take(self.times().len() as int) =~= self.times());
                assert(self.times().skip(self.times().len() as int).reverse() =~= Seq::<T>::empty());
                (Vec::new(), SceneWork::Nothing)
            },
            NextScene::Pop => (self.pop_n(1), SceneWork::EnterTop),
            NextScene::PopN(n) => (self.pop_n(n), SceneWork::EnterTop),
            NextScene::PopWithResult(x) => (self.pop_n(1), SceneWork::ResultThenEnterTop(x)),
            NextScene::PopNWithResult(n, x) => (self.pop_n(n), SceneWork::ResultThenEnterTop(x)),
            NextScene::Exit => {
                assert(self.scenes().take(self.scenes().len() as int) =~= self.scenes());
                assert(self.times().take(self.times().len() as int) =~= self.times());
                assert(self.times().skip(self.times().len() as int).reverse() =~= Seq::<T>::empty());
                self.exit();
                (Vec::new(), SceneWork::Nothing)
            },
            NextScene::Overlay(s) => {
                assert(self.scenes().take(self.scenes().len() as int) =~= self.scenes());
                assert(self.times().take(self.times().len() as int) =~= self.times());
                assert(self.times().skip(self.times().len() as int).reverse() =~= Seq::<T>::empty());
                (Vec::new(), SceneWork::EnterThenOverlay(s))
            },
            NextScene::Replace(s) => {
                assert(self.scenes().take(self.scenes().len() as int) =~= self.scenes());
                assert(self.times().take(self.times().len() as int) =~= self.times());
                assert(self.times().skip(self.times().len() as int).reverse() =~= Seq::<T>::empty());
                (Vec::new(), SceneWork::EnterThenReplace(s))
            },
        }
    }
}

/// Closing a scene undoes overlaying it: a stack `s1` that `overlay`
/// made from `s0` with `scene` at `now`, then closed by `pop` into `s2`
/// with time `t`, is `s0` again, and `t` is `now`.
pub proof fn lemma_overlay_pop<S, T>(
    s0: SceneStack<S, T>,
    s1: SceneStack<S, T>,
    s2: SceneStack<S, T>,
    scene: S,
    now: T,
    t: T,
)
    requires
        s1.scenes() == s0.scenes().push(scene),
        s1.times() == s0.times().push(now),
        s2.scenes() == s1.scenes().drop_last(),
        s2.times() == s1.times().drop_last(),
        t == s1.times().last(),
    ensures
        s2.scenes() == s0.scenes(),
        s2.times() == s0.times(),
        t == now,
{
    assert(s0.scenes().push(scene).drop_last() =~= s0.scenes());
    assert(s0.times().push(now).drop_last() =~= s0.times());
}

/// The ending screen's next scene, and whether its music is to be paused:
/// nothing while its closing transition runs; else by the button pressed
/// (`0` none, `1` back to the chart list, `2` back two scenes, handing
/// on the play's record when there is one), the music paused when one was.
pub fn ending_next_scene<S, R>(transitioning: bool, next: u8, record: Option<R>) -> (r: (NextScene<S, R>, bool))
    requires
        next <= 2,
    ensures
        r.1 == (!transitioning && next != 0),
        transitioning || next == 0 ==> r.0 is Stay,
        !transitioning && next == 1 ==> r.0 is Pop,
        !transitioning && next == 2 ==> match record {
            Some(rec) => r.0 matches NextScene::PopNWithResult(n, x) && n == 2 && x == rec,
            None => r.0 matches NextScene::PopN(n) && n == 2,
        },
{
    if transitioning {
        return (NextScene::Stay, false);
    }
    if next == 0 {
        (NextScene::Stay, false)
    } else if next == 1 {
        (NextScene::Pop, true)
    } else {
        match record {
            Some(rec) => (NextScene::PopNWithResult(2, rec), true),
            None => (NextScene::PopN(2), true),
        }
    }
}

/// The loading screen's next scene: a result to hand down goes at once;
/// any other scene it was given waits until the screen has finished
/// (`finished`); else it stays.
pub fn loading_next_scene<S, R>(finished: bool, pending: &mut Option<NextScene<S, R>>) -> (r: NextScene<S, R>)
    ensures
        (*old(pending) matches Some(NextScene::PopWithResult(_))) || (finished && (*old(pending)) is Some)
            ==> (*final(pending)) is None && Some(r) == *old(pending),
        !(*old(pending) matches Some(NextScene::PopWithResult(_))) && !(finished && (*old(pending)) is Some)
            ==> r is Stay && *final(pending) == *old(pending),
{
    let hand_down = match pending {
        Some(NextScene::PopWithResult(_)) => true,
        _ => false,
    };
    if hand_down || (finished && pending.is_some()) {
        match pending.take() {
            Some(n) => n,
            None => NextScene::Stay,
        }
    } else {
        NextScene::Stay
    }
}

/// How a chart is played.
#[derive(Clone, Copy, Debug, PartialEq, Eq, Structural)]
pub enum GameMode {
    Normal,
    TweakOffset,
    Exercise,
    NoRetry,
    View,
}

/// The game's next scene, and whether the clock is to be set back to
/// normal (resumed, at normal speed, without time adjustment): leaving the
/// game closes it, handing `cancelled` down when the offset was being
/// tweaked; else a scene the game asked for is taken; else it stays.
pub fn game_next_scene<S, R>(
    should_exit: bool,
    mode: GameMode,
    cancelled: R,
    pending: &mut Option<NextScene<S, R>>,
) -> (r: (NextScene<S, R>, bool))
    ensures
        should_exit ==> r.1 && *final(pending) == *old(pending) && if mode == GameMode::TweakOffset {
            r.0 matches NextScene::PopWithResult(x) && x == cancelled
        } else {
            r.0 is Pop
        },
        !should_exit ==> (*final(pending)) is None && match *old(pending) {
            Some(n) => r.0 == n && r.1,
            None => r.0 is Stay && !r.1,
        },
{
    if should_exit {
        match mode {
            GameMode::TweakOffset => (NextScene::PopWithResult(cancelled), true),
            _ => (NextScene::Pop, true),
        }
    } else {
        match pending.take() {
            Some(n) => (n, true),
            None => (NextScene::Stay, false),
        }
    }
}

} // verus!
