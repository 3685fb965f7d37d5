//! Playback as time goes on: seeks, speeds, hit sounds, loops and the end of a track.
use vstd::prelude::*;

use crate::audio;
use crate::clock::{Anchor, Clock, Tick};
use crate::ieee::{Double, Single};
use crate::ipc;
use crate::ipc::Event;
use crate::wall;
use crate::wall::{Action, Music, Wall};

verus! {

impl Wall {
    /// Where a seek leads to: not before the beginning, and not behind the end, which is half a
    /// second before that of the music.
    pub open spec fn seek_target(ms: Single, end: Single) -> Single {
        let zero = Single { bits: 0 };
        ms.larger(zero).smaller(end.larger(zero))
    }

    /// Where a seek leads to; `end` is half a second less than the duration.
    pub fn clamp_seek(ms: Single, end: Single) -> (r: Single)
        ensures
            r == Wall::seek_target(ms, end),
    {
        let zero: Single = Single { bits: 0 };
        ms.max(zero).min(end.max(zero))
    }

    /// A jump that a video does not follow frame by frame: back by more than half a second, or
    /// ahead by more than two.
    pub open spec fn far_jump(jump: Single) -> bool {
        jump.below(Single { bits: wall::JUMP_BACK }) || (Single { bits: wall::JUMP_AHEAD }).below(jump)
    }

    /// After a seek the clock stands at its target and everything that is played at its time goes
    /// on from there. Music that has ended plays again.
    pub open spec fn sought(self, ms: Single, dead: bool, hits: int, samples: int) -> Wall {
        let w = Wall {
            clock: self.clock.sought(ms),
            ended_sent: false,
            hs_cursor: hits as usize,
            sb_cursor: samples as usize,
            ..self
        };
        if dead {
            Wall {
                clock: Clock { playing: true, ..w.clock },
                hold: wall::Hold { user_paused: false, ..w.hold },
                ..w
            }
        } else {
            w
        }
    }

    pub open spec fn seek_actions(self, ms: Single, jump: Single, dead: bool) -> Seq<Action> {
        wall::when(Wall::far_jump(jump) && self.stage.storyboard, Action::ResetVideo) + seq![
            Action::StopSamples,
            Action::StopLoops,
        ] + if dead {
            self.music.revived(self.clock.speed, ms)
        } else {
            wall::when(self.music.device, Action::SeekMusic { ms })
        }
    }

    /// Seeks to a target that was clamped; `jump` is how far it is, `dead` that the music has
    /// ended, and `at` the time of the hit sounds there.
    pub fn seek_to(
        &mut self,
        ms: Single,
        jump: Single,
        dead: bool,
        at: Double,
        hits: &Vec<Double>,
        samples: &Vec<Double>,
    ) -> (r: Vec<Action>)
        requires
            dead ==> old(self).music.device,
        ensures
            *final(self) == old(self).sought(
                ms,
                dead,
                wall::passed(hits@, at, false),
                wall::passed(samples@, at, false),
            ),
            r@ == old(self).seek_actions(ms, jump, dead),
    {
        let mut r: Vec<Action> = Vec::new();
        let far: bool = jump.lt(&Single { bits: wall::JUMP_BACK })
            || (Single { bits: wall::JUMP_AHEAD }).lt(&jump);
        wall::push_when(&mut r, far && self.stage.storyboard, Action::ResetVideo);
        self.clock.seek(ms);
        self.ended_sent = false;
        self.hs_cursor = wall::count_passed(hits, at);
        r.push(Action::StopSamples);
        self.sb_cursor = wall::count_passed(samples, at);
        r.push(Action::StopLoops);
        if dead {
            let mut m: Vec<Action> = self.music.revive_at(self.clock.speed, ms);
            r.append(&mut m);
            self.clock.playing = true;
            self.hold.user_paused = false;
        } else {
            wall::push_when(&mut r, self.music.device, Action::SeekMusic { ms });
        }
        assert(r@ =~= old(self).seek_actions(ms, jump, dead));
        r
    }

    /// Takes up a new speed; `product` is the rate of the track times the user's speed.
    pub fn retime(&mut self, product: Single) -> (r: Vec<Action>)
        ensures
            *final(self) == (Wall {
                clock: Clock { speed: audio::rate_within(product), ..old(self).clock },
                music: old(self).music.at_speed(audio::rate_within(product)),
                ..*old(self)
            }),
            r@ == old(self).music.speed_actions(old(self).clock.t, audio::rate_within(product)),
    {
        let eff: Single = audio::clamp_rate(product);
        self.clock.speed = eff;
        self.music.change_speed(self.clock.t, eff)
    }

    /// Takes up a new offset; `at` is the time of the hit sounds with it.
    pub fn realign(&mut self, at: Double, hits: &Vec<Double>)
        ensures
            *final(self) == (Wall {
                hs_cursor: wall::passed(hits@, at, false) as usize,
                ..*old(self)
            }),
    {
        self.hs_cursor = wall::count_passed(hits, at);
    }

    /// Stretched music has come: what waited for it goes on from now.
    pub open spec fn with_stretched(self, path: String) -> Wall {
        if !self.music.device {
            self
        } else if self.music.pending {
            Wall {
                clock: Clock { ticking: false, ..self.clock },
                music: Music { stretched: Some(path), pending: false, ..self.music },
                ..self
            }
        } else {
            Wall { music: Music { stretched: Some(path), ..self.music }, ..self }
        }
    }

    /// It is played from where the clock stands, and what was stretched before is removed. Where
    /// it was awaited and the clock does not run, it is paused at once.
    pub open spec fn stretched_actions(self, speed: Single, path: String, fade_ms: u32) -> Seq<Action> {
        if !self.music.device {
            Seq::empty()
        } else {
            seq![Music::from_stretched(path, self.clock.t, speed, fade_ms)] + self.music.removal()
                + wall::when(
                self.music.pending && !self.clock.playing,
                Action::Pause {
                    fade_ms: if self.music.fade {
                        40
                    } else {
                        0
                    },
                },
            ) + seq![Action::Status]
        }
    }

    /// Stretching failed: the file itself is played at the speed.
    pub open spec fn without_stretched(self) -> Wall {
        if self.music.device && self.music.path is Some {
            Wall {
                clock: Clock { ticking: false, ..self.clock },
                music: Music { pending: false, ..self.music },
                ..self
            }
        } else {
            self
        }
    }

    pub fn audio_ready(&mut self, speed: Single, file: Option<String>, fade_ms: u32) -> (r: Vec<Action>)
        ensures
            *final(self) == match file {
                Some(path) => old(self).with_stretched(path),
                None => old(self).without_stretched(),
            },
            r@ == match file {
                Some(path) => old(self).stretched_actions(speed, path, fade_ms),
                None => old(self).music.original(old(self).clock.t, speed, 0),
            },
    {
        match file {
            Some(path) => {
                let mut r: Vec<Action> = Vec::new();
                if self.music.device {
                    r.push(
                        Action::Play {
                            path: path.clone(),
                            at: self.clock.t,
                            rate: Single { bits: ipc::ONE },
                            scale: speed,
                            fade_ms,
                        },
                    );
                    let older: Option<String> = self.music.stretched.take();
                    self.music.stretched = Some(path);
                    if let Some(path) = older {
                        r.push(Action::RemoveFile { path });
                    }
                    if self.music.pending {
                        self.music.pending = false;
                        self.clock.ticking = false;
                        let fade_ms: u32 = if self.music.fade {
                            40
                        } else {
                            0
                        };
                        wall::push_when(&mut r, !self.clock.playing, Action::Pause { fade_ms });
                    }
                    r.push(Action::Status);
                }
                assert(r@ =~= old(self).stretched_actions(speed, path, fade_ms));
                r
            },
            None => {
                let r: Vec<Action> = self.music.play_original(self.clock.t, speed, 0);
                if self.music.device && self.music.path.is_some() {
                    self.music.pending = false;
                    self.clock.ticking = false;
                }
                r
            },
        }
    }

    /// One tick of the clock; while music is awaited it stands.
    pub fn advance(&mut self, tick: Tick, anchor: Option<Anchor>)
        ensures
            *final(self) == (if old(self).music.pending {
                *old(self)
            } else {
                Wall { clock: old(self).clock.stepped(tick, anchor), ..*old(self) }
            }),
    {
        if !self.music.pending {
            self.clock.step(tick, anchor);
        }
    }

    /// Up to where the hit sounds are played: with a device those that are due, and without one
    /// nothing falls behind.
    pub open spec fn cursor_after(device: bool, times: Seq<Double>, cursor: int, at: Double) -> int {
        if device {
            wall::due_from(times, cursor, at)
        } else {
            let n = wall::passed(times, at, false);
            if cursor < n {
                n
            } else {
                cursor
            }
        }
    }

    fn move_cursor(device: bool, times: &Vec<Double>, cursor: usize, at: Double) -> (r: usize)
        ensures
            r == Wall::cursor_after(device, times@, cursor as int, at),
    {
        if device {
            wall::advance_cursor(times, cursor, at)
        } else {
            let n: usize = wall::count_passed(times, at);
            if cursor < n {
                n
            } else {
                cursor
            }
        }
    }

    /// Where the hit sounds go on after a tick: a jump skips what lies between.
    pub open spec fn hits_from(self, at: Double, hits: Seq<Double>) -> int {
        if self.clock.jumped {
            wall::passed(hits, at, false)
        } else {
            self.hs_cursor as int
        }
    }

    /// After a tick: what is due is played, and the jump was taken up.
    pub open spec fn fired(self, at: Double, hits: Seq<Double>, samples: Seq<Double>) -> Wall {
        Wall {
            clock: Clock { jumped: false, ..self.clock },
            hs_cursor: Wall::cursor_after(
                self.music.device,
                hits,
                self.hits_from(at, hits),
                at,
            ) as usize,
            sb_cursor: Wall::cursor_after(
                self.music.device,
                samples,
                self.sb_cursor as int,
                at,
            ) as usize,
            ..self
        }
    }

    pub open spec fn fire_actions(self, at: Double, hits: Seq<Double>, samples: Seq<Double>) -> Seq<Action> {
        let after = self.fired(at, hits, samples);
        let from = self.hits_from(at, hits) as usize;
        wall::when(self.clock.jumped, Action::StopLoops) + wall::when(
            self.music.device && after.hs_cursor > from,
            Action::FireHits { from, to: after.hs_cursor },
        ) + wall::when(
            self.music.device && after.sb_cursor > self.sb_cursor,
            Action::FireSamples { from: self.sb_cursor, to: after.sb_cursor },
        ) + seq![Action::UpdateLoops]
    }

    /// Plays what the clock has passed; `at` is its time for hit sounds.
    pub fn fire_hitsounds(&mut self, at: Double, hits: &Vec<Double>, samples: &Vec<Double>) -> (r: Vec<Action>)
        ensures
            *final(self) == old(self).fired(at, hits@, samples@),
            r@ == old(self).fire_actions(at, hits@, samples@),
    {
        let mut r: Vec<Action> = Vec::new();
        if self.clock.take_jump() {
            self.hs_cursor = wall::count_passed(hits, at);
            r.push(Action::StopLoops);
        }
        let device: bool = self.music.device;
        let from: usize = self.hs_cursor;
        self.hs_cursor = Wall::move_cursor(device, hits, from, at);
        wall::push_when(
            &mut r,
            device && self.hs_cursor > from,
            Action::FireHits { from, to: self.hs_cursor },
        );
        let sb_from: usize = self.sb_cursor;
        self.sb_cursor = Wall::move_cursor(device, samples, sb_from, at);
        wall::push_when(
            &mut r,
            device && self.sb_cursor > sb_from,
            Action::FireSamples { from: sb_from, to: self.sb_cursor },
        );
        r.push(Action::UpdateLoops);
        assert(r@ =~= old(self).fire_actions(at, hits@, samples@));
        r
    }

    /// The track is over: the clock runs at or behind its end and the music is silent.
    pub open spec fn over(self, audible: bool) -> bool {
        self.clock.playing && self.limit.at_most(self.clock.t) && !audible
    }

    /// The track begins again.
    pub open spec fn restarted(self) -> Wall {
        Wall {
            clock: self.clock.sought(Single { bits: 0 }),
            ended_sent: false,
            hs_cursor: 0,
            sb_cursor: 0,
            ..self
        }
    }

    pub open spec fn restart_actions(self) -> Seq<Action> {
        wall::when(self.stage.window, Action::ResetScene(self.look.fresh())) + seq![
            Action::StopSamples,
            Action::StopLoops,
        ] + wall::when(self.stage.storyboard, Action::ResetVideo) + self.music.looped(
            self.clock.speed,
        )
    }

    pub fn restart_from_zero(&mut self) -> (r: Vec<Action>)
        ensures
            *final(self) == old(self).restarted(),
            r@ == old(self).restart_actions(),
    {
        let mut r: Vec<Action> = Vec::new();
        self.clock.seek(Single { bits: 0 });
        self.ended_sent = false;
        wall::push_when(&mut r, self.stage.window, Action::ResetScene(self.look.start_over()));
        self.hs_cursor = 0;
        r.push(Action::StopSamples);
        self.sb_cursor = 0;
        r.push(Action::StopLoops);
        wall::push_when(&mut r, self.stage.storyboard, Action::ResetVideo);
        let mut m: Vec<Action> = self.music.loop_music(self.clock.speed);
        r.append(&mut m);
        assert(r@ =~= old(self).restart_actions());
        r
    }

    /// The end of a track: it begins again, or playback stops and says so once.
    pub open spec fn concluded(self, audible: bool) -> Wall {
        if !self.over(audible) {
            self
        } else if self.looping {
            self.restarted()
        } else {
            Wall { clock: Clock { playing: false, ..self.clock }, ended_sent: true, ..self }
        }
    }

    pub open spec fn conclude_actions(self, audible: bool) -> Seq<Action> {
        if !self.over(audible) {
            Seq::empty()
        } else if self.looping {
            self.restart_actions()
        } else {
            wall::when(!self.ended_sent, Action::Send(Event::Ended))
        }
    }

    fn conclude(&mut self, audible: bool) -> (r: Vec<Action>)
        ensures
            *final(self) == old(self).concluded(audible),
            r@ == old(self).conclude_actions(audible),
    {
        let mut r: Vec<Action> = Vec::new();
        if self.clock.playing && self.limit.le(&self.clock.t) && !audible {
            if self.looping {
                return self.restart_from_zero();
            }
            self.clock.playing = false;
            wall::push_when(&mut r, !self.ended_sent, Action::Send(Event::Ended));
            self.ended_sent = true;
            assert(r@ =~= old(self).conclude_actions(audible));
        }
        r
    }

    /// What follows a tick of the clock: hit sounds, loops and the end of the track. While music is
    /// awaited nothing does.
    pub fn settle(&mut self, at: Double, audible: bool, hits: &Vec<Double>, samples: &Vec<Double>) -> (r: Vec<Action>)
        ensures
            *final(self) == (if old(self).music.pending {
                *old(self)
            } else {
                old(self).fired(at, hits@, samples@).concluded(audible)
            }),
            r@ == (if old(self).music.pending {
                Seq::empty()
            } else {
                old(self).fire_actions(at, hits@, samples@) + old(self).fired(
                    at,
                    hits@,
                    samples@,
                ).conclude_actions(audible)
            }),
    {
        if self.music.pending {
            return Vec::new();
        }
        let mut r: Vec<Action> = self.fire_hitsounds(at, hits, samples);
        let mut m: Vec<Action> = self.conclude(audible);
        r.append(&mut m);
        r
    }
}

/// A jump plays nothing of what lies before it: the hit sounds go on behind all that have passed.
pub proof fn law_jump_skips_hits(w: Wall, at: Double, hits: Seq<Double>, samples: Seq<Double>)
    requires
        w.clock.jumped,
        hits.len() <= usize::MAX,
        forall|i: int| 0 <= i < hits.len() ==> !(#[trigger] hits[i]).nan(),
        !at.nan(),
    ensures
        w.fired(at, hits, samples).hs_cursor == wall::passed(hits, at, false),
        forall|k: int|
            0 <= k < w.fire_actions(at, hits, samples).len() ==> !((#[trigger] w.fire_actions(
                at,
                hits,
                samples,
            )[k]) is FireHits),
{
    let n = wall::passed(hits, at, false);
    lemma_passed_bounds(hits, at, false);
    if n < hits.len() {
        lemma_passed_stops(hits, at);
        assert(!wall::come(hits.skip(n)[0], at, true));
    }
    assert(w.fired(at, hits, samples).hs_cursor == n);
}

proof fn lemma_passed_bounds(times: Seq<Double>, t: Double, unless_ahead: bool)
    ensures
        0 <= wall::passed(times, t, unless_ahead) <= times.len(),
    decreases times.len(),
{
    if times.len() > 0 {
        lemma_passed_bounds(times.skip(1), t, unless_ahead);
    }
}

proof fn lemma_passed_stops(times: Seq<Double>, t: Double)
    requires
        wall::passed(times, t, false) < times.len(),
        forall|i: int| 0 <= i < times.len() ==> !(#[trigger] times[i]).nan(),
        !t.nan(),
    ensures
        0 <= wall::passed(times, t, false),
        !wall::come(times[wall::passed(times, t, false)], t, true),
    decreases times.len(),
{
    lemma_passed_bounds(times, t, false);
    assert(!times[0].nan());
    if times[0].at_most(t) {
        let rest = times.skip(1);
        assert forall|i: int| 0 <= i < rest.len() implies !(#[trigger] rest[i]).nan() by {
            assert(rest[i] == times[i + 1]);
        }
        lemma_passed_stops(rest, t);
    }
}

/// The end is told at most once until something is played again.
pub proof fn law_end_is_told_once(w: Wall, audible: bool)
    requires
        !w.looping,
        w.ended_sent,
    ensures
        w.conclude_actions(audible).len() == 0,
        w.concluded(audible).ended_sent,
{
}

/// A seek leaves nothing of the end: it can be told again, and music that had ended plays.
pub proof fn law_seek_revives(w: Wall, ms: Single, hits: int, samples: int)
    ensures
        !w.sought(ms, true, hits, samples).ended_sent,
        w.sought(ms, true, hits, samples).clock.playing,
        w.sought(ms, true, hits, samples).clock.t == ms,
        !w.sought(ms, true, hits, samples).hold.user_paused,
{
}

// ---------- loops ----------

/// A sound that loops: which event it belongs to, and which of its runs.
#[derive(Debug, Clone, Copy, PartialEq, Eq, Structural)]
pub struct LoopPlay {
    pub event: usize,
    pub run: usize,
}

/// What becomes of the loops: which of those that play stop, and which begin.
#[derive(Debug)]
pub struct LoopPlan {
    pub stop: Vec<usize>,
    pub start: Vec<LoopPlay>,
}

/// The loop is still in the run that its event is in.
pub open spec fn current_loop(l: LoopPlay, runs: Seq<Option<usize>>) -> bool {
    l.event < runs.len() && runs[l.event as int] == Some(l.run)
}

/// The places of the loops that are in a run that is over.
pub open spec fn stale_loops(playing: Seq<LoopPlay>, runs: Seq<Option<usize>>, n: nat) -> Seq<usize>
    decreases n,
{
    if n == 0 {
        Seq::empty()
    } else {
        let before = stale_loops(playing, runs, (n - 1) as nat);
        if current_loop(playing[n - 1], runs) {
            before
        } else {
            before.push((n - 1) as usize)
        }
    }
}

/// The runs that events are in and that do not play yet.
pub open spec fn new_loops(playing: Seq<LoopPlay>, runs: Seq<Option<usize>>, n: nat) -> Seq<LoopPlay>
    decreases n,
{
    if n == 0 {
        Seq::empty()
    } else {
        let before = new_loops(playing, runs, (n - 1) as nat);
        match runs[n - 1] {
            Some(run) => {
                let l = LoopPlay { event: (n - 1) as usize, run };
                if playing.contains(l) {
                    before
                } else {
                    before.push(l)
                }
            },
            None => before,
        }
    }
}

fn plays(playing: &Vec<LoopPlay>, l: LoopPlay) -> (r: bool)
    ensures
        r == playing@.contains(l),
{
    let mut i: usize = 0;
    while i < playing.len()
        invariant
            i <= playing@.len(),
            forall|j: int| 0 <= j < i ==> #[trigger] playing@[j] != l,
        decreases playing.len() - i,
    {
        if playing[i] == l {
            assert(playing@[i as int] == l);
            return true;
        }
        i = i + 1;
    }
    false
}

/// What becomes of the loops, given the run that each event is in; without hit sounds all stop and
/// none begins.
pub fn plan_loops(playing: &Vec<LoopPlay>, runs: &Vec<Option<usize>>, hits_on: bool) -> (r: LoopPlan)
    ensures
        hits_on ==> r.stop@ == stale_loops(playing@, runs@, playing@.len()),
        hits_on ==> r.start@ == new_loops(playing@, runs@, runs@.len()),
        hits_on ==> forall|i: int|
            0 <= i < playing@.len() ==> (#[trigger] r.stop@.contains(i as usize) <==> !(
            playing@[i].event < runs@.len() && runs@[playing@[i].event as int] == Some(
                playing@[i].run,
            ))),
        hits_on ==> forall|l: LoopPlay| #[trigger]
            r.start@.contains(l) <==> l.event < runs@.len() && runs@[l.event as int] == Some(l.run)
                && !playing@.contains(l),
        !hits_on ==> r.stop@ == Seq::new(playing@.len(), |i: int| i as usize),
        !hits_on ==> r.start@.len() == 0,
{
    let mut stop: Vec<usize> = Vec::new();
    let mut start: Vec<LoopPlay> = Vec::new();
    let mut i: usize = 0;
    if !hits_on {
        while i < playing.len()
            invariant
                i <= playing@.len(),
                stop@ == Seq::new(i as nat, |j: int| j as usize),
            decreases playing.len() - i,
        {
            stop.push(i);
            i = i + 1;
            assert(stop@ =~= Seq::new(i as nat, |j: int| j as usize));
        }
        return LoopPlan { stop, start };
    }
    while i < playing.len()
        invariant
            i <= playing@.len(),
            stop@ == stale_loops(playing@, runs@, i as nat),
        decreases playing.len() - i,
    {
        let l: LoopPlay = playing[i];
        let stays: bool = l.event < runs.len() && match runs[l.event] {
            Some(run) => run == l.run,
            None => false,
        };
        if !stays {
            stop.push(i);
        }
        i = i + 1;
    }
    let mut e: usize = 0;
    while e < runs.len()
        invariant
            e <= runs@.len(),
            start@ == new_loops(playing@, runs@, e as nat),
        decreases runs.len() - e,
    {
        if let Some(run) = runs[e] {
            let l: LoopPlay = LoopPlay { event: e, run };
            if !plays(playing, l) {
                start.push(l);
            }
        }
        e = e + 1;
    }
    proof {
        assert(playing.len() == playing@.len() && runs.len() == runs@.len());
        law_loops_stop_with_their_run(playing@, runs@, playing@.len());
        law_loops_begin_with_their_run(playing@, runs@, runs@.len());
    }
    LoopPlan { stop, start }
}

/// After the plan every loop that plays is in the run of its event: what stays is, and what begins
/// is.
pub proof fn law_loops_follow_runs(playing: Seq<LoopPlay>, runs: Seq<Option<usize>>, n: nat)
    requires
        n <= runs.len(),
        runs.len() <= usize::MAX,
    ensures
        forall|i: int|
            0 <= i < new_loops(playing, runs, n).len() ==> current_loop(
                #[trigger] new_loops(playing, runs, n)[i],
                runs,
            ) && !playing.contains(new_loops(playing, runs, n)[i]),
        forall|e: int|
            0 <= e < n && (#[trigger] runs[e]) is Some ==> playing.contains(
                (LoopPlay { event: e as usize, run: runs[e]->0 }),
            ) || new_loops(playing, runs, n).contains(
                (LoopPlay { event: e as usize, run: runs[e]->0 }),
            ),
    decreases n,
{
    if n > 0 {
        law_loops_follow_runs(playing, runs, (n - 1) as nat);
        let before = new_loops(playing, runs, (n - 1) as nat);
        let after = new_loops(playing, runs, n);
        assert forall|e: int| 0 <= e < n && (#[trigger] runs[e]) is Some implies playing.contains(
            (LoopPlay { event: e as usize, run: runs[e]->0 }),
        ) || after.contains((LoopPlay { event: e as usize, run: runs[e]->0 })) by {
            let l = LoopPlay { event: e as usize, run: runs[e]->0 };
            if e < n - 1 {
                if before.contains(l) {
                    let k = choose|k: int| 0 <= k < before.len() && before[k] == l;
                    assert(after[k] == l);
                }
            } else if !playing.contains(l) {
                assert(after[after.len() - 1] == l);
            }
        }
    }
}

/// With hit sounds on, a loop stops exactly if its event is not in the run that it was begun for:
/// the event is in another one, or in none any more. Each is named once, in the order in which they
/// play.
pub proof fn law_loops_stop_with_their_run(playing: Seq<LoopPlay>, runs: Seq<Option<usize>>, n: nat)
    requires
        n <= playing.len(),
        playing.len() <= usize::MAX,
    ensures
        forall|i: int|
            0 <= i < n ==> (#[trigger] stale_loops(playing, runs, n).contains(i as usize) <==> !(
            playing[i].event < runs.len() && runs[playing[i].event as int] == Some(playing[i].run))),
        forall|k: int|
            0 <= k < stale_loops(playing, runs, n).len() ==> (#[trigger] stale_loops(
                playing,
                runs,
                n,
            )[k]) < n,
        forall|j: int, k: int|
            0 <= j < k < stale_loops(playing, runs, n).len() ==> (#[trigger] stale_loops(
                playing,
                runs,
                n,
            )[j]) < (#[trigger] stale_loops(playing, runs, n)[k]),
    decreases n,
{
    if n > 0 {
        let m = (n - 1) as nat;
        law_loops_stop_with_their_run(playing, runs, m);
        let before = stale_loops(playing, runs, m);
        let after = stale_loops(playing, runs, n);
        assert forall|i: int| 0 <= i < n implies (#[trigger] after.contains(i as usize) <==> !(
        playing[i].event < runs.len() && runs[playing[i].event as int] == Some(playing[i].run))) by {
            if i < m {
                assert(before.contains(i as usize) ==> after.contains(i as usize)) by {
                    if before.contains(i as usize) {
                        let k = choose|k: int| 0 <= k < before.len() && before[k] == i as usize;
                        assert(after[k] == i as usize);
                    }
                }
                if after.contains(i as usize) {
                    let k = choose|k: int| 0 <= k < after.len() && after[k] == i as usize;
                    assert(k < before.len());
                    assert(before[k] == i as usize);
                    assert(before.contains(i as usize));
                }
            } else {
                if current_loop(playing[m as int], runs) && after.contains(i as usize) {
                    let k = choose|k: int| 0 <= k < after.len() && after[k] == i as usize;
                    assert(before[k] < m);
                }
                if !current_loop(playing[m as int], runs) {
                    assert(after == before.push(m as usize));
                    assert(after[after.len() - 1] == i as usize);
                }
            }
        }
    }
}

/// A loop begins exactly for the run that an event is in and that does not play yet, once for each
/// event, in the order of the events.
pub proof fn law_loops_begin_with_their_run(playing: Seq<LoopPlay>, runs: Seq<Option<usize>>, n: nat)
    requires
        n <= runs.len(),
        runs.len() <= usize::MAX,
    ensures
        forall|l: LoopPlay| #[trigger]
            new_loops(playing, runs, n).contains(l) <==> l.event < n && runs[l.event as int] == Some(
                l.run,
            ) && !playing.contains(l),
        forall|j: int, k: int|
            0 <= j < k < new_loops(playing, runs, n).len() ==> (#[trigger] new_loops(
                playing,
                runs,
                n,
            )[j]).event < (#[trigger] new_loops(playing, runs, n)[k]).event,
    decreases n,
{
    if n > 0 {
        let m = (n - 1) as nat;
        law_loops_begin_with_their_run(playing, runs, m);
        let before = new_loops(playing, runs, m);
        let after = new_loops(playing, runs, n);
        assert forall|k: int| 0 <= k < before.len() implies (#[trigger] before[k]).event < m by {
            assert(before.contains(before[k]));
        }
        assert forall|l: LoopPlay| #[trigger] after.contains(l) <==> l.event < n && runs[l.event as int]
            == Some(l.run) && !playing.contains(l) by {
            if before.contains(l) {
                let k = choose|k: int| 0 <= k < before.len() && before[k] == l;
                assert(after[k] == l);
            }
            if after.contains(l) {
                let k = choose|k: int| 0 <= k < after.len() && after[k] == l;
                assert(k < before.len() ==> before.contains(before[k]));
            }
            if l.event == m && runs[m as int] == Some(l.run) && !playing.contains(l) {
                assert(after[after.len() - 1] == l);
            }
        }
    } else {
        assert(new_loops(playing, runs, n) =~= Seq::<LoopPlay>::empty());
    }
}

// ---------- seeks, hits and the end ----------

/// A seek leads nowhere before the beginning or behind the end, and where it asks for otherwise.
pub proof fn law_seek_stays_inside(ms: Single, end: Single)
    requires
        !ms.nan(),
        !end.nan(),
    ensures
        (Single { bits: 0 }).at_most(Wall::seek_target(ms, end)),
        Wall::seek_target(ms, end).at_most(end) || Wall::seek_target(ms, end).bits == 0
            || Wall::seek_target(ms, end).bits == 0x8000_0000,
        (Single { bits: 0 }).below(ms) && ms.at_most(end) ==> Wall::seek_target(ms, end) == ms,
        end.below(ms) && (Single { bits: 0 }).below(end) ==> Wall::seek_target(ms, end) == end,
{
}

/// A jump back by more than half a second, or ahead by more than two, is one that a video does not
/// follow.
pub proof fn law_far_jumps(jump: Single)
    ensures
        Wall::far_jump(jump) <==> 0xC3FA_0000 < jump.bits <= 0xFF80_0000 || 0x44FA_0000 < jump.bits
            <= 0x7F80_0000,
{
}

/// After a seek the clock and everything that is played by it stand at the target. Music that plays
/// is sent there, what sounds of before stops, and a video is begun anew after a far jump.
pub proof fn law_seek_moves_everything(
    w: Wall,
    ms: Single,
    jump: Single,
    dead: bool,
    hits: Seq<Double>,
    samples: Seq<Double>,
    at: Double,
)
    requires
        hits.len() <= usize::MAX,
        samples.len() <= usize::MAX,
    ensures
        ({
            let h = wall::passed(hits, at, false);
            let s = wall::passed(samples, at, false);
            let r = w.sought(ms, dead, h, s);
            &&& r.clock.t == ms
            &&& r.clock.seek_target == Some(ms)
            &&& r.hs_cursor == h
            &&& r.sb_cursor == s
            &&& !r.ended_sent
            &&& !dead ==> r.clock.playing == w.clock.playing && r.hold == w.hold
            &&& dead ==> r.clock.playing && !r.hold.user_paused
            &&& r.music == w.music && r.look == w.look && r.stage == w.stage && r.last_load
                == w.last_load
        }),
        w.seek_actions(ms, jump, dead).contains(Action::StopSamples),
        w.seek_actions(ms, jump, dead).contains(Action::StopLoops),
        !dead && w.music.device ==> w.seek_actions(ms, jump, dead).last() == (Action::SeekMusic { ms }),
        !dead && !Wall::far_jump(jump) && w.music.device ==> w.seek_actions(ms, jump, dead) == seq![
            Action::StopSamples,
            Action::StopLoops,
            Action::SeekMusic { ms },
        ],
        Wall::far_jump(jump) && w.stage.storyboard ==> w.seek_actions(ms, jump, dead)[0]
            == Action::ResetVideo,
        dead && !Wall::far_jump(jump) ==> w.seek_actions(ms, jump, dead) == seq![
            Action::StopSamples,
            Action::StopLoops,
        ] + w.music.revived(w.clock.speed, ms),
{
    lemma_passed_bounds(hits, at, false);
    lemma_passed_bounds(samples, at, false);
    let a = w.seek_actions(ms, jump, dead);
    let k: int = if Wall::far_jump(jump) && w.stage.storyboard {
        1
    } else {
        0
    };
    assert(a[k] == Action::StopSamples);
    assert(a[k + 1] == Action::StopLoops);
    assert(!dead && !Wall::far_jump(jump) && w.music.device ==> a =~= seq![
        Action::StopSamples,
        Action::StopLoops,
        Action::SeekMusic { ms },
    ]);
    assert(dead && !Wall::far_jump(jump) ==> a =~= seq![Action::StopSamples, Action::StopLoops]
        + w.music.revived(w.clock.speed, ms));
}

/// Hit sounds are played as the clock passes them, each once and none that lies ahead: from where
/// the last ones ended up to the first that is still to come. The samples of a storyboard go the
/// same way.
pub proof fn law_hits_are_played_as_they_pass(
    w: Wall,
    at: Double,
    hits: Seq<Double>,
    samples: Seq<Double>,
    i: int,
)
    requires
        w.music.device,
        !w.clock.jumped,
        w.hs_cursor <= hits.len() <= usize::MAX,
        w.sb_cursor <= samples.len() <= usize::MAX,
    ensures
        ({
            let r = w.fired(at, hits, samples);
            &&& w.hs_cursor <= r.hs_cursor <= hits.len()
            &&& w.hs_cursor <= i < r.hs_cursor ==> !at.below(hits[i])
            &&& r.hs_cursor < hits.len() ==> at.below(hits[r.hs_cursor as int])
            &&& w.sb_cursor <= r.sb_cursor <= samples.len()
            &&& w.sb_cursor <= i < r.sb_cursor ==> !at.below(samples[i])
            &&& r.sb_cursor < samples.len() ==> at.below(samples[r.sb_cursor as int])
            &&& r.hs_cursor > w.hs_cursor ==> w.fire_actions(at, hits, samples)[0]
                == (Action::FireHits { from: w.hs_cursor, to: r.hs_cursor })
            &&& r.hs_cursor == w.hs_cursor && r.sb_cursor > w.sb_cursor ==> w.fire_actions(
                at,
                hits,
                samples,
            )[0] == (Action::FireSamples { from: w.sb_cursor, to: r.sb_cursor })
            &&& r.hs_cursor > w.hs_cursor && r.sb_cursor > w.sb_cursor ==> w.fire_actions(
                at,
                hits,
                samples,
            )[1] == (Action::FireSamples { from: w.sb_cursor, to: r.sb_cursor })
            &&& w.fire_actions(at, hits, samples).last() == Action::UpdateLoops
            &&& r.clock == w.clock
        }),
{
    wall::law_due_ends_at_the_first_ahead(hits, w.hs_cursor as int, at, i);
    wall::law_due_ends_at_the_first_ahead(samples, w.sb_cursor as int, at, i);
}

/// Without a device nothing is played, and nothing piles up: what has passed is not played later.
pub proof fn law_silence_piles_nothing_up(
    w: Wall,
    at: Double,
    hits: Seq<Double>,
    samples: Seq<Double>,
    k: int,
)
    requires
        !w.music.device,
        !w.clock.jumped,
        hits.len() <= usize::MAX,
        samples.len() <= usize::MAX,
    ensures
        w.fire_actions(at, hits, samples) == seq![Action::UpdateLoops],
        w.fired(at, hits, samples).hs_cursor >= wall::passed(hits, at, false),
        w.fired(at, hits, samples).hs_cursor >= w.hs_cursor,
{
    lemma_passed_bounds(hits, at, false);
    lemma_passed_bounds(samples, at, false);
    assert(w.fire_actions(at, hits, samples) =~= seq![Action::UpdateLoops]);
}

/// A jump stops the loops and is told no more.
pub proof fn law_jump_stops_loops(w: Wall, at: Double, hits: Seq<Double>, samples: Seq<Double>)
    requires
        w.clock.jumped,
    ensures
        w.fire_actions(at, hits, samples)[0] == Action::StopLoops,
        !w.fired(at, hits, samples).clock.jumped,
        w.fired(at, hits, samples).clock.t == w.clock.t,
{
}

/// A track that runs to its end in silence begins again where it loops: at its beginning, with
/// everything that is played by time, and with its music. Where it does not loop, playback stops
/// and the end is told, once. Before its end, or while it is heard, nothing happens.
pub proof fn law_track_ends_or_loops(w: Wall, audible: bool)
    requires
        w.clock.playing,
    ensures
        audible || !w.limit.at_most(w.clock.t) ==> w.concluded(audible) == w && w.conclude_actions(
            audible,
        ).len() == 0,
        !audible && w.limit.at_most(w.clock.t) && w.looping ==> {
            &&& w.concluded(audible).clock.t.bits == 0
            &&& w.concluded(audible).clock.playing
            &&& w.concluded(audible).hs_cursor == 0
            &&& w.concluded(audible).sb_cursor == 0
            &&& !w.concluded(audible).ended_sent
            &&& forall|k: int|
                0 <= k < w.music.looped(w.clock.speed).len() ==> w.conclude_actions(
                    audible,
                ).contains(#[trigger] w.music.looped(w.clock.speed)[k])
            &&& w.stage.window ==> w.conclude_actions(audible)[0] == Action::ResetScene(
                w.look.fresh(),
            )
            &&& w.conclude_actions(audible).contains(Action::StopSamples)
            &&& w.conclude_actions(audible).contains(Action::StopLoops)
            &&& w.stage.storyboard ==> w.conclude_actions(audible).contains(Action::ResetVideo)
        },
        !audible && w.limit.at_most(w.clock.t) && !w.looping ==> {
            &&& !w.concluded(audible).clock.playing
            &&& w.concluded(audible).ended_sent
            &&& w.concluded(audible).clock.t == w.clock.t
            &&& !w.ended_sent ==> w.conclude_actions(audible) == seq![Action::Send(Event::Ended)]
        },
{
    if !audible && w.limit.at_most(w.clock.t) && w.looping {
        let a = w.restart_actions();
        let m = w.music.looped(w.clock.speed);
        assert forall|k: int| 0 <= k < m.len() implies a.contains(#[trigger] m[k]) by {
            assert(a[a.len() - m.len() + k] == m[k]);
        }
        let i: int = if w.stage.window {
            1
        } else {
            0
        };
        assert(a[i] == Action::StopSamples);
        assert(a[i + 1] == Action::StopLoops);
        if w.stage.storyboard {
            assert(a[i + 2] == Action::ResetVideo);
        }
    }
}

/// Stretched music that has come is played from where the clock stands, in place of what was
/// stretched before. What waited for it goes on: it is paused at once only where the clock does not
/// run.
pub proof fn law_stretched_music_is_played(w: Wall, speed: Single, path: String, fade_ms: u32)
    ensures
        w.music.device ==> {
            &&& w.stretched_actions(speed, path, fade_ms)[0] == (Action::Play {
                path,
                at: w.clock.t,
                rate: Single { bits: 0x3F80_0000 },
                scale: speed,
                fade_ms,
            })
            &&& w.music.stretched matches Some(older) ==> w.stretched_actions(speed, path, fade_ms)[1]
                == (Action::RemoveFile { path: older })
            &&& w.with_stretched(path).music.stretched == Some(path)
            &&& !w.with_stretched(path).music.pending
            &&& w.with_stretched(path).clock.t == w.clock.t
            &&& w.with_stretched(path).clock.playing == w.clock.playing
            &&& w.stretched_actions(speed, path, fade_ms).last() == Action::Status
            &&& w.music.pending && !w.clock.playing && w.music.fade ==> w.stretched_actions(
                speed,
                path,
                fade_ms,
            ).contains(Action::Pause { fade_ms: 40 })
            &&& w.music.pending && !w.clock.playing && !w.music.fade ==> w.stretched_actions(
                speed,
                path,
                fade_ms,
            ).contains(Action::Pause { fade_ms: 0 })
            &&& !(w.music.pending && !w.clock.playing) && w.music.stretched is None
                ==> w.stretched_actions(speed, path, fade_ms).len() == 2
        },
        !w.music.device ==> w.with_stretched(path) == w && w.stretched_actions(speed, path, fade_ms).len()
            == 0,
{
    if w.music.device && w.music.pending && !w.clock.playing {
        let a = w.stretched_actions(speed, path, fade_ms);
        let i = 1 + w.music.removal().len();
        assert(a[i as int] == (Action::Pause {
            fade_ms: if w.music.fade {
                40
            } else {
                0
            },
        }));
    }
}

/// Where stretching failed nothing is awaited any more, and the clock goes on from where it is.
pub proof fn law_failed_stretching_is_not_awaited(w: Wall)
    requires
        w.music.device,
        w.music.path is Some,
    ensures
        !w.without_stretched().music.pending,
        !w.without_stretched().clock.ticking,
        w.without_stretched().clock.t == w.clock.t,
        w.without_stretched().clock.playing == w.clock.playing,
        w.without_stretched() == (Wall {
            clock: w.without_stretched().clock,
            music: w.without_stretched().music,
            ..w
        }),
{
}

} // verus!
