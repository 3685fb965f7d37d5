//! The clock of the playback: it runs with the wall and is held to the position of the music.
//!
//! Where a seek is under way the music still reports where it was. The clock then runs free, and
//! is set to the music once that has arrived. Whenever it is set, or a tick comes late, it says
//! that it jumped, so that what lies between is not made up for in one burst.
use vstd::prelude::*;

use crate::ieee::Single;

verus! {

/// Within this many milliseconds the clock is nudged towards the music: 250.
pub const ANCHOR_GATE: u32 = 0x437A_0000;

/// A tick that comes after more than this many milliseconds is late: 500.
pub const STALL_JUMP: u32 = 0x43FA_0000;

#[derive(Debug, Clone, Copy, PartialEq, Eq, Structural)]
pub struct Clock {
    /// The time that it shows, in milliseconds.
    pub t: Single,
    pub playing: bool,
    pub speed: Single,
    pub wall_t: Single,
    /// There was a tick since the clock was last set.
    pub ticking: bool,
    /// Where a seek that is under way will arrive.
    pub seek_target: Option<Single>,
    /// The clock was set, or came late, since this was last asked.
    pub jumped: bool,
}

/// The time since the last tick in milliseconds, and the wall time moved on by it at the speed of
/// the clock.
#[derive(Debug, Clone, Copy, PartialEq, Eq, Structural)]
pub struct Tick {
    pub dt: Single,
    pub wall: Single,
}

/// Where the music is: its position, how far that is from the wall time after the tick, that wall
/// time moved towards it by at most 80 milliseconds, and how far it is from the target of a seek.
#[derive(Debug, Clone, Copy, PartialEq, Eq, Structural)]
pub struct Anchor {
    pub pos: Single,
    pub error: Single,
    pub nudged: Single,
    pub from_target: Single,
}

/// Near enough for the clock to be nudged.
pub open spec fn near(x: Single) -> bool {
    x.size().at_most(Single { bits: ANCHOR_GATE })
}

fn is_near(x: Single) -> (r: bool)
    ensures
        r == near(x),
{
    x.abs().le(&Single { bits: ANCHOR_GATE })
}

impl Clock {
    /// The wall time that a tick leads to.
    pub open spec fn moved(self, tick: Tick) -> Single {
        if self.ticking && self.playing {
            tick.wall
        } else {
            self.wall_t
        }
    }

    /// The tick comes late.
    pub open spec fn stalled(self, tick: Tick) -> bool {
        self.ticking && self.playing && (Single { bits: STALL_JUMP }).below(tick.dt)
    }

    /// The clock after a tick. While it plays it runs with the wall; the music nudges it from
    /// near by. From afar the music sets it, except while a seek is under way and the music has
    /// not come near its target. While it does not play it stands still.
    pub open spec fn stepped(self, tick: Tick, anchor: Option<Anchor>) -> Clock {
        let wall = self.moved(tick);
        let late = self.jumped || self.stalled(tick);
        let base = Clock { ticking: true, wall_t: wall, t: wall, jumped: late, ..self };
        if !self.playing {
            Clock { ticking: true, wall_t: self.t, ..self }
        } else {
            match anchor {
                None => base,
                Some(a) => if near(a.error) {
                    Clock { wall_t: a.nudged, t: a.nudged, seek_target: None, ..base }
                } else if self.seek_target is Some && !near(a.from_target) {
                    base
                } else {
                    Clock { wall_t: a.pos, t: a.pos, seek_target: None, jumped: true, ..base }
                },
            }
        }
    }

    /// The clock set to a place that the music will take some time to reach.
    pub open spec fn sought(self, ms: Single) -> Clock {
        Clock { t: ms, wall_t: ms, ticking: false, seek_target: Some(ms), ..self }
    }

    /// A clock that plays from the given time.
    pub fn new(t: Single, speed: Single) -> (c: Clock)
        ensures
            c == (Clock {
                t,
                playing: true,
                speed,
                wall_t: t,
                ticking: false,
                seek_target: None,
                jumped: false,
            }),
    {
        Clock { t, playing: true, speed, wall_t: t, ticking: false, seek_target: None, jumped: false }
    }

    /// One tick; `anchor` is where the music is, if it plays.
    pub fn step(&mut self, tick: Tick, anchor: Option<Anchor>)
        ensures
            *final(self) == old(self).stepped(tick, anchor),
            old(self).playing && old(self).ticking && anchor is None ==> final(self).t == tick.wall,
            old(self).playing && !old(self).ticking && anchor is None ==> final(self).t
                == old(self).wall_t,
            !old(self).playing ==> final(self).t == old(self).t,
    {
        if self.ticking && self.playing {
            self.wall_t = tick.wall;
            if (Single { bits: STALL_JUMP }).lt(&tick.dt) {
                self.jumped = true;
            }
        }
        self.ticking = true;
        if self.playing {
            if let Some(a) = anchor {
                if is_near(a.error) {
                    self.wall_t = a.nudged;
                    self.seek_target = None;
                } else if self.seek_target.is_some() {
                    if is_near(a.from_target) {
                        self.wall_t = a.pos;
                        self.seek_target = None;
                        self.jumped = true;
                    }
                } else {
                    self.wall_t = a.pos;
                    self.jumped = true;
                }
            }
        } else {
            self.wall_t = self.t;
        }
        self.t = self.wall_t;
    }

    /// Sets the clock to where the music is sent.
    pub fn seek(&mut self, ms: Single)
        ensures
            *final(self) == old(self).sought(ms),
    {
        self.t = ms;
        self.wall_t = ms;
        self.ticking = false;
        self.seek_target = Some(ms);
    }

    /// Whether the clock jumped since this was last asked.
    pub fn take_jump(&mut self) -> (r: bool)
        ensures
            r == old(self).jumped,
            *final(self) == (Clock { jumped: false, ..*old(self) }),
    {
        let r: bool = self.jumped;
        self.jumped = false;
        r
    }
}

/// While a seek is under way, music that reports neither the wall time nor the target moves
/// nothing: the clock goes on as if there were none.
pub proof fn law_stale_music_is_ignored(c: Clock, tick: Tick, a: Anchor)
    requires
        c.seek_target is Some,
        !near(a.error),
        !near(a.from_target),
    ensures
        c.stepped(tick, Some(a)) == c.stepped(tick, None),
        c.stepped(tick, Some(a)).seek_target == c.seek_target,
{
}

/// When the music has come near the target of a seek, the clock shows where the music is, the seek
/// is over, and the jump is told.
pub proof fn law_seek_lands(c: Clock, tick: Tick, a: Anchor)
    requires
        c.playing,
        c.seek_target is Some,
        !near(a.error),
        near(a.from_target),
    ensures
        c.stepped(tick, Some(a)).t == a.pos,
        c.stepped(tick, Some(a)).seek_target is None,
        c.stepped(tick, Some(a)).jumped,
{
}

/// Where no seek is under way the clock never stays away from the music, and being set to it is
/// told as a jump.
pub proof fn law_far_music_sets_clock(c: Clock, tick: Tick, a: Anchor)
    requires
        c.playing,
        c.seek_target is None,
    ensures
        near(a.error) ==> c.stepped(tick, Some(a)).t == a.nudged,
        !near(a.error) ==> c.stepped(tick, Some(a)).t == a.pos && c.stepped(tick, Some(a)).jumped,
{
}

/// A late tick is told as a jump, however near the music is.
pub proof fn law_late_tick_is_a_jump(c: Clock, tick: Tick, anchor: Option<Anchor>)
    requires
        c.playing,
        c.ticking,
        (Single { bits: STALL_JUMP }).below(tick.dt),
    ensures
        c.stepped(tick, anchor).jumped,
{
}

/// A clock that does not play shows the same time after every tick.
pub proof fn law_paused_clock_stands(c: Clock, tick: Tick, anchor: Option<Anchor>)
    requires
        !c.playing,
    ensures
        c.stepped(tick, anchor).t == c.t,
        c.stepped(tick, anchor).jumped == c.jumped,
{
}

/// Near is what is at most 250 milliseconds away, on either side; a distance that is no number is
/// not near.
pub proof fn law_near_is_a_quarter_second(x: Single)
    ensures
        near(x) <==> x.bits <= 0x437A_0000 || 0x8000_0000 <= x.bits <= 0xC37A_0000,
{
}

/// A clock that plays runs on with the wall wherever the music does not say otherwise: where there
/// is none, and where a seek makes what it says stale. Its first tick only starts it.
pub proof fn law_clock_runs_with_wall(c: Clock, tick: Tick, anchor: Option<Anchor>)
    requires
        c.playing,
        anchor matches Some(a) ==> c.seek_target is Some && !near(a.error) && !near(a.from_target),
    ensures
        c.ticking ==> c.stepped(tick, anchor).t == tick.wall && c.stepped(tick, anchor).wall_t
            == tick.wall,
        !c.ticking ==> c.stepped(tick, anchor).t == c.wall_t && c.stepped(tick, anchor).wall_t
            == c.wall_t,
        c.stepped(tick, anchor).seek_target == c.seek_target,
        c.stepped(tick, anchor).ticking,
{
}

/// Two ticks without music end where the second one leads: no time is lost on the way, whatever
/// the clock showed before.
pub proof fn law_ticks_add_up(c: Clock, first: Tick, second: Tick)
    requires
        c.playing,
    ensures
        c.stepped(first, None).stepped(second, None).t == second.wall,
        c.stepped(first, None).stepped(second, None).wall_t == second.wall,
{
}

/// Music that is near the wall time draws the clock to itself by the step that was computed, and
/// ends a seek that was under way.
pub proof fn law_near_music_nudges(c: Clock, tick: Tick, a: Anchor)
    requires
        c.playing,
        near(a.error),
    ensures
        c.stepped(tick, Some(a)).t == a.nudged,
        c.stepped(tick, Some(a)).wall_t == a.nudged,
        c.stepped(tick, Some(a)).seek_target is None,
{
}

/// A jump is told when there is a reason, and only then: it was not asked for yet, more than half a
/// second passed since the last tick, or the clock was set to music that was not near.
pub proof fn law_jump_has_a_reason(c: Clock, tick: Tick, anchor: Option<Anchor>)
    requires
        c.playing,
    ensures
        c.stepped(tick, anchor).jumped <==> {
            ||| c.jumped
            ||| c.ticking && 0x43FA_0000 < tick.dt.bits <= 0x7F80_0000
            ||| anchor matches Some(a) && !near(a.error) && (c.seek_target is None || near(
                a.from_target,
            ))
        },
{
}

/// A tick changes neither the speed nor whether the clock plays, and afterwards the clock shows its
/// wall time. A clock that stands goes on, once it plays, from what it showed.
pub proof fn law_tick_keeps_speed(c: Clock, tick: Tick, anchor: Option<Anchor>)
    ensures
        c.stepped(tick, anchor).playing == c.playing,
        c.stepped(tick, anchor).speed == c.speed,
        c.stepped(tick, anchor).t == c.stepped(tick, anchor).wall_t,
        c.stepped(tick, anchor).ticking,
        !c.playing ==> c.stepped(tick, anchor).wall_t == c.t && c.stepped(tick, anchor).seek_target
            == c.seek_target,
{
}

/// A seek shows its target at once, and the first tick behind it does not move away from it, however
/// late it comes and whatever the music still says of where it was.
pub proof fn law_seek_shows_target(c: Clock, ms: Single, tick: Tick, anchor: Option<Anchor>)
    requires
        anchor matches Some(a) ==> !near(a.error) && !near(a.from_target),
    ensures
        c.sought(ms).t == ms,
        c.sought(ms).seek_target == Some(ms),
        c.sought(ms).playing == c.playing,
        c.sought(ms).speed == c.speed,
        c.sought(ms).jumped == c.jumped,
        c.sought(ms).stepped(tick, anchor).t == ms,
        c.sought(ms).stepped(tick, anchor).jumped == c.jumped,
{
}

} // verus!
