//! A load from its beginning to its end: what is needed next, what comes of each answer, and what
//! is left when something fails.
use vstd::prelude::*;

use crate::ieee::{Double, Single};
use crate::ipc::Event;
use crate::loading::{Begin, Failure, Length};
use crate::scene::Found;
use crate::wall;
use crate::wall::{Action, Asked, Wall};

verus! {

/// What a load waits for.
#[derive(Debug, Clone, Copy, PartialEq, Eq, Structural)]
pub enum Need {
    /// The beatmap is read.
    Beatmap,
    /// A session is made of it.
    Game,
    Skin,
    /// The picture is built.
    Picture,
    /// How long the music is, and when what is in the session is played.
    Times,
    /// The music begins, or does not.
    Sound { begin: Begin },
    Nothing,
}

/// What became of it.
#[derive(Debug)]
pub enum Answer {
    Beatmap,
    /// Where the music of the session lies.
    Game { audio: Option<String> },
    /// Where the track ends.
    Skin { limit: Single },
    Picture { found: Found },
    /// No picture could be built; what is told of it.
    NoPicture { told: Option<Failure> },
    Times {
        length: Option<Length>,
        limit_exact: Double,
        product: Single,
        at: Double,
        hits: Vec<Double>,
        samples: Vec<Double>,
    },
    Sound { played: bool },
    Failed { failure: Failure },
}

/// Whether an answer is one to what was needed.
pub open spec fn answers(need: Need, answer: Answer) -> bool {
    match need {
        Need::Beatmap => answer is Beatmap || answer is Failed,
        Need::Game => answer is Game || answer is Failed,
        Need::Skin => answer is Skin || answer is Failed,
        Need::Picture => answer is Picture || answer is NoPicture,
        Need::Times => answer is Times,
        Need::Sound { .. } => answer is Sound,
        Need::Nothing => false,
    }
}

/// One failure is told, and nothing else happens.
pub open spec fn tells(actions: Seq<Action>, failure: Failure) -> bool {
    &&& actions.len() == 1
    &&& actions[0] matches Action::Send(e)
    &&& e matches Event::Error { message }
    &&& message@ == failure.says()
}

impl Wall {
    /// The state after an answer: a session is taken over once its skin was read, its picture once
    /// it was built, and then everything begins.
    pub open spec fn answered(self, answer: Answer) -> Wall {
        match answer {
            Answer::Game { audio } => Wall { asked_music: audio, ..self },
            Answer::Skin { limit } => self.adopted(limit),
            Answer::Picture { found } => self.pictured(found),
            Answer::Times { length, limit_exact, product, at, hits, samples } => self.started(
                length,
                limit_exact,
                product,
                wall::passed(hits@, at, false),
                wall::passed(samples@, at, false),
            ),
            Answer::Failed { .. } => self.given_up(),
            _ => self,
        }
    }

    /// What is being loaded is known until it is taken over, and is remembered from then on.
    pub open spec fn under_way(self, need: Need) -> bool {
        match need {
            Need::Beatmap | Need::Game | Need::Skin => self.asked_of() is Some,
            Need::Picture | Need::Times | Need::Sound { .. } => self.last_load is Some,
            Need::Nothing => true,
        }
    }

    /// What is needed behind an answer. The picture comes before the times, where it is wanted, and
    /// a picture that could not be built does not keep the music from playing.
    pub open spec fn need_after(self, need: Need, answer: Answer) -> Need {
        match answer {
            Answer::Beatmap => Need::Game,
            Answer::Game { .. } => Need::Skin,
            Answer::Skin { .. } => if self.hold.desired() {
                Need::Picture
            } else {
                Need::Times
            },
            Answer::Picture { .. } => Need::Times,
            Answer::NoPicture { .. } => Need::Times,
            Answer::Times { length, limit_exact, product, at, hits, samples } => Need::Sound {
                begin: self.beginning(product),
            },
            Answer::Sound { .. } => Need::Nothing,
            Answer::Failed { .. } => Need::Nothing,
        }
    }

    /// Whether a track is heard that began so.
    pub open spec fn heard(begin: Begin, played: bool) -> bool {
        match begin {
            Begin::Stretching => true,
            Begin::Playing => played,
            Begin::Silent => false,
        }
    }

    /// What an answer asks for.
    pub open spec fn answer_actions(self, need: Need, answer: Answer, actions: Seq<Action>) -> bool {
        match answer {
            Answer::Skin { .. } => actions == self.adopt_actions(),
            Answer::Picture { .. } => actions == seq![Action::ResizeSurface, Action::StopSamples],
            Answer::NoPicture { told } => match told {
                Some(f) => tells(actions, f),
                None => actions.len() == 0,
            },
            Answer::Times { length, limit_exact, product, at, hits, samples } => actions
                == self.start_actions(product),
            Answer::Sound { played } => {
                let p = self.last_load->0;
                &&& need matches Need::Sound { begin }
                &&& actions == seq![
                    Action::Send(
                        Event::Loaded {
                            path: p.path,
                            diff: None,
                            duration_ms: self.music.duration_ms,
                            widescreen: true,
                            has_audio: Wall::heard(begin, played),
                            mods: p.mods,
                        },
                    ),
                ] + wall::when(self.stage.window, Action::Redraw)
            },
            Answer::Failed { failure } => tells(actions, failure),
            _ => actions.len() == 0,
        }
    }

    fn take_times(
        &mut self,
        length: Option<Length>,
        limit_exact: Double,
        product: Single,
        at: Double,
        hits: Vec<Double>,
        samples: Vec<Double>,
    ) -> (r: (Vec<Action>, Need))
        requires
            old(self).last_load is Some,
        ensures
            *final(self) == old(self).answered(
                Answer::Times { length, limit_exact, product, at, hits, samples },
            ),
            r.0@ == old(self).start_actions(product),
            r.1 == (Need::Sound { begin: old(self).beginning(product) }),
    {
        let (actions, begin): (Vec<Action>, Begin) = self.start_track(
            length,
            limit_exact,
            product,
            at,
            &hits,
            &samples,
        );
        (actions, Need::Sound { begin })
    }

    fn take_sound(&self, begin: Begin, played: bool) -> (r: Vec<Action>)
        requires
            self.last_load is Some,
        ensures
            self.answer_actions(Need::Sound { begin }, Answer::Sound { played }, r@),
    {
        let mut r: Vec<Action> = Vec::new();
        if let Some(event) = self.loaded(Wall::has_audio(begin, played)) {
            r.push(Action::Send(event));
        }
        let ghost first = r@;
        wall::push_when(&mut r, self.stage.window, Action::Redraw);
        assert(r@ =~= first + wall::when(self.stage.window, Action::Redraw));
        r
    }

    fn tell(failure: &Failure) -> (r: Vec<Action>)
        ensures
            tells(r@, *failure),
    {
        let mut r: Vec<Action> = Vec::new();
        r.push(Action::Send(failure.event()));
        r
    }

    /// Goes on with a load.
    pub fn load_next(&mut self, need: Need, answer: Answer) -> (r: (Vec<Action>, Need))
        requires
            old(self).under_way(need),
            answers(need, answer),
        ensures
            *final(self) == old(self).answered(answer),
            old(self).answer_actions(need, answer, r.0@),
            r.1 == old(self).need_after(need, answer),
    {
        match answer {
            Answer::Beatmap => (Vec::new(), Need::Game),
            Answer::Game { audio } => {
                self.audio_found(audio);
                (Vec::new(), Need::Skin)
            },
            Answer::Skin { limit } => {
                let next: Need = if self.hold.render_desired() {
                    Need::Picture
                } else {
                    Need::Times
                };
                (self.adopt_track(limit), next)
            },
            Answer::Picture { found } => (self.adopt_render_session(&found), Need::Times),
            Answer::NoPicture { told } => match told {
                Some(f) => (Wall::tell(&f), Need::Times),
                None => (Vec::new(), Need::Times),
            },
            Answer::Times { length, limit_exact, product, at, hits, samples } => self.take_times(
                length,
                limit_exact,
                product,
                at,
                hits,
                samples,
            ),
            Answer::Sound { played } => match need {
                Need::Sound { begin } => (self.take_sound(begin, played), Need::Nothing),
                _ => (Vec::new(), Need::Nothing),
            },
            Answer::Failed { failure } => {
                self.give_up();
                (Wall::tell(&failure), Need::Nothing)
            },
        }
    }
}

/// A load that fails leaves everything as it was, wherever it fails: what was loaded before, what
/// plays and how loud, where it is, and whether the user paused it. One failure is told.
pub proof fn law_failed_load_keeps_session(
    w: Wall,
    asked: Asked,
    audio: Option<String>,
    need: Need,
    failure: Failure,
    actions: Seq<Action>,
)
    requires
        w.asked is None,
        w.asked_music is None,
        ({
            let failed = Answer::Failed { failure };
            answers(need, failed) && w.begun(asked).answer_actions(need, failed, actions)
        }),
    ensures
        ({
            let began = w.begun(asked);
            let read = began.answered(Answer::Beatmap);
            let parsed = read.answered(Answer::Game { audio });
            let failed = Answer::Failed { failure };
            &&& began.answered(failed) == w
            &&& read.answered(failed) == w
            &&& parsed.answered(failed) == w
            &&& tells(actions, failure)
            &&& began.need_after(need, failed) == Need::Nothing
        }),
{
}

/// While a load goes on that may still fail, nothing is asked of the sound or the picture.
pub proof fn law_reading_is_not_heard(w: Wall, need: Need, answer: Answer, actions: Seq<Action>)
    requires
        answers(need, answer),
        answer is Beatmap || answer is Game,
        w.answer_actions(need, answer, actions),
    ensures
        actions.len() == 0,
        w.answered(answer) == (Wall { asked_music: w.answered(answer).asked_music, ..w }),
{
}

/// No music begins before the picture is built, where one is wanted: a session that was taken over
/// waits for it, and only the answer behind it sets anything playing.
pub proof fn law_picture_comes_first(w: Wall, need: Need, answer: Answer, actions: Seq<Action>, k: int)
    requires
        answers(need, answer),
        w.answer_actions(need, answer, actions),
        0 <= k < actions.len(),
        actions[k] is Play || actions[k] is SpawnStretch,
    ensures
        need == Need::Times,
        forall|n: Need, a: Answer|
            #![trigger w.need_after(n, a)]
            answers(n, a) && w.need_after(n, a) == Need::Times && w.hold.desired() ==> a is Picture
                || a is NoPicture,
{
}

/// How many answers a load still needs at most.
pub open spec fn rank(need: Need) -> int {
    match need {
        Need::Beatmap => 6,
        Need::Game => 5,
        Need::Skin => 4,
        Need::Picture => 3,
        Need::Times => 2,
        Need::Sound { .. } => 1,
        Need::Nothing => 0,
    }
}

/// A load comes to its end after at most six answers, and each can be given.
pub proof fn law_loads_end(w: Wall, need: Need, answer: Answer)
    requires
        answers(need, answer),
        w.under_way(need),
    ensures
        w.answered(answer).under_way(w.need_after(need, answer)),
        0 <= rank(w.need_after(need, answer)) < rank(need) <= 6,
{
}

/// A load goes from the beatmap to the session, the skin, the picture, the times and the sound, and
/// ends behind it. Where no picture is wanted none is waited for, and where none could be built the
/// load goes on.
pub proof fn law_load_goes_step_by_step(
    w: Wall,
    need: Need,
    answer: Answer,
    audio: Option<String>,
    limit: Single,
)
    ensures
        answer is Beatmap ==> w.need_after(need, answer) == Need::Game && w.answered(answer) == w,
        answer is Game ==> w.need_after(need, answer) == Need::Skin,
        answer is Skin && w.hold.desired() ==> w.need_after(need, answer) == Need::Picture,
        answer is Skin && !w.hold.desired() ==> w.need_after(need, answer) == Need::Times,
        answer is Picture || answer is NoPicture ==> w.need_after(need, answer) == Need::Times,
        answer is Times ==> w.need_after(need, answer) is Sound,
        answer is Sound || answer is Failed ==> w.need_after(need, answer) == Need::Nothing,
        w.answered(Answer::Game { audio }).asked_music == audio,
        w.answered(Answer::Game { audio }).answered(Answer::Skin { limit }).music.path == audio,
        w.answered(Answer::Game { audio }).answered(Answer::Skin { limit }).limit == limit,
        w.answered(Answer::Game { audio }).answered(Answer::Skin { limit }).track,
        answer is NoPicture || answer is Sound ==> w.answered(answer) == w,
{
}

/// The hit sounds and samples that lie at or before the start of a track are passed over: the first
/// that is played of them is the first behind it.
pub proof fn law_load_passes_over_what_is_before(
    w: Wall,
    length: Option<Length>,
    limit_exact: Double,
    product: Single,
    at: Double,
    hits: Vec<Double>,
    samples: Vec<Double>,
    i: int,
)
    requires
        w.last_load is Some,
        hits@.len() <= usize::MAX,
        samples@.len() <= usize::MAX,
    ensures
        ({
            let r = w.answered(Answer::Times { length, limit_exact, product, at, hits, samples });
            &&& r.clock.t == w.last_load->0.start
            &&& r.clock.playing
            &&& r.clock.speed == product
            &&& r.hs_cursor <= hits@.len()
            &&& 0 <= i < r.hs_cursor ==> hits@[i].at_most(at)
            &&& r.hs_cursor < hits@.len() ==> !hits@[r.hs_cursor as int].at_most(at)
            &&& r.sb_cursor <= samples@.len()
            &&& 0 <= i < r.sb_cursor ==> samples@[i].at_most(at)
            &&& r.sb_cursor < samples@.len() ==> !samples@[r.sb_cursor as int].at_most(at)
        }),
{
    wall::law_passed_ends_at_the_first_ahead(hits@, at, i);
    wall::law_passed_ends_at_the_first_ahead(samples@, at, i);
}

/// A load that came to its end is told, with the path, the mods and the length of the track and
/// whether it is heard: stretched music will be, other music if it could be played, and no music is
/// not. The window is drawn anew.
pub proof fn law_load_is_told(w: Wall, begin: Begin, played: bool, actions: Seq<Action>)
    requires
        w.last_load is Some,
        w.answer_actions(Need::Sound { begin }, Answer::Sound { played }, actions),
    ensures
        actions.len() == if w.stage.window {
            2int
        } else {
            1
        },
        w.stage.window ==> actions[1] == Action::Redraw,
        actions[0] matches Action::Send(Event::Loaded {
            path,
            diff,
            duration_ms,
            widescreen,
            has_audio,
            mods,
        }) && path == w.last_load->0.path && diff is None && duration_ms == w.music.duration_ms
            && widescreen && mods == w.last_load->0.mods && (has_audio <==> begin
            == Begin::Stretching || (begin == Begin::Playing && played)),
{
}

/// A failure that is told is told in its own words, and alone.
pub proof fn law_failure_is_told(w: Wall, need: Need, failure: Failure, actions: Seq<Action>)
    requires
        w.answer_actions(need, Answer::Failed { failure }, actions) || w.answer_actions(
            need,
            Answer::NoPicture { told: Some(failure) },
            actions,
        ),
    ensures
        actions.len() == 1,
        actions[0] matches Action::Send(Event::Error { message }) && message@ == failure.says(),
{
}

/// Each answer is one to what was needed, and reading can fail at each step.
pub proof fn law_answers_fit(answer: Answer)
    ensures
        answers(Need::Beatmap, answer) <==> answer is Beatmap || answer is Failed,
        answers(Need::Game, answer) <==> answer is Game || answer is Failed,
        answers(Need::Skin, answer) <==> answer is Skin || answer is Failed,
        answers(Need::Picture, answer) <==> answer is Picture || answer is NoPicture,
        answers(Need::Times, answer) <==> answer is Times,
        !answers(Need::Nothing, answer),
{
}

} // verus!
