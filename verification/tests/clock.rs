use aria::clock::{Anchor, Clock, Tick};
use aria::ieee::Single;

fn single(x: f32) -> Single {
    Single::from_bits(x.to_bits())
}

fn value(s: Single) -> f32 {
    f32::from_bits(s.bits)
}

/// One tick, `dt` milliseconds after the last one, with the music at `pos`.
fn tick(c: &mut Clock, dt: f32, pos: f32) {
    let wall = value(c.wall_t) + dt * value(c.speed);
    let from = if c.ticking && c.playing { wall } else { value(c.wall_t) };
    let error = pos - from;
    let anchor = Anchor {
        pos: single(pos),
        error: single(error),
        nudged: single(from + error.clamp(-80.0, 80.0)),
        from_target: match c.seek_target {
            Some(t) => single(pos - value(t)),
            None => single(0.0),
        },
    };
    c.step(Tick { dt: single(dt), wall: single(wall) }, Some(anchor));
}

#[test]
fn backward_seek_no_forward_spike_on_stale_audio() {
    let mut c = Clock::new(single(0.0), single(1.0));
    for _ in 0..5 {
        tick(&mut c, 0.01, 60_000.0);
    }
    c.seek(single(30_000.0));
    for _ in 0..60 {
        tick(&mut c, 0.01, 59_999.0);
    }
    assert!(value(c.t) < 32_000.0, "t={}ms", value(c.t));
    tick(&mut c, 0.01, 30_050.0);
    assert!((value(c.t) - 30_050.0).abs() < 1.0, "t={}ms", value(c.t));
    assert!(c.seek_target.is_none());
}

#[test]
fn forward_seek_waits_for_landing() {
    let mut c = Clock::new(single(0.0), single(1.0));
    for _ in 0..5 {
        tick(&mut c, 0.01, 10_000.0);
    }
    c.seek(single(60_000.0));
    for _ in 0..60 {
        tick(&mut c, 0.01, 10_001.0);
    }
    assert!(value(c.t) > 58_000.0 && value(c.t) < 62_500.0, "t={}ms", value(c.t));
    tick(&mut c, 0.01, 60_030.0);
    assert!((value(c.t) - 60_030.0).abs() < 1.0, "t={}ms", value(c.t));
}

#[test]
fn stalled_loop_marks_jump_even_when_audio_matches() {
    let mut c = Clock::new(single(10_000.0), single(1.0));
    c.ticking = true;
    tick(&mut c, 3000.0, 13_000.0);
    assert!((value(c.t) - 13_000.0).abs() < 260.0, "t={}ms", value(c.t));
    assert!(c.take_jump());
    tick(&mut c, 15.0, 13_015.0);
    assert!(!c.take_jump());
}

#[test]
fn large_error_without_seek_snaps_and_marks_jump() {
    let mut c = Clock::new(single(0.0), single(1.0));
    c.seek_target = None;
    c.wall_t = single(10_000.0);
    assert!(!c.take_jump());
    tick(&mut c, 0.0, 60_000.0);
    assert!((value(c.t) - 60_000.0).abs() < 1.0, "t={}ms", value(c.t));
    assert!(c.take_jump());
    assert!(!c.take_jump());
}

#[test]
fn paused_clock_stands_still() {
    let mut c = Clock::new(single(1_000.0), single(1.0));
    c.playing = false;
    tick(&mut c, 100.0, 5_000.0);
    tick(&mut c, 100.0, 5_000.0);
    assert_eq!(value(c.t), 1_000.0);
}

#[test]
fn near_music_nudges_by_at_most_eighty() {
    let mut c = Clock::new(single(1_000.0), single(2.0));
    c.ticking = true;
    tick(&mut c, 10.0, 1_200.0);
    assert_eq!(value(c.t), 1_100.0);
    assert!(!c.take_jump());
}
