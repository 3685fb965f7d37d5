//! The picture that is rendered: its size, and what of the settings goes into a scene.
use vstd::prelude::*;

use crate::ieee::Single;
use crate::ipc;

verus! {

/// The longest side of a scene.
pub const SCENE_MAX_LONG: u32 = 2560;

/// The next even number down.
pub open spec fn even_down(n: int) -> int {
    n - n % 2
}

/// The height of the largest picture of 16 to 9 that fits on the desktop, at least one.
pub open spec fn fit_height(desk_w: int, desk_h: int) -> int {
    let h = if desk_h <= desk_w * 9 / 16 {
        desk_h
    } else {
        desk_w * 9 / 16
    };
    if h < 1 {
        1
    } else {
        h
    }
}

/// The size of a scene: 16 to 9, within the desktop, its long side capped, both sides even.
pub open spec fn scene_of(desk_w: int, desk_h: int) -> (int, int) {
    let h = fit_height(desk_w, desk_h);
    let w = h * 16 / 9;
    if w > SCENE_MAX_LONG {
        (2560, 1440)
    } else {
        (even_down(w), even_down(h))
    }
}

pub fn scene_size(desk_w: u32, desk_h: u32) -> (r: (u32, u32))
    requires
        desk_w * 9 <= u32::MAX,
    ensures
        (r.0 as int, r.1 as int) == scene_of(desk_w as int, desk_h as int),
{
    let fit: u32 = desk_w * 9 / 16;
    let low: u32 = if desk_h <= fit {
        desk_h
    } else {
        fit
    };
    let h: u32 = if low < 1 {
        1
    } else {
        low
    };
    assert(h <= 1 || h * 16 <= desk_w * 9);
    let w: u32 = h * 16 / 9;
    if w > SCENE_MAX_LONG {
        let capped: u32 = SCENE_MAX_LONG * 9 / 16;
        (SCENE_MAX_LONG - SCENE_MAX_LONG % 2, capped - capped % 2)
    } else {
        (w - w % 2, h - h % 2)
    }
}

/// A scene has even sides, stays below the cap and, on any desktop of at least two by one, within
/// the desktop.
pub proof fn law_scene_fits(desk_w: int, desk_h: int)
    requires
        desk_w >= 2,
        desk_h >= 1,
    ensures
        ({
            let (w, h) = scene_of(desk_w, desk_h);
            &&& w % 2 == 0
            &&& h % 2 == 0
            &&& 0 <= w <= SCENE_MAX_LONG
            &&& 0 <= h <= 1440
            &&& w <= desk_w
            &&& h <= desk_h
        }),
{
    let h = fit_height(desk_w, desk_h);
    assert(h * 16 <= desk_w * 9);
    assert(h * 16 / 9 <= desk_w);
}

/// The size at which the storyboard is composed: the scene's, capped at full HD.
pub open spec fn slot_of(w: int, h: int) -> (int, int) {
    let a = if w < 1920 {
        w
    } else {
        1920
    };
    let b = if h < 1080 {
        h
    } else {
        1080
    };
    (
        even_down(if a < 1 {
            1
        } else {
            a
        }),
        even_down(if b < 1 {
            1
        } else {
            b
        }),
    )
}

pub fn storyboard_slot(w: u32, h: u32) -> (r: (u32, u32))
    ensures
        (r.0 as int, r.1 as int) == slot_of(w as int, h as int),
{
    let a: u32 = if w < 1920 {
        w
    } else {
        1920
    };
    let b: u32 = if h < 1080 {
        h
    } else {
        1080
    };
    let a: u32 = if a < 1 {
        1
    } else {
        a
    };
    let b: u32 = if b < 1 {
        1
    } else {
        b
    };
    (a - a % 2, b - b % 2)
}

/// What the user set of the picture.
#[derive(Debug, Clone, Copy, PartialEq, Eq, Structural)]
pub struct Look {
    pub hud_visible: bool,
    pub pp_display: bool,
    pub hit_animations: bool,
    pub break_lighten: bool,
    pub cursor_on: bool,
    pub cursor_size: Single,
    pub gameplay_hidden: bool,
    pub bg_opacity: Single,
    pub sb_enabled: bool,
    pub video_enabled: bool,
    /// Hidden, by the user or by the mods.
    pub hd_on: bool,
    /// Hidden by the mods of the track.
    pub track_hd: bool,
}

impl Look {
    /// What holds before anything was set.
    pub open spec fn initial() -> Look {
        Look {
            hud_visible: false,
            pp_display: false,
            hit_animations: true,
            break_lighten: false,
            cursor_on: true,
            cursor_size: Single { bits: ipc::ONE },
            gameplay_hidden: false,
            bg_opacity: Single { bits: DEFAULT_BG_OPACITY },
            sb_enabled: true,
            video_enabled: true,
            hd_on: false,
            track_hd: false,
        }
    }

    pub fn new() -> (r: Look)
        ensures
            r == Look::initial(),
    {
        Look {
            hud_visible: false,
            pp_display: false,
            hit_animations: true,
            break_lighten: false,
            cursor_on: true,
            cursor_size: Single { bits: ipc::ONE },
            gameplay_hidden: false,
            bg_opacity: Single { bits: DEFAULT_BG_OPACITY },
            sb_enabled: true,
            video_enabled: true,
            hd_on: false,
            track_hd: false,
        }
    }
}

/// What of the user's settings a scene has when a track begins again. The rest is as in any new
/// scene.
#[derive(Debug, Clone, Copy, PartialEq, Eq, Structural)]
pub struct Fresh {
    pub hud_visible: bool,
    pub pp_display: bool,
    pub hit_animations: bool,
    pub break_lighten: bool,
    pub show_cursor: bool,
    pub cursor_size: Single,
    pub ur_bar: bool,
    pub offset_heatmap: bool,
    pub gameplay_hidden: bool,
}

impl Look {
    pub open spec fn fresh(self) -> Fresh {
        Fresh {
            hud_visible: self.hud_visible,
            pp_display: self.pp_display,
            hit_animations: self.hit_animations,
            break_lighten: self.break_lighten,
            show_cursor: self.cursor_on,
            cursor_size: self.cursor_size,
            ur_bar: false,
            offset_heatmap: false,
            gameplay_hidden: self.gameplay_hidden,
        }
    }

    pub fn start_over(&self) -> (r: Fresh)
        ensures
            r == self.fresh(),
    {
        Fresh {
            hud_visible: self.hud_visible,
            pp_display: self.pp_display,
            hit_animations: self.hit_animations,
            break_lighten: self.break_lighten,
            show_cursor: self.cursor_on,
            cursor_size: self.cursor_size,
            ur_bar: false,
            offset_heatmap: false,
            gameplay_hidden: self.gameplay_hidden,
        }
    }
}

/// 0.3.
pub const DEFAULT_BG_OPACITY: u32 = 0x3E99_999A;

/// 0.1.
pub const CURSOR_MIN: u32 = 0x3DCC_CCCD;

/// 2.
pub const CURSOR_MAX: u32 = 0x4000_0000;

/// A cursor size within its bounds.
pub open spec fn cursor_within(x: Single) -> Single {
    x.clamped(Single { bits: CURSOR_MIN }, Single { bits: CURSOR_MAX })
}

pub fn clamp_cursor(x: Single) -> (r: Single)
    ensures
        r == cursor_within(x),
{
    x.clamp(Single { bits: CURSOR_MIN }, Single { bits: CURSOR_MAX })
}

/// A share of one within its bounds.
pub open spec fn unit(x: Single) -> Single {
    x.clamped(Single { bits: 0 }, Single { bits: ipc::ONE })
}

pub fn clamp_unit(x: Single) -> (r: Single)
    ensures
        r == unit(x),
{
    x.clamp(Single { bits: 0 }, Single { bits: ipc::ONE })
}

/// What building a session found out: whether there is a storyboard, whether it has a foreground
/// and draws the background itself, whether there is a background picture, and whether the skin
/// is one of the old kind.
#[derive(Debug, Clone, Copy, PartialEq, Eq, Structural)]
pub struct Found {
    pub storyboard: bool,
    pub foreground: bool,
    pub replaces_background: bool,
    pub background: bool,
    pub legacy_skin: bool,
}

/// A scene as it is set up.
#[derive(Debug, Clone, Copy, PartialEq, Eq, Structural)]
pub struct Scene {
    pub hud_visible: bool,
    pub pp_display: bool,
    pub hit_animations: bool,
    pub break_lighten: bool,
    pub show_cursor: bool,
    pub cursor_size: Single,
    pub ur_bar: bool,
    pub offset_heatmap: bool,
    pub gameplay_hidden: bool,
    pub hidden: bool,
    pub pro_skin: bool,
    /// How bright the background is; none where there is no background.
    pub bg_opacity: Option<Single>,
    /// How bright the storyboard is; none where there is no storyboard.
    pub storyboard: Option<Single>,
    pub storyboard_fg: bool,
    pub sb_replaces_bg: bool,
    pub has_bg: bool,
}

/// The scene of a session.
pub open spec fn scene_with(look: Look, found: Found) -> Scene {
    Scene {
        hud_visible: look.hud_visible,
        pp_display: look.pp_display,
        hit_animations: look.hit_animations,
        break_lighten: look.break_lighten,
        show_cursor: look.cursor_on,
        cursor_size: cursor_within(look.cursor_size),
        ur_bar: false,
        offset_heatmap: false,
        gameplay_hidden: look.gameplay_hidden,
        hidden: look.hd_on,
        pro_skin: !found.legacy_skin,
        bg_opacity: if found.background {
            Some(unit(look.bg_opacity))
        } else {
            None
        },
        storyboard: if found.storyboard {
            Some(unit(look.bg_opacity))
        } else {
            None
        },
        storyboard_fg: found.storyboard && found.foreground,
        sb_replaces_bg: found.storyboard && found.replaces_background,
        has_bg: found.background,
    }
}

pub fn plan_scene(look: &Look, found: &Found) -> (r: Scene)
    ensures
        r == scene_with(*look, *found),
{
    let light: Single = clamp_unit(look.bg_opacity);
    Scene {
        hud_visible: look.hud_visible,
        pp_display: look.pp_display,
        hit_animations: look.hit_animations,
        break_lighten: look.break_lighten,
        show_cursor: look.cursor_on,
        cursor_size: clamp_cursor(look.cursor_size),
        ur_bar: false,
        offset_heatmap: false,
        gameplay_hidden: look.gameplay_hidden,
        hidden: look.hd_on,
        pro_skin: !found.legacy_skin,
        bg_opacity: if found.background {
            Some(light)
        } else {
            None
        },
        storyboard: if found.storyboard {
            Some(light)
        } else {
            None
        },
        storyboard_fg: found.storyboard && found.foreground,
        sb_replaces_bg: found.storyboard && found.replaces_background,
        has_bg: found.background,
    }
}

/// Whether the background picture is decoded: there is one, and the storyboard does not draw it
/// itself.
pub open spec fn background_wanted(named: bool, storyboard: bool, replaces: bool) -> bool {
    named && !(storyboard && replaces)
}

pub fn wants_background(named: bool, storyboard: bool, replaces_background: bool) -> (r: bool)
    ensures
        r == background_wanted(named, storyboard, replaces_background),
{
    named && !(storyboard && replaces_background)
}

/// Whether a skin can be changed while it plays: not where the background was there and cannot be
/// decoded again.
pub open spec fn swappable(wanted: bool, decoded: bool, scene_has_bg: bool) -> bool {
    !(wanted && !decoded && scene_has_bg)
}

pub fn can_reswap(wanted: bool, decoded: bool, scene_has_bg: bool) -> (r: bool)
    ensures
        r == swappable(wanted, decoded, scene_has_bg),
{
    !(wanted && !decoded && scene_has_bg)
}

/// The order of the keys: each place once, the keys growing, equal ones in their order.
pub open spec fn is_time_order(keys: Seq<i64>, order: Seq<usize>) -> bool {
    &&& order.len() == keys.len()
    &&& forall|i: int| 0 <= i < order.len() ==> #[trigger] order[i] < keys.len()
    &&& forall|i: int, j: int|
        0 <= i < j < order.len() ==> {
            let a = #[trigger] order[i] as int;
            let b = #[trigger] order[j] as int;
            keys[a] < keys[b] || (keys[a] == keys[b] && a < b)
        }
}

/// The order in which samples are played, by the whole milliseconds of their times.
pub fn order_by_time(keys: &Vec<i64>) -> (order: Vec<usize>)
    ensures
        is_time_order(keys@, order@),
{
    let mut order: Vec<usize> = Vec::new();
    let mut n: usize = 0;
    while n < keys.len()
        invariant
            n <= keys@.len(),
            is_time_order(keys@.take(n as int), order@),
        decreases keys.len() - n,
    {
        let mut k: usize = order.len();
        while k > 0 && keys[order[k - 1]] > keys[n]
            invariant
                k <= order@.len() == n,
                n < keys@.len(),
                is_time_order(keys@.take(n as int), order@),
                forall|i: int| k <= i < order@.len() ==> keys@[#[trigger] order@[i] as int] > keys@[n as int],
            decreases k,
        {
            k = k - 1;
        }
        let ghost before = order@;
        order.insert(k, n);
        proof {
            let old_keys = keys@.take(n as int);
            let new_keys = keys@.take(n + 1);
            let after = order@;
            assert forall|i: int| 0 <= i < after.len() implies #[trigger] after[i] < new_keys.len() by {
                if i < k {
                    assert(before[i] < old_keys.len());
                } else if i > k {
                    assert(before[i - 1] < old_keys.len());
                }
            }
            assert forall|i: int, j: int| 0 <= i < j < after.len() implies {
                let a = #[trigger] after[i] as int;
                let b = #[trigger] after[j] as int;
                new_keys[a] < new_keys[b] || (new_keys[a] == new_keys[b] && a < b)
            } by {
                let i0 = if i < k { i } else { i - 1 };
                let j0 = if j < k { j } else { j - 1 };
                if i != k && j != k {
                    assert(before[i0] < old_keys.len());
                    assert(before[j0] < old_keys.len());
                    assert(old_keys[before[i0] as int] < old_keys[before[j0] as int] || (
                    old_keys[before[i0] as int] == old_keys[before[j0] as int] && before[i0]
                        < before[j0]));
                } else if j == k {
                    assert(before[i0] < old_keys.len());
                    if k > 0 {
                        assert(before[k - 1] < old_keys.len());
                        assert(keys@[before[k - 1] as int] <= keys@[n as int]);
                        if i0 < k - 1 {
                            assert(old_keys[before[i0] as int] <= old_keys[before[k - 1] as int]);
                        }
                    }
                } else {
                    assert(before[j0] < old_keys.len());
                    assert(keys@[before[j0] as int] > keys@[n as int]);
                }
            }
        }
        n = n + 1;
    }
    assert(keys@.take(keys@.len() as int) =~= keys@);
    order
}

/// A scene is as large as it can be: of 16 to 9, no picture that is two rows higher fits on the
/// desktop, unless it is the largest of all.
pub proof fn law_scene_is_the_largest(desk_w: int, desk_h: int)
    requires
        desk_w >= 2,
        desk_h >= 1,
    ensures
        ({
            let (w, h) = scene_of(desk_w, desk_h);
            ||| (w, h) == (2560int, 1440int) && desk_w >= 2560 && desk_h >= 1440
            ||| (h + 2 > desk_h || (h + 2) * 16 > desk_w * 9) && w <= (h + 1) * 16 / 9 && w + 1 >= h
                * 16 / 9
        }),
{
    let f = fit_height(desk_w, desk_h);
    let (w, h) = scene_of(desk_w, desk_h);
    assert(f + 1 > desk_h || (f + 1) * 16 > desk_w * 9);
    if f * 16 / 9 <= SCENE_MAX_LONG {
        assert(h == f - f % 2);
    } else {
        assert(f * 16 / 9 > 2560);
        assert(f >= 1440);
    }
}

/// The storyboard is composed at the size of the scene, as far as full HD goes, with even sides.
pub proof fn law_storyboard_is_at_most_full_hd(w: int, h: int)
    requires
        w >= 1,
        h >= 1,
    ensures
        w <= 1920 ==> slot_of(w, h).0 == w - w % 2,
        w > 1920 ==> slot_of(w, h).0 == 1920,
        h <= 1080 ==> slot_of(w, h).1 == h - h % 2,
        h > 1080 ==> slot_of(w, h).1 == 1080,
{
}

/// A share that is a number comes to lie from zero to one, and a cursor's size from 0.1 to 2; what
/// lies there stays.
pub proof fn law_shares_stay_within(x: Single)
    ensures
        !x.nan() ==> unit(x).bits <= 0x3F80_0000 || unit(x).bits == 0x8000_0000,
        x.bits <= 0x3F80_0000 ==> unit(x) == x,
        0x3F80_0000 < x.bits <= 0x7F80_0000 ==> unit(x).bits == 0x3F80_0000,
        0x8000_0000 < x.bits <= 0xFF80_0000 ==> unit(x).bits == 0,
        !x.nan() ==> 0x3DCC_CCCD <= cursor_within(x).bits <= 0x4000_0000,
        0x3DCC_CCCD <= x.bits <= 0x4000_0000 ==> cursor_within(x) == x,
{
}

/// A scene shows what the user set: each switch by its own, the background and the storyboard at
/// the brightness of the background where there are any, and the picture of the skin's kind.
pub proof fn law_scene_shows_the_look(look: Look, found: Found)
    ensures
        ({
            let s = scene_with(look, found);
            &&& s.hud_visible == look.hud_visible
            &&& s.pp_display == look.pp_display
            &&& s.hit_animations == look.hit_animations
            &&& s.break_lighten == look.break_lighten
            &&& s.show_cursor == look.cursor_on
            &&& 0x3DCC_CCCD <= look.cursor_size.bits <= 0x4000_0000 ==> s.cursor_size
                == look.cursor_size
            &&& s.gameplay_hidden == look.gameplay_hidden
            &&& s.hidden == look.hd_on
            &&& s.pro_skin == !found.legacy_skin
            &&& s.bg_opacity is Some <==> found.background
            &&& s.storyboard is Some <==> found.storyboard
            &&& look.bg_opacity.bits <= 0x3F80_0000 && found.background ==> s.bg_opacity == Some(
                look.bg_opacity,
            )
            &&& look.bg_opacity.bits <= 0x3F80_0000 && found.storyboard ==> s.storyboard == Some(
                look.bg_opacity,
            )
            &&& s.storyboard_fg <==> found.storyboard && found.foreground
            &&& s.sb_replaces_bg <==> found.storyboard && found.replaces_background
            &&& s.has_bg == found.background
            &&& !s.ur_bar && !s.offset_heatmap
        }),
{
}

/// A track that begins again shows what the user set, as a new scene does.
pub proof fn law_fresh_scene_shows_the_look(look: Look, found: Found)
    ensures
        look.fresh().hud_visible == look.hud_visible,
        look.fresh().pp_display == look.pp_display,
        look.fresh().hit_animations == look.hit_animations,
        look.fresh().break_lighten == look.break_lighten,
        look.fresh().show_cursor == look.cursor_on,
        look.fresh().cursor_size == look.cursor_size,
        look.fresh().gameplay_hidden == look.gameplay_hidden,
        !look.fresh().ur_bar && !look.fresh().offset_heatmap,
{
}

/// At first the picture shows everything but the interface and the points, with a dim background.
pub proof fn law_first_look()
    ensures
        ({
            let l = Look::initial();
            &&& !l.hud_visible && !l.pp_display && !l.break_lighten && !l.gameplay_hidden
            &&& l.hit_animations && l.cursor_on && l.sb_enabled && l.video_enabled
            &&& !l.hd_on && !l.track_hd
            &&& l.cursor_size.bits == 0x3F80_0000 && l.bg_opacity.bits == 0x3E99_999A
        }),
{
}

/// Samples are played in the order of their times, and those of one time in the order in which they
/// came; each of them is played once.
pub proof fn law_samples_go_by_their_times(keys: Seq<i64>, order: Seq<usize>, i: int, j: int)
    requires
        is_time_order(keys, order),
        0 <= i < j < order.len(),
    ensures
        order.len() == keys.len(),
        order[i] != order[j],
        keys[order[i] as int] <= keys[order[j] as int],
        keys[order[i] as int] == keys[order[j] as int] ==> order[i] < order[j],
        0 <= order[i] < keys.len(),
{
}

/// A background that there is is decoded, unless a storyboard that is shown draws it. A skin is
/// changed unless that would lose the background.
pub proof fn law_background_is_not_lost(a: bool, b: bool)
    ensures
        background_wanted(true, false, b),
        background_wanted(true, a, false),
        !background_wanted(true, true, true),
        !background_wanted(false, a, b),
        swappable(a, true, b),
        swappable(false, a, b),
        swappable(a, b, false),
        !swappable(true, false, true),
{
}

} // verus!
