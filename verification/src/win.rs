//! Putting a window behind the icons of the Windows desktop, and telling when the desktop is
//! covered. Windows are known by their handles; zero is no window.
use vstd::prelude::*;

use crate::text;

verus! {

pub const WS_EX_NOACTIVATE: i64 = 0x0800_0000;

pub const WS_EX_TOOLWINDOW: i64 = 0x80;

pub const WS_EX_LAYERED: i64 = 0x0008_0000;

pub const WS_EX_TRANSPARENT: i64 = 0x20;

/// The desktop window has this style where it is drawn without a bitmap of its own.
pub const WS_EX_NOREDIRECTIONBITMAP: i64 = 0x0020_0000;

pub const WS_POPUP: i64 = 0x8000_0000;

pub const WS_CAPTION: i64 = 0x00C0_0000;

pub const WS_CHILD: i64 = 0x4000_0000;

#[derive(Debug, Clone, Copy, PartialEq, Eq, Structural)]
pub struct Rect {
    pub left: i32,
    pub top: i32,
    pub right: i32,
    pub bottom: i32,
}

/// A part of the desktop, in the coordinates of the whole.
#[derive(Debug, Clone, Copy, PartialEq, Eq, Structural)]
pub struct Bounds {
    pub x: i32,
    pub y: i32,
    pub width: u32,
    pub height: u32,
}

/// Left, top, width and height name a part of the desktop that is not empty.
pub open spec fn bounds_in(v: Seq<i32>) -> Option<Bounds> {
    if v.len() == 4 && v[2] > 0 && v[3] > 0 {
        Some(Bounds { x: v[0], y: v[1], width: v[2] as u32, height: v[3] as u32 })
    } else {
        None
    }
}

pub fn bounds_of(v: &Vec<i32>) -> (r: Option<Bounds>)
    ensures
        r == bounds_in(v@),
{
    if v.len() == 4 && v[2] > 0 && v[3] > 0 {
        Some(Bounds { x: v[0], y: v[1], width: v[2] as u32, height: v[3] as u32 })
    } else {
        None
    }
}

/// How far `a` is from `origin`, as far as that can be told.
pub open spec fn offset(a: i32, origin: i32) -> int {
    if a - origin > i32::MAX {
        i32::MAX as int
    } else if a - origin < i32::MIN {
        i32::MIN as int
    } else {
        a - origin
    }
}

fn offset_of(a: i32, origin: i32) -> (r: i32)
    ensures
        r == offset(a, origin),
{
    let d: i64 = a as i64 - origin as i64;
    if d > i32::MAX as i64 {
        i32::MAX
    } else if d < i32::MIN as i64 {
        i32::MIN
    } else {
        d as i32
    }
}

/// Where a part of the desktop begins in the window that carries it.
pub fn place_in(b: &Bounds, carrier: &Rect) -> (r: (i32, i32))
    ensures
        r.0 == offset(b.x, carrier.left),
        r.1 == offset(b.y, carrier.top),
{
    (offset_of(b.x, carrier.left), offset_of(b.y, carrier.top))
}

/// The extent from `a` to `b`.
pub open spec fn extent(a: i32, b: i32) -> int {
    if b > a {
        b - a
    } else {
        0
    }
}

fn extent_of(a: i32, b: i32) -> (r: u32)
    ensures
        r == extent(a, b),
{
    if b > a {
        (b as i64 - a as i64) as u32
    } else {
        0
    }
}

/// The size of the inside of a window; what cannot be told is nothing.
pub fn client_size(rect: Option<Rect>) -> (r: (u32, u32))
    ensures
        match rect {
            Some(c) => r.0 == extent(c.left, c.right) && r.1 == extent(c.top, c.bottom),
            None => r.0 == 0 && r.1 == 0,
        },
{
    match rect {
        Some(c) => (extent_of(c.left, c.right), extent_of(c.top, c.bottom)),
        None => (0, 0),
    }
}

/// How often the screen is drawn; sixty where that cannot be told.
pub open spec fn refresh_of(frequency: Option<u32>) -> u32 {
    match frequency {
        Some(f) => if f > 0 {
            f
        } else {
            1
        },
        None => 60,
    }
}

pub fn monitor_refresh_hz(frequency: Option<u32>) -> (r: u32)
    ensures
        r == refresh_of(frequency),
{
    match frequency {
        Some(f) => if f > 0 {
            f
        } else {
            1
        },
        None => 60,
    }
}

/// A window on the screen.
#[derive(Debug)]
pub struct Shown {
    pub window: u64,
    pub visible: bool,
    pub iconic: bool,
    pub class: String,
    /// Suspended or on another virtual desktop.
    pub cloaked: bool,
    pub bounds: Option<Rect>,
}

/// The window hides what lies below it: it is shown, and no part of the desktop.
pub open spec fn hides(w: Shown, except: u64) -> bool {
    &&& w.window != except
    &&& w.visible
    &&& !w.iconic
    &&& w.class@ != "Progman"@ && w.class@ != "WorkerW"@ && w.class@ != "SHELLDLL_DefView"@
    &&& !w.cloaked
    &&& w.bounds is Some
}

/// `outer` holds all of `inner`.
pub open spec fn holds(outer: Rect, inner: Rect) -> bool {
    outer.left <= inner.left && outer.top <= inner.top && outer.right >= inner.right && outer.bottom
        >= inner.bottom
}

/// Some window hides all of an area.
pub open spec fn area_hidden(area: Rect, windows: Seq<Shown>, except: u64) -> bool {
    exists|j: int|
        0 <= j < windows.len() && hides(#[trigger] windows[j], except) && holds(
            windows[j].bounds->0,
            area,
        )
}

fn hides_area(w: &Shown, area: Rect, except: u64) -> (r: bool)
    ensures
        r == (hides(*w, except) && holds(w.bounds->0, area)),
{
    if w.window == except || !w.visible || w.iconic || w.cloaked {
        return false;
    }
    if text::same(w.class.as_str(), "Progman") || text::same(w.class.as_str(), "WorkerW")
        || text::same(w.class.as_str(), "SHELLDLL_DefView") {
        return false;
    }
    match w.bounds {
        Some(b) => b.left <= area.left && b.top <= area.top && b.right >= area.right && b.bottom
            >= area.bottom,
        None => false,
    }
}

/// Whether nothing of the desktop is to be seen: on each screen some window hides the whole of
/// the area for windows. Where no screen is known, it is not.
pub open spec fn all_hidden(areas: Seq<Rect>, windows: Seq<Shown>, except: u64) -> bool {
    areas.len() > 0 && forall|i: int|
        0 <= i < areas.len() ==> area_hidden(#[trigger] areas[i], windows, except)
}

pub fn desktop_covered(areas: &Vec<Rect>, windows: &Vec<Shown>, except: u64) -> (r: bool)
    ensures
        r == all_hidden(areas@, windows@, except),
{
    let mut i: usize = 0;
    while i < areas.len()
        invariant
            i <= areas@.len(),
            forall|k: int| 0 <= k < i ==> area_hidden(#[trigger] areas@[k], windows@, except),
        decreases areas.len() - i,
    {
        let mut j: usize = 0;
        let mut hidden: bool = false;
        while j < windows.len() && !hidden
            invariant
                i < areas@.len(),
                j <= windows@.len(),
                hidden ==> area_hidden(areas@[i as int], windows@, except),
                !hidden ==> forall|k: int|
                    0 <= k < j ==> !(hides(#[trigger] windows@[k], except) && holds(
                        windows@[k].bounds->0,
                        areas@[i as int],
                    )),
            decreases windows.len() - j,
        {
            hidden = hides_area(&windows[j], areas[i], except);
            j = j + 1;
        }
        if !hidden {
            assert(!area_hidden(areas@[i as int], windows@, except));
            return false;
        }
        i = i + 1;
    }
    areas.len() > 0
}

/// The window as it was put behind the icons.
#[derive(Debug, Clone, Copy, PartialEq, Eq, Structural)]
pub struct WallpaperHost {
    pub parent: u64,
    pub child: u64,
    pub width: u32,
    pub height: u32,
}

impl WallpaperHost {
    pub open spec fn none() -> WallpaperHost {
        WallpaperHost { parent: 0, child: 0, width: 0, height: 0 }
    }

    pub open spec fn of(parent: u64, child: u64, w: u32, h: u32) -> WallpaperHost {
        WallpaperHost {
            parent,
            child,
            width: if w > 0 {
                w
            } else {
                1
            },
            height: if h > 0 {
                h
            } else {
                1
            },
        }
    }

    pub fn invalid() -> (r: WallpaperHost)
        ensures
            r == WallpaperHost::none(),
    {
        WallpaperHost { parent: 0, child: 0, width: 0, height: 0 }
    }

    fn sized(parent: u64, child: u64, w: u32, h: u32) -> (r: WallpaperHost)
        ensures
            r == WallpaperHost::of(parent, child, w, h),
    {
        WallpaperHost {
            parent,
            child,
            width: if w > 0 {
                w
            } else {
                1
            },
            height: if h > 0 {
                h
            } else {
                1
            },
        }
    }
}

/// A top-level window, and whether the icons are directly in it.
#[derive(Debug, Clone, Copy, PartialEq, Eq, Structural)]
pub struct Top {
    pub window: u64,
    pub has_icons: bool,
}

/// A top-level window that may carry the wallpaper, and the process that it belongs to.
#[derive(Debug, Clone, Copy, PartialEq, Eq, Structural)]
pub struct Worker {
    pub window: u64,
    pub pid: u32,
}

/// What is found of the desktop and of the window to put there.
#[derive(Debug, Clone, Copy, PartialEq, Eq, Structural)]
pub struct Layout {
    /// The extended style of the desktop window.
    pub desktop_ex: i64,
    /// The window of the icons directly in it.
    pub icons: u64,
    /// The process of the shell.
    pub shell_pid: u32,
    pub ex: i64,
    pub style: i64,
    /// Treat the desktop as one of older versions.
    pub classic: bool,
}

/// Where a window is put among those beside it.
#[derive(Debug, Clone, Copy, PartialEq, Eq, Structural)]
pub enum Depth {
    Below { window: u64 },
    Bottom,
}

/// What has to be done next to put the window behind the icons.
#[derive(Debug, Clone, Copy, PartialEq, Eq, Structural)]
pub enum Ask {
    FindDesktop,
    /// Have the shell make room for a wallpaper, and wait so long for it.
    Spawn { timeout_ms: u32 },
    ReadLayout,
    /// Set both styles; make it opaque where it is layered.
    Restyle { ex: i64, style: i64, layered: bool },
    Reparent { parent: u64 },
    /// Take a style back after the window could not be put there.
    SetStyle { style: i64 },
    Measure { parent: u64 },
    /// Fill the parent; a parent without a size is left alone.
    Place { depth: Depth, width: u32, height: u32 },
    /// Look whether the desktop window holds the icons, and list the top-level windows from the
    /// front, at most so many.
    ListTops { most: u32 },
    /// List those that may carry a wallpaper behind a window.
    ListWorkers { behind: u64 },
    Finish { host: WallpaperHost },
}

/// What came of it.
#[derive(Debug)]
pub enum Reply {
    Done,
    Window { window: u64 },
    Found { layout: Layout },
    Parented { ok: bool },
    Size { width: u32, height: u32 },
    Tops { on_desktop: bool, tops: Vec<Top> },
    Workers { workers: Vec<Worker> },
}

/// How far it is.
#[derive(Debug, Clone, Copy, PartialEq, Eq, Structural)]
pub enum Phase {
    Desktop,
    Spawning,
    Reading,
    /// Looking for the window that holds the icons.
    Searching { again: bool },
    Respawning,
    /// Looking for the window that carries the wallpaper.
    Choosing { container: u64 },
    Styling { parent: u64 },
    Parenting { parent: u64 },
    Undoing,
    Measuring { parent: u64 },
    Placing { host: WallpaperHost },
    Over,
}

/// Putting a window behind the icons.
#[derive(Debug, Clone, Copy, PartialEq, Eq, Structural)]
pub struct Attach {
    pub child: u64,
    pub desktop: u64,
    /// The icons are in a layered window over the desktop window itself.
    pub raised: bool,
    pub layout: Layout,
    pub phase: Phase,
}

/// The desktop window draws the wallpaper itself, and the icons over it are known.
pub open spec fn is_raised(l: Layout) -> bool {
    (l.desktop_ex & WS_EX_NOREDIRECTIONBITMAP) != 0 && !l.classic && l.icons != 0
}

/// The window takes no focus and does not show up among the programs; on a raised desktop it is
/// layered, on another it lets clicks through.
pub open spec fn wall_ex(l: Layout, raised: bool) -> i64 {
    let ex = l.ex | (WS_EX_NOACTIVATE | WS_EX_TOOLWINDOW);
    if raised {
        ex | WS_EX_LAYERED
    } else {
        ex | WS_EX_TRANSPARENT
    }
}

pub open spec fn plain_style(l: Layout) -> i64 {
    l.style & !(WS_POPUP | WS_CAPTION)
}

/// No frame; on a raised desktop it is a child from the start.
pub open spec fn wall_style(l: Layout, raised: bool) -> i64 {
    if raised {
        plain_style(l) | WS_CHILD
    } else {
        plain_style(l)
    }
}

/// Without the style of a child again.
pub open spec fn unchilded(l: Layout) -> i64 {
    wall_style(l, true) & !WS_CHILD
}

pub open spec fn first_with_icons(tops: Seq<Top>) -> u64
    decreases tops.len(),
{
    if tops.len() == 0 {
        0
    } else if tops[0].has_icons {
        tops[0].window
    } else {
        first_with_icons(tops.skip(1))
    }
}

/// The first that belongs to the shell.
pub open spec fn first_of_shell(workers: Seq<Worker>, pid: u32) -> u64
    decreases workers.len(),
{
    if workers.len() == 0 {
        0
    } else if workers[0].pid == pid {
        workers[0].window
    } else {
        first_of_shell(workers.skip(1), pid)
    }
}

/// Only so many top-level windows are looked at.
pub const MOST_TOPS: u32 = 512;

pub open spec fn looked_at(tops: Seq<Top>) -> Seq<Top> {
    if tops.len() < MOST_TOPS {
        tops
    } else {
        tops.take(MOST_TOPS as int)
    }
}

impl Attach {
    pub open spec fn at(self, phase: Phase) -> Attach {
        Attach { phase, ..self }
    }

    pub open spec fn styling(self, parent: u64) -> (Attach, Ask) {
        (
            self.at(Phase::Styling { parent }),
            Ask::Restyle {
                ex: wall_ex(self.layout, self.raised),
                style: wall_style(self.layout, self.raised),
                layered: self.raised,
            },
        )
    }

    pub open spec fn finished(self, host: WallpaperHost) -> (Attach, Ask) {
        (self.at(Phase::Over), Ask::Finish { host })
    }

    /// Behind the window that holds the icons, or where there is none, on the desktop window.
    pub open spec fn choosing(self, container: u64) -> (Attach, Ask) {
        if container == 0 {
            self.styling(self.desktop)
        } else {
            (self.at(Phase::Choosing { container }), Ask::ListWorkers { behind: container })
        }
    }

    /// What comes after a reply. A reply that does not fit ends the attempt.
    pub open spec fn after(self, reply: Reply) -> (Attach, Ask) {
        match (self.phase, reply) {
            (Phase::Desktop, Reply::Window { window }) => if window == 0 {
                self.finished(WallpaperHost::none())
            } else {
                (
                    Attach { desktop: window, phase: Phase::Spawning, ..self },
                    Ask::Spawn { timeout_ms: 1000 },
                )
            },
            (Phase::Spawning, Reply::Done) => (self.at(Phase::Reading), Ask::ReadLayout),
            (Phase::Reading, Reply::Found { layout }) => {
                let known = Attach { layout, raised: is_raised(layout), ..self };
                if is_raised(layout) {
                    known.styling(self.desktop)
                } else if layout.icons != 0 {
                    known.choosing(self.desktop)
                } else {
                    (
                        known.at(Phase::Searching { again: false }),
                        Ask::ListTops { most: MOST_TOPS },
                    )
                }
            },
            (Phase::Searching { again }, Reply::Tops { on_desktop, tops }) => {
                let container = if on_desktop {
                    self.desktop
                } else {
                    first_with_icons(looked_at(tops@))
                };
                if container == 0 && !again {
                    (self.at(Phase::Respawning), Ask::Spawn { timeout_ms: 3000 })
                } else {
                    self.choosing(container)
                }
            },
            (Phase::Respawning, Reply::Done) => (
                self.at(Phase::Searching { again: true }),
                Ask::ListTops { most: MOST_TOPS },
            ),
            (Phase::Choosing { container }, Reply::Workers { workers }) => {
                let worker = first_of_shell(workers@, self.layout.shell_pid);
                self.styling(
                    if worker != 0 {
                        worker
                    } else {
                        container
                    },
                )
            },
            (Phase::Styling { parent }, Reply::Done) => (
                self.at(Phase::Parenting { parent }),
                Ask::Reparent { parent },
            ),
            (Phase::Parenting { parent }, Reply::Parented { ok }) => if ok {
                (self.at(Phase::Measuring { parent }), Ask::Measure { parent })
            } else if self.raised {
                (self.at(Phase::Undoing), Ask::SetStyle { style: unchilded(self.layout) })
            } else {
                self.finished(WallpaperHost::none())
            },
            (Phase::Measuring { parent }, Reply::Size { width, height }) => {
                let host = WallpaperHost::of(parent, self.child, width, height);
                if width > 0 && height > 0 {
                    (
                        self.at(Phase::Placing { host }),
                        Ask::Place {
                            depth: if self.raised {
                                Depth::Below { window: self.layout.icons }
                            } else {
                                Depth::Bottom
                            },
                            width,
                            height,
                        },
                    )
                } else {
                    self.finished(host)
                }
            },
            (Phase::Placing { host }, Reply::Done) => self.finished(host),
            _ => self.finished(WallpaperHost::none()),
        }
    }

    /// Begins; the desktop window is to be found first.
    pub fn new(child: u64) -> (r: Attach)
        ensures
            r.child == child,
            r.phase == Phase::Desktop,
            r.desktop == 0,
            !r.raised,
    {
        Attach {
            child,
            desktop: 0,
            raised: false,
            layout: Layout {
                desktop_ex: 0,
                icons: 0,
                shell_pid: 0,
                ex: 0,
                style: 0,
                classic: false,
            },
            phase: Phase::Desktop,
        }
    }

    fn style(&mut self, parent: u64) -> (r: Ask)
        ensures
            (*final(self), r) == old(self).styling(parent),
    {
        self.phase = Phase::Styling { parent };
        let base: i64 = self.layout.ex | (WS_EX_NOACTIVATE | WS_EX_TOOLWINDOW);
        let plain: i64 = self.layout.style & !(WS_POPUP | WS_CAPTION);
        if self.raised {
            Ask::Restyle { ex: base | WS_EX_LAYERED, style: plain | WS_CHILD, layered: true }
        } else {
            Ask::Restyle { ex: base | WS_EX_TRANSPARENT, style: plain, layered: false }
        }
    }

    fn finish(&mut self, host: WallpaperHost) -> (r: Ask)
        ensures
            (*final(self), r) == old(self).finished(host),
    {
        self.phase = Phase::Over;
        Ask::Finish { host }
    }

    fn look_behind(&mut self, container: u64) -> (r: Ask)
        ensures
            (*final(self), r) == old(self).choosing(container),
    {
        if container == 0 {
            self.style(self.desktop)
        } else {
            self.phase = Phase::Choosing { container };
            Ask::ListWorkers { behind: container }
        }
    }

    fn search(&mut self, again: bool, on_desktop: bool, tops: &Vec<Top>) -> (r: Ask)
        requires
            old(self).phase == (Phase::Searching { again }),
        ensures
            (*final(self), r) == old(self).after(Reply::Tops { on_desktop, tops: *tops }),
    {
        let container: u64 = if on_desktop {
            self.desktop
        } else {
            top_with_icons(tops)
        };
        if container == 0 && !again {
            self.phase = Phase::Respawning;
            Ask::Spawn { timeout_ms: 3000 }
        } else {
            self.look_behind(container)
        }
    }

    /// What has to be done after a reply.
    pub fn next(&mut self, reply: Reply) -> (r: Ask)
        ensures
            (*final(self), r) == old(self).after(reply),
    {
        match (self.phase, reply) {
            (Phase::Desktop, Reply::Window { window }) => {
                if window == 0 {
                    self.finish(WallpaperHost::invalid())
                } else {
                    self.desktop = window;
                    self.phase = Phase::Spawning;
                    Ask::Spawn { timeout_ms: 1000 }
                }
            },
            (Phase::Spawning, Reply::Done) => {
                self.phase = Phase::Reading;
                Ask::ReadLayout
            },
            (Phase::Reading, Reply::Found { layout }) => {
                let raised: bool = (layout.desktop_ex & WS_EX_NOREDIRECTIONBITMAP) != 0
                    && !layout.classic && layout.icons != 0;
                self.layout = layout;
                self.raised = raised;
                if raised {
                    self.style(self.desktop)
                } else if layout.icons != 0 {
                    self.look_behind(self.desktop)
                } else {
                    self.phase = Phase::Searching { again: false };
                    Ask::ListTops { most: MOST_TOPS }
                }
            },
            (Phase::Searching { again }, Reply::Tops { on_desktop, tops }) => self.search(
                again,
                on_desktop,
                &tops,
            ),
            (Phase::Respawning, Reply::Done) => {
                self.phase = Phase::Searching { again: true };
                Ask::ListTops { most: MOST_TOPS }
            },
            (Phase::Choosing { container }, Reply::Workers { workers }) => {
                let worker: u64 = worker_of_shell(&workers, self.layout.shell_pid);
                if worker != 0 {
                    self.style(worker)
                } else {
                    self.style(container)
                }
            },
            (Phase::Styling { parent }, Reply::Done) => {
                self.phase = Phase::Parenting { parent };
                Ask::Reparent { parent }
            },
            (Phase::Parenting { parent }, Reply::Parented { ok }) => {
                if ok {
                    self.phase = Phase::Measuring { parent };
                    Ask::Measure { parent }
                } else if self.raised {
                    self.phase = Phase::Undoing;
                    let plain: i64 = self.layout.style & !(WS_POPUP | WS_CAPTION);
                    Ask::SetStyle { style: (plain | WS_CHILD) & !WS_CHILD }
                } else {
                    self.finish(WallpaperHost::invalid())
                }
            },
            (Phase::Measuring { parent }, Reply::Size { width, height }) => {
                let host: WallpaperHost = WallpaperHost::sized(parent, self.child, width, height);
                if width > 0 && height > 0 {
                    self.phase = Phase::Placing { host };
                    let depth: Depth = if self.raised {
                        Depth::Below { window: self.layout.icons }
                    } else {
                        Depth::Bottom
                    };
                    Ask::Place { depth, width, height }
                } else {
                    self.finish(host)
                }
            },
            (Phase::Placing { host }, Reply::Done) => self.finish(host),
            _ => self.finish(WallpaperHost::invalid()),
        }
    }
}

fn top_with_icons(tops: &Vec<Top>) -> (r: u64)
    ensures
        r == first_with_icons(looked_at(tops@)),
{
    let n: usize = if tops.len() < MOST_TOPS as usize {
        tops.len()
    } else {
        MOST_TOPS as usize
    };
    let ghost seen = looked_at(tops@);
    let mut i: usize = 0;
    assert(seen =~= tops@.take(n as int));
    assert(seen.skip(0) =~= seen);
    while i < n
        invariant
            i <= n <= tops@.len(),
            seen == looked_at(tops@),
            seen == tops@.take(n as int),
            first_with_icons(seen) == first_with_icons(seen.skip(i as int)),
        decreases n - i,
    {
        if tops[i].has_icons {
            return tops[i].window;
        }
        assert(seen.skip(i as int).skip(1) =~= seen.skip(i + 1));
        i = i + 1;
    }
    0
}

fn worker_of_shell(workers: &Vec<Worker>, pid: u32) -> (r: u64)
    ensures
        r == first_of_shell(workers@, pid),
{
    let mut i: usize = 0;
    assert(workers@.skip(0) =~= workers@);
    while i < workers.len()
        invariant
            i <= workers@.len(),
            first_of_shell(workers@, pid) == first_of_shell(workers@.skip(i as int), pid),
        decreases workers.len() - i,
    {
        if workers[i].pid == pid {
            return workers[i].window;
        }
        assert(workers@.skip(i as int).skip(1) =~= workers@.skip(i + 1));
        i = i + 1;
    }
    0
}

/// The size to give a window that fills its parent, where that has one.
pub open spec fn filled(size: (u32, u32)) -> Option<(u32, u32)> {
    if size.0 > 0 && size.1 > 0 {
        Some(size)
    } else {
        None
    }
}

pub fn fill_parent(size: (u32, u32)) -> (r: Option<(u32, u32)>)
    ensures
        r == filled(size),
{
    if size.0 > 0 && size.1 > 0 {
        Some(size)
    } else {
        None
    }
}

/// The window is never put into a window of another process than the shell's: what carries it is
/// the desktop window, the window that holds the icons, or one of the shell.
pub proof fn law_only_the_shell_carries(a: Attach, reply: Reply, parent: u64)
    requires
        a.after(reply).0.phase == (Phase::Styling { parent }),
    ensures
        parent == a.desktop || a.phase == (Phase::Choosing { container: parent }) || (
        reply matches Reply::Workers { workers } && exists|i: int|
            0 <= i < workers@.len() && #[trigger] workers@[i].window == parent && workers@[i].pid
                == a.layout.shell_pid),
{
    if let (Phase::Choosing { container }, Reply::Workers { workers }) = (a.phase, reply) {
        lemma_shell_owns(workers@, a.layout.shell_pid);
    }
}

proof fn lemma_shell_owns(workers: Seq<Worker>, pid: u32)
    ensures
        first_of_shell(workers, pid) == 0 || exists|i: int|
            0 <= i < workers.len() && #[trigger] workers[i].window == first_of_shell(workers, pid)
                && workers[i].pid == pid,
    decreases workers.len(),
{
    if workers.len() > 0 && workers[0].pid != pid {
        lemma_shell_owns(workers.skip(1), pid);
        let rest = workers.skip(1);
        if first_of_shell(rest, pid) != 0 {
            let i = choose|i: int|
                0 <= i < rest.len() && #[trigger] rest[i].window == first_of_shell(rest, pid)
                    && rest[i].pid == pid;
            assert(workers[i + 1] == rest[i]);
        }
    }
}

/// The styles are set before the window gets its parent.
pub proof fn law_styled_before_parented(a: Attach, reply: Reply, parent: u64)
    requires
        a.after(reply).1 == (Ask::Reparent { parent }),
    ensures
        a.phase == (Phase::Styling { parent }),
{
}

/// A window that could not be put behind the icons is left without the style of a child.
pub proof fn law_no_half_child(a: Attach)
    ensures
        unchilded(a.layout) & WS_CHILD == 0,
        plain_style(a.layout) & (WS_POPUP | WS_CAPTION) == 0,
{
    let s: i64 = a.layout.style;
    assert(((s & !(0x8000_0000i64 | 0x00C0_0000i64)) | 0x4000_0000i64) & !0x4000_0000i64
        & 0x4000_0000i64 == 0) by (bit_vector);
    assert((s & !(0x8000_0000i64 | 0x00C0_0000i64)) & (0x8000_0000i64 | 0x00C0_0000i64) == 0)
        by (bit_vector);
}

/// How many replies are still to come at most.
pub open spec fn to_go(p: Phase) -> int {
    match p {
        Phase::Desktop => 11,
        Phase::Spawning => 10,
        Phase::Reading => 9,
        Phase::Searching { again } => if again {
            6
        } else {
            8
        },
        Phase::Respawning => 7,
        Phase::Choosing { container } => 5,
        Phase::Styling { parent } => 4,
        Phase::Parenting { parent } => 3,
        Phase::Measuring { parent } => 2,
        Phase::Undoing => 1,
        Phase::Placing { host } => 1,
        Phase::Over => 0,
    }
}

/// Every reply brings the end nearer: the shell is asked at most twice to make room.
pub proof fn law_attaching_ends(a: Attach, reply: Reply)
    requires
        a.phase != Phase::Over,
    ensures
        to_go(a.after(reply).0.phase) < to_go(a.phase),
        a.after(reply).0.phase == Phase::Over <==> a.after(reply).1 is Finish,
{
}

// ---------- what these say ----------

/// Four numbers with a width and a height above zero name a part of the desktop, and no others do.
pub proof fn law_bounds_are_four_numbers(x: i32, y: i32, w: i32, h: i32, v: Seq<i32>)
    ensures
        w > 0 && h > 0 ==> bounds_in(seq![x, y, w, h]) == Some(
            Bounds { x, y, width: w as u32, height: h as u32 },
        ),
        w <= 0 || h <= 0 ==> bounds_in(seq![x, y, w, h]) is None,
        v.len() != 4 ==> bounds_in(v) is None,
{
}

/// Where a part begins, counted from where its carrier does, is where it begins on the desktop.
pub proof fn law_place_is_counted_from_the_carrier(a: i32, origin: i32)
    ensures
        i32::MIN <= a - origin <= i32::MAX ==> origin + offset(a, origin) == a,
        i32::MIN <= offset(a, origin) <= i32::MAX,
        a - origin > i32::MAX ==> offset(a, origin) == 0x7FFF_FFFF,
        a - origin < i32::MIN ==> offset(a, origin) == -0x8000_0000,
{
}

/// From a place to one behind it is as far as they are apart; what ends before it begins has no
/// extent.
pub proof fn law_extent_is_the_distance(a: i32, b: i32)
    ensures
        a <= b ==> a + extent(a, b) == b,
        a > b ==> extent(a, b) == 0,
{
}

/// A screen is drawn as often as it tells, sixty times where it does not.
pub proof fn law_refresh_is_what_is_told(f: u32)
    ensures
        f > 0 ==> refresh_of(Some(f)) == f,
        refresh_of(Some(0)) == 1,
        refresh_of(None) == 60,
{
}

/// A window hides the desktop if it is another, is shown, lies neither in the bar nor aside, is no
/// part of the desktop itself and has bounds.
pub proof fn law_what_hides(w: Shown, except: u64)
    ensures
        hides(w, except) ==> w.window != except && w.visible && !w.iconic && !w.cloaked && w.bounds is Some,
        w.class@ == "Progman"@ || w.class@ == "WorkerW"@ || w.class@ == "SHELLDLL_DefView"@
            ==> !hides(w, except),
        w.window != except && w.visible && !w.iconic && !w.cloaked && w.bounds is Some && w.class@
            != "Progman"@ && w.class@ != "WorkerW"@ && w.class@ != "SHELLDLL_DefView"@ ==> hides(
            w,
            except,
        ),
{
}

/// What is held lies inside on all four sides: every point of it is a point of what holds it.
pub proof fn law_holding_is_on_every_side(outer: Rect, inner: Rect, x: int, y: int)
    requires
        inner.left < inner.right,
        inner.top < inner.bottom,
    ensures
        holds(outer, inner) && inner.left <= x < inner.right && inner.top <= y < inner.bottom
            ==> outer.left <= x < outer.right && outer.top <= y < outer.bottom,
        outer.left <= inner.left && outer.top <= inner.top && inner.right <= outer.right && inner.bottom
            <= outer.bottom ==> holds(outer, inner),
{
}

/// The desktop is covered if each screen is, each by a window that hides all of it; one more screen
/// counts by itself, and without a screen nothing is covered.
pub proof fn law_covered_screen_by_screen(
    areas: Seq<Rect>,
    area: Rect,
    windows: Seq<Shown>,
    except: u64,
    j: int,
)
    ensures
        !all_hidden(Seq::empty(), windows, except),
        areas.len() > 0 ==> (all_hidden(areas.push(area), windows, except) <==> all_hidden(
            areas,
            windows,
            except,
        ) && area_hidden(area, windows, except)),
        all_hidden(seq![area], windows, except) <==> area_hidden(area, windows, except),
        0 <= j < windows.len() && hides(windows[j], except) && holds(windows[j].bounds->0, area)
            ==> area_hidden(area, windows, except),
        windows.len() == 0 ==> !area_hidden(area, windows, except),
{
    if all_hidden(areas.push(area), windows, except) {
        assert forall|i: int| 0 <= i < areas.len() implies area_hidden(
            #[trigger] areas[i],
            windows,
            except,
        ) by {
            assert(areas.push(area)[i] == areas[i]);
        }
        assert(areas.push(area)[areas.len() as int] == area);
    }
    if all_hidden(seq![area], windows, except) {
        assert(seq![area][0] == area);
    }
}

/// The window gets the styles that keep it from taking the focus and from the list of programs, and
/// keeps those that it had. On a raised desktop it is layered, on another it lets clicks through.
pub proof fn law_window_styles(l: Layout)
    ensures
        wall_ex(l, true) == l.ex | 0x0808_0080,
        wall_ex(l, false) == l.ex | 0x0800_00A0,
        plain_style(l) == l.style & !0x80C0_0000i64,
        wall_style(l, false) == l.style & !0x80C0_0000i64,
        wall_style(l, true) == (l.style & !0x80C0_0000i64) | 0x4000_0000,
        unchilded(l) == l.style & !0xC0C0_0000i64,
{
    let e: i64 = l.ex;
    let s: i64 = l.style;
    assert((e | (0x0800_0000i64 | 0x80i64)) | 0x0008_0000i64 == e | 0x0808_0080i64) by (bit_vector);
    assert((e | (0x0800_0000i64 | 0x80i64)) | 0x20i64 == e | 0x0800_00A0i64) by (bit_vector);
    assert(0x8000_0000i64 | 0x00C0_0000i64 == 0x80C0_0000i64) by (bit_vector);
    assert(((s & !0x80C0_0000i64) | 0x4000_0000i64) & !0x4000_0000i64 == s & !0xC0C0_0000i64)
        by (bit_vector);
}

/// A desktop is raised if it has the style for it, is not to be taken for an older one, and its icons
/// are known.
pub proof fn law_raised_desktop(l: Layout)
    ensures
        is_raised(l) <==> l.desktop_ex & 0x0020_0000 != 0 && !l.classic && l.icons != 0,
{
}

/// The window with the icons is the first from the front that has them.
pub proof fn law_icons_are_in_the_first(tops: Seq<Top>, i: int)
    ensures
        0 <= i < tops.len() && tops[i].has_icons && (forall|j: int|
            0 <= j < i ==> !(#[trigger] tops[j]).has_icons) ==> first_with_icons(tops)
            == tops[i].window,
        (forall|j: int| 0 <= j < tops.len() ==> !(#[trigger] tops[j]).has_icons) ==> first_with_icons(
            tops,
        ) == 0,
    decreases tops.len(),
{
    if tops.len() > 0 && !tops[0].has_icons {
        let rest = tops.skip(1);
        law_icons_are_in_the_first(rest, i - 1);
        if forall|j: int| 0 <= j < i ==> !(#[trigger] tops[j]).has_icons {
            assert forall|j: int| 0 <= j < i - 1 && j < rest.len() implies !(#[trigger] rest[j]).has_icons by {
                assert(!tops[j + 1].has_icons);
            }
        }
        if forall|j: int| 0 <= j < tops.len() ==> !(#[trigger] tops[j]).has_icons {
            assert forall|j: int| 0 <= j < rest.len() implies !(#[trigger] rest[j]).has_icons by {
                assert(!tops[j + 1].has_icons);
            }
        }
    }
}

/// The window for the wallpaper is the first that is of the shell's process.
pub proof fn law_first_of_the_shell(workers: Seq<Worker>, pid: u32, i: int)
    ensures
        0 <= i < workers.len() && workers[i].pid == pid && (forall|j: int|
            0 <= j < i ==> (#[trigger] workers[j]).pid != pid) ==> first_of_shell(workers, pid)
            == workers[i].window,
        (forall|j: int| 0 <= j < workers.len() ==> (#[trigger] workers[j]).pid != pid)
            ==> first_of_shell(workers, pid) == 0,
    decreases workers.len(),
{
    if workers.len() > 0 && workers[0].pid != pid {
        let rest = workers.skip(1);
        law_first_of_the_shell(rest, pid, i - 1);
        if forall|j: int| 0 <= j < i ==> (#[trigger] workers[j]).pid != pid {
            assert forall|j: int| 0 <= j < i - 1 && j < rest.len() implies (#[trigger] rest[j]).pid != pid by {
                assert(workers[j + 1].pid != pid);
            }
        }
        if forall|j: int| 0 <= j < workers.len() ==> (#[trigger] workers[j]).pid != pid {
            assert forall|j: int| 0 <= j < rest.len() implies (#[trigger] rest[j]).pid != pid by {
                assert(workers[j + 1].pid != pid);
            }
        }
    }
}

/// The desktop is found, the shell makes room, and what is there is read. On a raised desktop the
/// window goes straight to it; where its icons are known it goes behind them; else they are looked
/// for. Without a desktop there is nothing to do.
pub proof fn law_attaching_begins(a: Attach, window: u64, layout: Layout)
    ensures
        a.phase == Phase::Desktop && window == 0 ==> a.after(Reply::Window { window }).1 == (
        Ask::Finish { host: WallpaperHost { parent: 0, child: 0, width: 0, height: 0 } }),
        a.phase == Phase::Desktop && window != 0 ==> a.after(Reply::Window { window }).0.desktop
            == window && a.after(Reply::Window { window }).1 == (Ask::Spawn { timeout_ms: 1000 }),
        a.phase == Phase::Spawning ==> a.after(Reply::Done).1 == Ask::ReadLayout,
        a.phase == Phase::Reading ==> {
            let (b, ask) = a.after(Reply::Found { layout });
            &&& b.layout == layout
            &&& b.child == a.child && b.desktop == a.desktop
            &&& is_raised(layout) ==> b.raised && b.phase == (Phase::Styling { parent: a.desktop })
            &&& !is_raised(layout) && layout.icons != 0 && a.desktop != 0 ==> !b.raised && ask == (
            Ask::ListWorkers { behind: a.desktop })
            &&& layout.icons == 0 ==> !b.raised && ask == (Ask::ListTops { most: 512 })
        },
{
}

/// The window with the icons is looked for twice: where it is not found at first, the shell is asked
/// again and given three seconds. Then the wallpaper goes behind it, into the window of the shell
/// where there is one, else into that window itself, and onto the desktop where there is none.
pub proof fn law_icons_are_looked_for(
    a: Attach,
    again: bool,
    on_desktop: bool,
    tops: Vec<Top>,
    workers: Vec<Worker>,
)
    ensures
        a.phase == (Phase::Searching { again }) ==> {
            let (b, ask) = a.after(Reply::Tops { on_desktop, tops });
            let found = first_with_icons(looked_at(tops@));
            &&& on_desktop && a.desktop != 0 ==> ask == (Ask::ListWorkers { behind: a.desktop })
            &&& !on_desktop && found != 0 ==> ask == (Ask::ListWorkers { behind: found })
            &&& !on_desktop && found == 0 && !again ==> ask == (Ask::Spawn { timeout_ms: 3000 })
            &&& !on_desktop && found == 0 && again ==> b.phase == (Phase::Styling {
                parent: a.desktop,
            })
        },
        a.phase == Phase::Respawning ==> a.after(Reply::Done).0.phase == (Phase::Searching {
            again: true,
        }),
        a.phase matches Phase::Choosing { container } ==> {
            let b = a.after(Reply::Workers { workers }).0;
            let worker = first_of_shell(workers@, a.layout.shell_pid);
            &&& worker != 0 ==> b.phase == (Phase::Styling { parent: worker })
            &&& worker == 0 ==> b.phase == (Phase::Styling { parent: container })
        },
        tops@.len() <= 512 ==> looked_at(tops@) == tops@,
        tops@.len() > 512 ==> looked_at(tops@) == tops@.subrange(0, 512),
{
    assert(tops@.len() == 512 ==> tops@.take(512) =~= tops@);
    assert(tops@.len() > 512 ==> tops@.take(512) =~= tops@.subrange(0, 512));
}

/// A window that is styled is given its parent, measured and placed: below the icons on a raised
/// desktop, else at the bottom, with the size of the parent. What comes out is that window in that
/// parent.
pub proof fn law_attaching_ends_in_place(a: Attach, parent: u64, width: u32, height: u32)
    ensures
        a.phase == (Phase::Styling { parent }) ==> a.after(Reply::Done).1 == (Ask::Reparent {
            parent,
        }),
        a.phase == (Phase::Parenting { parent }) ==> a.after(Reply::Parented { ok: true }).1 == (
        Ask::Measure { parent }),
        a.phase == (Phase::Parenting { parent }) && a.raised ==> a.after(
            Reply::Parented { ok: false },
        ).1 == (Ask::SetStyle { style: a.layout.style & !0xC0C0_0000i64 }),
        a.phase == (Phase::Parenting { parent }) && !a.raised ==> a.after(
            Reply::Parented { ok: false },
        ).1 == (Ask::Finish { host: WallpaperHost { parent: 0, child: 0, width: 0, height: 0 } }),
        a.phase == (Phase::Measuring { parent }) && width > 0 && height > 0 ==> {
            let (b, ask) = a.after(Reply::Size { width, height });
            &&& a.raised ==> ask == (Ask::Place {
                depth: Depth::Below { window: a.layout.icons },
                width,
                height,
            })
            &&& !a.raised ==> ask == (Ask::Place { depth: Depth::Bottom, width, height })
            &&& b.after(Reply::Done).1 == (Ask::Finish {
                host: WallpaperHost { parent, child: a.child, width, height },
            })
        },
        a.phase == (Phase::Measuring { parent }) && width == 0 && height == 0 ==> a.after(
            Reply::Size { width, height },
        ).1 == (Ask::Finish {
            host: WallpaperHost { parent, child: a.child, width: 1, height: 1 },
        }),
{
    law_window_styles(a.layout);
}

/// Once the parent is known the styles are asked for that belong to the desktop.
pub proof fn law_styles_are_asked_for(a: Attach, parent: u64)
    ensures
        a.raised ==> a.styling(parent).1 == (Ask::Restyle {
            ex: a.layout.ex | 0x0808_0080,
            style: (a.layout.style & !0x80C0_0000i64) | 0x4000_0000,
            layered: true,
        }),
        !a.raised ==> a.styling(parent).1 == (Ask::Restyle {
            ex: a.layout.ex | 0x0800_00A0,
            style: a.layout.style & !0x80C0_0000i64,
            layered: false,
        }),
        a.styling(parent).0.phase == (Phase::Styling { parent }),
{
    law_window_styles(a.layout);
}

/// A parent with a size is filled, and one without is left alone.
pub proof fn law_parent_is_filled(w: u32, h: u32)
    ensures
        w > 0 && h > 0 ==> filled((w, h)) == Some((w, h)),
        filled((0, h)) is None && filled((w, 0)) is None,
{
}

} // verus!
