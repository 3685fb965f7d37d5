//! What is logged, under which time, and to which file.
use vstd::prelude::*;

use crate::paths;
use crate::text;

verus! {

/// How much is logged, or how grave a message is.
#[derive(Debug, Clone, Copy, PartialEq, Eq, Structural)]
pub enum Level {
    Off,
    Error,
    Warn,
    Info,
    Debug,
    Trace,
}

impl Level {
    /// The more is logged, the higher.
    pub open spec fn rank(self) -> int {
        match self {
            Level::Off => 0,
            Level::Error => 1,
            Level::Warn => 2,
            Level::Info => 3,
            Level::Debug => 4,
            Level::Trace => 5,
        }
    }

    pub open spec fn name(self) -> Seq<char> {
        match self {
            Level::Off => "OFF"@,
            Level::Error => "ERROR"@,
            Level::Warn => "WARN"@,
            Level::Info => "INFO"@,
            Level::Debug => "DEBUG"@,
            Level::Trace => "TRACE"@,
        }
    }

    fn number(self) -> (r: u8)
        ensures
            r == self.rank(),
    {
        match self {
            Level::Off => 0,
            Level::Error => 1,
            Level::Warn => 2,
            Level::Info => 3,
            Level::Debug => 4,
            Level::Trace => 5,
        }
    }

    /// The name with spaces behind it, five characters wide.
    pub open spec fn column(self) -> Seq<char> {
        match self {
            Level::Off => "OFF  "@,
            Level::Error => "ERROR"@,
            Level::Warn => "WARN "@,
            Level::Info => "INFO "@,
            Level::Debug => "DEBUG"@,
            Level::Trace => "TRACE"@,
        }
    }

    fn column_str(self) -> (r: &'static str)
        ensures
            r@ == self.column(),
    {
        match self {
            Level::Off => "OFF  ",
            Level::Error => "ERROR",
            Level::Warn => "WARN ",
            Level::Info => "INFO ",
            Level::Debug => "DEBUG",
            Level::Trace => "TRACE",
        }
    }
}

/// `log::LevelFilter`'s `FromStr`: a name of a level, in capitals or not, gives that level, and
/// nothing else gives one.
#[verifier::external_body]
fn parse_level(s: &str) -> (r: Option<Level>)
    ensures
        match r {
            Some(l) => text::lowered(s@) == text::lowered(l.name()),
            None => forall|l: Level| text::lowered(s@) != text::lowered(#[trigger] l.name()),
        },
{
    match s.parse::<log::LevelFilter>() {
        Ok(log::LevelFilter::Off) => Some(Level::Off),
        Ok(log::LevelFilter::Error) => Some(Level::Error),
        Ok(log::LevelFilter::Warn) => Some(Level::Warn),
        Ok(log::LevelFilter::Info) => Some(Level::Info),
        Ok(log::LevelFilter::Debug) => Some(Level::Debug),
        Ok(log::LevelFilter::Trace) => Some(Level::Trace),
        Err(_) => None,
    }
}

/// The level that the environment names, where it names a bare level.
pub fn explicit_level(var: Option<&str>) -> (r: Option<Level>)
    ensures
        match r {
            Some(l) => var is Some && text::lowered(var->0@) == text::lowered(l.name()),
            None => var is Some ==> forall|l: Level|
                text::lowered(var->0@) != text::lowered(#[trigger] l.name()),
        },
{
    match var {
        Some(s) => parse_level(s),
        None => None,
    }
}

/// A target is of a crate when it is its name or begins with it and a colon.
pub open spec fn of_crate(target: Seq<char>, name: Seq<char>) -> bool {
    text::starts(target, name) && (target.len() == name.len() || target[name.len() as int] == ':')
}

/// The graphics stack pours its capabilities and shaders into the log.
pub open spec fn noisy(target: Seq<char>) -> bool {
    of_crate(target, "wgpu"@) || of_crate(target, "wgpu_core"@) || of_crate(target, "wgpu_hal"@)
        || of_crate(target, "naga"@)
}

/// The crates of this program.
pub open spec fn owned(target: Seq<char>) -> bool {
    of_crate(target, "aria"@) || of_crate(target, "osu_replay_render"@) || of_crate(
        target,
        "osu_storyboard_render"@,
    ) || of_crate(target, "osu_parse"@) || of_crate(target, "realm_db_reader"@) || of_crate(
        target,
        "osu_db"@,
    )
}

fn is_of_crate(target: &str, name: &str) -> (r: bool)
    ensures
        r == of_crate(target@, name@),
{
    if !text::starts_with(target, name) {
        return false;
    }
    let t: Vec<char> = text::chars_of(target);
    let n: Vec<char> = text::chars_of(name);
    t.len() == n.len() || t[n.len()] == ':'
}

/// How much is logged of a target: what the environment says, else by whose it is.
pub open spec fn level_of(explicit: Option<Level>, target: Seq<char>) -> Level {
    match explicit {
        Some(l) => l,
        None => if noisy(target) {
            Level::Error
        } else if owned(target) {
            Level::Info
        } else {
            Level::Warn
        },
    }
}

pub fn level_for(explicit: Option<Level>, target: &str) -> (r: Level)
    ensures
        r == level_of(explicit, target@),
{
    match explicit {
        Some(l) => l,
        None => if is_of_crate(target, "wgpu") || is_of_crate(target, "wgpu_core") || is_of_crate(
            target,
            "wgpu_hal",
        ) || is_of_crate(target, "naga") {
            Level::Error
        } else if is_of_crate(target, "aria") || is_of_crate(target, "osu_replay_render")
            || is_of_crate(target, "osu_storyboard_render") || is_of_crate(target, "osu_parse")
            || is_of_crate(target, "realm_db_reader") || is_of_crate(target, "osu_db") {
            Level::Info
        } else {
            Level::Warn
        },
    }
}

/// A message is logged when it is as grave as its target asks for.
pub fn enabled(explicit: Option<Level>, level: Level, target: &str) -> (r: bool)
    ensures
        r == (level.rank() <= level_of(explicit, target@).rank()),
{
    level.number() <= level_for(explicit, target).number()
}

/// A line of the log.
pub open spec fn line_of(
    time: Seq<char>,
    level: Level,
    target: Seq<char>,
    message: Seq<char>,
) -> Seq<char> {
    seq!['['] + time + seq![' '] + level.column() + seq![' '] + target + "] "@ + message
}

pub fn log_line(time: &str, level: Level, target: &str, message: &str) -> (r: String)
    ensures
        r@ == line_of(time@, level, target@, message@),
{
    let mut r: String = String::new();
    r.push('[');
    r.append(time);
    r.push(' ');
    r.append(level.column_str());
    r.push(' ');
    r.append(target);
    r.append("] ");
    r.append(message);
    assert(r@ =~= line_of(time@, level, target@, message@));
    r
}

/// `path` is the log file below the directory of application data.
pub open spec fn is_log_file(base: Seq<char>, path: Seq<char>) -> bool {
    exists|dir: Seq<char>| #[trigger]
        paths::joined(base, "com.ohdmire.aria"@, dir) && paths::joined_twice(
            dir,
            "log"@,
            "aria.log"@,
            path,
        )
}

pub fn default_path(base: Option<&str>) -> (r: Option<String>)
    ensures
        match r {
            Some(p) => base is Some && is_log_file(base->0@, p@),
            None => base is None,
        },
{
    match base {
        Some(b) => {
            let dir: String = paths::join(b, "com.ohdmire.aria");
            let path: String = paths::join_twice(dir.as_str(), "log", "aria.log");
            assert(paths::joined(b@, "com.ohdmire.aria"@, dir@));
            Some(path)
        },
        None => None,
    }
}

/// What switching the log asks for: the file to append to, none closes it, and what is then
/// logged.
#[derive(Debug)]
pub struct Switch {
    pub file: Option<String>,
    pub message: String,
}

/// Switches the log on or off.
pub fn set_enabled(on: bool, base: Option<&str>) -> (r: Switch)
    ensures
        match r.file {
            Some(p) => on && base is Some && is_log_file(base->0@, p@),
            None => !on || base is None,
        },
        r.message@ == if on {
            "日志记录已开启"@
        } else {
            "日志记录已关闭"@
        },
{
    Switch {
        file: if on {
            default_path(base)
        } else {
            None
        },
        message: if on {
            text::owned("日志记录已开启")
        } else {
            text::owned("日志记录已关闭")
        },
    }
}

pub open spec fn leap(y: int) -> bool {
    y % 4 == 0 && (y % 100 != 0 || y % 400 == 0)
}

/// The days of a year before a month.
pub open spec fn before_month(y: int, m: int) -> int {
    let feb: int = if leap(y) {
        29
    } else {
        28
    };
    if m == 1 {
        0
    } else if m == 2 {
        31
    } else if m == 3 {
        31 + feb
    } else if m == 4 {
        62 + feb
    } else if m == 5 {
        92 + feb
    } else if m == 6 {
        123 + feb
    } else if m == 7 {
        153 + feb
    } else if m == 8 {
        184 + feb
    } else if m == 9 {
        215 + feb
    } else if m == 10 {
        245 + feb
    } else if m == 11 {
        276 + feb
    } else if m == 12 {
        306 + feb
    } else {
        337 + feb
    }
}

/// The leap years from the first one up to, not including, `y`.
pub open spec fn leaps_before(y: int) -> int {
    (y - 1) / 4 - (y - 1) / 100 + (y - 1) / 400
}

/// The days from the first of January 1970 to a date of the Gregorian calendar.
pub open spec fn day_number(y: int, m: int, d: int) -> int {
    365 * (y - 1970) + (leaps_before(y) - leaps_before(1970)) + before_month(y, m) + d - 1
}

/// There is such a date.
pub open spec fn is_date(y: int, m: int, d: int) -> bool {
    1 <= m <= 12 && 1 <= d <= before_month(y, m + 1) - before_month(y, m)
}

/// A day of an era of four hundred years lies in the year that the estimate gives. Years begin
/// in March here, so that the leap day is their last.
proof fn lemma_year_of_era(doe: int, yoe: int)
    requires
        0 <= doe < 146097,
        yoe == (doe - doe / 1460 + doe / 36524 - doe / 146096) / 365,
    ensures
        0 <= yoe < 400,
        365 * yoe + yoe / 4 - yoe / 100 <= doe,
        doe < 365 * (yoe + 1) + (yoe + 1) / 4 - (yoe + 1) / 100 + (yoe + 1) / 400,
{
}

/// The month of a day of such a year, and the day in it.
proof fn lemma_month(y: int, doy: int, mp: int, day: int)
    requires
        0 <= doy <= 365,
        doy == 365 ==> leap(y + 1),
        mp == (5 * doy + 2) / 153,
        day == doy - (153 * mp + 2) / 5 + 1,
    ensures
        0 <= mp <= 11,
        mp < 10 ==> is_date(y, mp + 3, day) && before_month(y, mp + 3) + day - 1 == doy + 59 + (
        if leap(y) {
            1int
        } else {
            0
        }),
        mp >= 10 ==> is_date(y + 1, mp - 9, day) && before_month(y + 1, mp - 9) + day - 1 == doy
            - 306,
{
    assert(0 <= mp <= 11);
    if mp == 0 {
    } else if mp == 1 {
    } else if mp == 2 {
    } else if mp == 3 {
    } else if mp == 4 {
    } else if mp == 5 {
    } else if mp == 6 {
    } else if mp == 7 {
    } else if mp == 8 {
    } else if mp == 9 {
    } else if mp == 10 {
    } else {
        assert(mp == 11);
    }
}

/// The leap years up to and including a year.
proof fn lemma_leaps(y: int)
    ensures
        leaps_before(y) + (if leap(y) {
            1int
        } else {
            0
        }) == y / 4 - y / 100 + y / 400,
        leaps_before(y + 1) == y / 4 - y / 100 + y / 400,
{
    let q = y / 400;
    let r = y % 400;
    assert(y == 400 * q + r);
    assert(y / 4 == 100 * q + r / 4);
    assert(y / 100 == 4 * q + r / 100);
    assert((y - 1) / 4 == 100 * q + (r - 1) / 4);
    assert((y - 1) / 100 == 4 * q + (r - 1) / 100);
    assert((y - 1) / 400 == q + (r - 1) / 400);
    assert(y % 4 == r % 4);
    assert(y % 100 == r % 100);
}

proof fn lemma_date(era: int, yoe: int, doy: int, mp: int, day: int, year: int, m: int)
    requires
        0 <= yoe < 400,
        0 <= doy,
        doy < 365 + (yoe + 1) / 4 - yoe / 4 - ((yoe + 1) / 100 - yoe / 100) + (yoe + 1) / 400,
        mp == (5 * doy + 2) / 153,
        day == doy - (153 * mp + 2) / 5 + 1,
        m == if mp < 10 {
            mp + 3
        } else {
            mp - 9
        },
        year == yoe + era * 400 + if mp < 10 {
            0int
        } else {
            1
        },
    ensures
        is_date(year, m, day),
        day_number(year, m, day) == 146097 * era + 365 * yoe + yoe / 4 - yoe / 100 + doy - 719468,
{
    let y = yoe + era * 400;
    assert((y + 1) % 4 == (yoe + 1) % 4);
    assert((y + 1) % 100 == (yoe + 1) % 100);
    assert((y + 1) % 400 == (yoe + 1) % 400);
    lemma_month(y, doy, mp, day);
    lemma_leaps(y);
    assert(y / 4 == yoe / 4 + 100 * era);
    assert(y / 100 == yoe / 100 + 4 * era);
    assert(y / 400 == era);
    assert(leaps_before(1970) == 477);
}

/// The date of a day, counted from the first of January 1970.
pub fn civil_from_days(z: i64) -> (r: (i64, u32, u32))
    requires
        z <= i64::MAX - 719468,
    ensures
        is_date(r.0 as int, r.1 as int, r.2 as int),
        day_number(r.0 as int, r.1 as int, r.2 as int) == z,
{
    let s: i64 = z + 719_468;
    let era: i64 = if s >= 0 {
        s / 146_097
    } else {
        -((146_096 - s) / 146_097)
    };
    let doe: i64 = s - era * 146_097;
    assert(0 <= doe < 146097);
    let yoe: i64 = (doe - doe / 1460 + doe / 36_524 - doe / 146_096) / 365;
    proof {
        lemma_year_of_era(doe as int, yoe as int);
    }
    let doy: i64 = doe - (365 * yoe + yoe / 4 - yoe / 100);
    assert(0 <= doy <= 365);
    let mp: i64 = (5 * doy + 2) / 153;
    let day: i64 = doy - (153 * mp + 2) / 5 + 1;
    let m: i64 = if mp < 10 {
        mp + 3
    } else {
        mp - 9
    };
    let y: i64 = yoe + era * 400;
    let year: i64 = if m <= 2 {
        y + 1
    } else {
        y
    };
    proof {
        lemma_date(
            era as int,
            yoe as int,
            doy as int,
            mp as int,
            day as int,
            year as int,
            m as int,
        );
    }
    (year, m as u32, day as u32)
}

/// A time of day as it is logged, in UTC.
pub open spec fn stamp(y: nat, m: nat, d: nat, rem: nat, millis: nat) -> Seq<char> {
    text::zero_padded(y, 4) + "-"@ + text::zero_padded(m, 2) + "-"@ + text::zero_padded(d, 2) + "T"@
        + text::zero_padded(rem / 3600, 2) + ":"@ + text::zero_padded(rem / 60 % 60, 2) + ":"@
        + text::zero_padded(rem % 60, 2) + "."@ + text::zero_padded(millis, 3) + "Z"@
}

/// The time so many seconds and milliseconds after the beginning of 1970.
pub fn timestamp(secs: u64, millis: u32) -> (r: String)
    ensures
        exists|y: nat, m: nat, d: nat|
            is_date(y as int, m as int, d as int) && day_number(y as int, m as int, d as int)
                == secs / 86400 && r@ == #[trigger] stamp(
                y,
                m,
                d,
                (secs % 86400) as nat,
                millis as nat,
            ),
{
    let days: i64 = (secs / 86_400) as i64;
    let rem: u64 = secs % 86_400;
    let (y, m, day): (i64, u32, u32) = civil_from_days(days);
    proof {
        lemma_from_1970(y as int, m as int, day as int);
    }
    let mut r: String = text::zero_padded_of(y as u64, 4);
    r.append("-");
    r.append(text::zero_padded_of(m as u64, 2).as_str());
    r.append("-");
    r.append(text::zero_padded_of(day as u64, 2).as_str());
    r.append("T");
    r.append(text::zero_padded_of(rem / 3600, 2).as_str());
    r.append(":");
    r.append(text::zero_padded_of(rem / 60 % 60, 2).as_str());
    r.append(":");
    r.append(text::zero_padded_of(rem % 60, 2).as_str());
    r.append(".");
    r.append(text::zero_padded_of(millis as u64, 3).as_str());
    r.append("Z");
    assert(r@ =~= stamp(y as nat, m as nat, day as nat, rem as nat, millis as nat));
    r
}

proof fn lemma_from_1970(y: int, m: int, d: int)
    requires
        is_date(y, m, d),
        day_number(y, m, d) >= 0,
    ensures
        y >= 1970,
{
    assert(leaps_before(1970) == 477);
    assert(before_month(y, m) + d <= 366);
    if y < 1970 {
        assert(leaps_before(y) <= 477);
        if y == 1969 {
            assert(!leap(y));
            assert(before_month(y, m) + d <= 365);
        }
    }
}

/// Each day has one date only.
pub proof fn law_dates_are_unique(y: int, m: int, d: int, y2: int, m2: int, d2: int)
    requires
        is_date(y, m, d),
        is_date(y2, m2, d2),
        day_number(y, m, d) == day_number(y2, m2, d2),
    ensures
        y == y2 && m == m2 && d == d2,
{
    lemma_leaps(y);
    lemma_leaps(y2);
    if y < y2 {
        lemma_years_pass(y, y2, m, d, m2, d2);
    } else if y2 < y {
        lemma_years_pass(y2, y, m2, d2, m, d);
    }
    if m < m2 {
        lemma_months_pass(y, m, m2);
    } else if m2 < m {
        lemma_months_pass(y, m2, m);
    }
}

proof fn lemma_months_pass(y: int, m: int, n: int)
    requires
        1 <= m < n <= 12,
    ensures
        before_month(y, m + 1) <= before_month(y, n),
{
}

proof fn lemma_years_pass(y: int, z: int, m: int, d: int, m2: int, d2: int)
    requires
        y < z,
        is_date(y, m, d),
        is_date(z, m2, d2),
    ensures
        day_number(y, m, d) < day_number(z, m2, d2),
{
    lemma_leaps(y);
    assert(y / 4 - y / 100 + y / 400 <= (z - 1) / 4 - (z - 1) / 100 + (z - 1) / 400) by {
        lemma_leaps_grow(y, z - 1);
    }
    assert(before_month(y, m) + d <= 365 + (if leap(y) {
        1int
    } else {
        0
    }));
    assert(before_month(z, m2) + d2 >= 1);
}

proof fn lemma_leaps_grow(a: int, b: int)
    requires
        a <= b,
    ensures
        a / 4 - a / 100 + a / 400 <= b / 4 - b / 100 + b / 400,
    decreases b - a,
{
    if a < b {
        lemma_leaps_grow(a, b - 1);
        lemma_leaps(b);
    }
}

// ---------- what these say ----------

/// The levels go from nothing to everything, under their names, and each fills five characters of a
/// line.
pub proof fn law_levels(l: Level)
    ensures
        Level::Off.rank() < Level::Error.rank() < Level::Warn.rank() < Level::Info.rank(),
        Level::Info.rank() < Level::Debug.rank() < Level::Trace.rank(),
        Level::Off.name() == "OFF"@ && Level::Error.name() == "ERROR"@ && Level::Warn.name() == "WARN"@,
        Level::Info.name() == "INFO"@ && Level::Debug.name() == "DEBUG"@ && Level::Trace.name()
            == "TRACE"@,
        l.column().len() == 5,
        text::starts(l.column(), l.name()),
        forall|i: int| l.name().len() <= i < 5 ==> #[trigger] l.column()[i] == ' ',
{
    reveal_strlit("OFF");
    reveal_strlit("OFF  ");
    reveal_strlit("ERROR");
    reveal_strlit("WARN");
    reveal_strlit("WARN ");
    reveal_strlit("INFO");
    reveal_strlit("INFO ");
    reveal_strlit("DEBUG");
    reveal_strlit("TRACE");
    assert(l.column().take(l.name().len() as int) =~= l.name());
}

/// A target is of a crate if it is its name or a path in it, and not if the name only goes on.
pub proof fn law_target_of_a_crate(name: Seq<char>, rest: Seq<char>, c: char)
    ensures
        of_crate(name, name),
        of_crate(name + seq![':'] + rest, name),
        c != ':' ==> !of_crate(name + seq![c] + rest, name),
{
    assert(name.take(name.len() as int) =~= name);
    assert((name + seq![':'] + rest).take(name.len() as int) =~= name);
    assert((name + seq![c] + rest)[name.len() as int] == c);
}

/// What the environment says counts. Else the graphics stack is heard of errors only, the crates of
/// this program tell what they do, and all others warn.
pub proof fn law_how_much_is_logged(l: Level, target: Seq<char>)
    ensures
        level_of(Some(l), target) == l,
        of_crate(target, "wgpu"@) || of_crate(target, "wgpu_core"@) || of_crate(target, "wgpu_hal"@)
            || of_crate(target, "naga"@) ==> level_of(None, target) == Level::Error,
        !noisy(target) && (of_crate(target, "aria"@) || of_crate(target, "osu_replay_render"@)
            || of_crate(target, "osu_storyboard_render"@) || of_crate(target, "osu_parse"@) || of_crate(
            target,
            "realm_db_reader"@,
        ) || of_crate(target, "osu_db"@)) ==> level_of(None, target) == Level::Info,
        !noisy(target) && !owned(target) ==> level_of(None, target) == Level::Warn,
        owned(target) <==> of_crate(target, "aria"@) || of_crate(target, "osu_replay_render"@)
            || of_crate(target, "osu_storyboard_render"@) || of_crate(target, "osu_parse"@) || of_crate(
            target,
            "realm_db_reader"@,
        ) || of_crate(target, "osu_db"@),
{
}

/// A line begins with its time in brackets, with the level and the target, and ends with its message.
pub proof fn law_line_holds_everything(
    time: Seq<char>,
    level: Level,
    target: Seq<char>,
    message: Seq<char>,
)
    ensures
        ({
            let l = line_of(time, level, target, message);
            &&& l[0] == '['
            &&& l.subrange(1, 1 + time.len() as int) == time
            &&& l.subrange(2 + time.len() as int, 7 + time.len() as int) == level.column()
            &&& l.subrange(8 + time.len() as int, 8 + time.len() as int + target.len() as int) == target
            &&& text::ends(l, "] "@ + message)
            &&& l.len() == 10 + time.len() + target.len() + message.len()
        }),
{
    reveal_strlit("] ");
    law_levels(level);
    let l = line_of(time, level, target, message);
    let t = time.len() as int;
    assert(l.subrange(1, 1 + t) =~= time);
    assert(l.subrange(2 + t, 7 + t) =~= level.column());
    assert(l.subrange(8 + t, 8 + t + target.len() as int) =~= target);
    assert(l.skip(l.len() - ("] "@ + message).len()) =~= "] "@ + message);
}

/// A path of three parts below another, with a separator before each.
pub open spec fn three_below(
    base: Seq<char>,
    s: (char, char, char),
    a: Seq<char>,
    b: Seq<char>,
    c: Seq<char>,
) -> Seq<char> {
    base.push(s.0) + a.push(s.1) + b.push(s.2) + c
}

/// The log lies in its own directory in that of the program, below the directory of application
/// data.
pub proof fn law_log_lies_in_its_directory(base: Seq<char>, path: Seq<char>)
    requires
        paths::plain_base(base),
        base.last() != '/',
        base.last() != '\\',
        is_log_file(base, path),
    ensures
        exists|s: (char, char, char)|
            (s.0 == '/' || s.0 == '\\') && (s.1 == '/' || s.1 == '\\') && (s.2 == '/' || s.2 == '\\')
                && path == #[trigger] three_below(
                base,
                s,
                "com.ohdmire.aria"@,
                "log"@,
                "aria.log"@,
            ),
{
    reveal_strlit("com.ohdmire.aria");
    reveal_strlit("log");
    reveal_strlit("aria.log");
    let (a, b, c) = ("com.ohdmire.aria"@, "log"@, "aria.log"@);
    let dir = choose|dir: Seq<char>| #[trigger]
        paths::joined(base, a, dir) && paths::joined_twice(dir, b, c, path);
    assert(a[0] == 'c' && b[0] == 'l' && c[0] == 'a' && a[1] == 'o' && b[1] == 'o' && c[1] == 'r');
    assert(paths::plain_rel(a) && paths::plain_rel(b) && paths::plain_rel(c));
    let s0: char = if dir == base.push('/') + a {
        '/'
    } else {
        '\\'
    };
    assert(dir == base.push(s0) + a);
    assert(dir.last() == a.last() && a.last() == 'a');
    let n = base.len() as int;
    assert(forall|i: int| 0 <= i < n ==> dir[i] == base[i]);
    assert(!paths::verbatim(dir)) by {
        if n == 1 {
            assert(dir[0] == base.last());
        } else if n == 2 {
            assert(dir[1] == base.last());
        }
    }
    let mid = choose|mid: Seq<char>| #[trigger]
        paths::joined(dir, b, mid) && paths::joined(mid, c, path);
    let s1: char = if mid == dir.push('/') + b {
        '/'
    } else {
        '\\'
    };
    assert(mid == dir.push(s1) + b);
    assert(mid.last() == b.last() && b.last() == 'g');
    assert(forall|i: int| 0 <= i < dir.len() ==> mid[i] == dir[i]);
    assert(!paths::verbatim(mid));
    let s2: char = if path == mid.push('/') + c {
        '/'
    } else {
        '\\'
    };
    assert(path == mid.push(s2) + c);
    assert(path =~= three_below(base, (s0, s1, s2), a, b, c));
}

/// Every fourth year is a leap year, but of the hundreds only every fourth; the months have the days
/// that they have, and no date lies outside of them.
pub proof fn law_months_have_their_days(y: int, m: int, d: int)
    ensures
        leap(y) <==> (y % 400 == 0 || (y % 4 == 0 && y % 100 != 0)),
        is_date(y, m, d) ==> 1 <= m <= 12 && d >= 1,
        m == 1 || m == 3 || m == 5 || m == 7 || m == 8 || m == 10 || m == 12 ==> (is_date(y, m, d)
            <==> 1 <= d <= 31),
        m == 4 || m == 6 || m == 9 || m == 11 ==> (is_date(y, m, d) <==> 1 <= d <= 30),
        m == 2 && leap(y) ==> (is_date(y, m, d) <==> 1 <= d <= 29),
        m == 2 && !leap(y) ==> (is_date(y, m, d) <==> 1 <= d <= 28),
{
    if y % 400 == 0 {
        assert(y % 4 == 0);
    }
}

/// The days are counted from the first of January 1970, and each day is one more than the one
/// before: in a month, from a month to the next, and from a year to the next.
pub proof fn law_days_are_counted_one_by_one(y: int, m: int, d: int)
    ensures
        day_number(1970, 1, 1) == 0,
        is_date(y, m, d) && is_date(y, m, d + 1) ==> day_number(y, m, d + 1) == day_number(y, m, d) + 1,
        is_date(y, m, d) && !is_date(y, m, d + 1) && m < 12 ==> day_number(y, m + 1, 1) == day_number(
            y,
            m,
            d,
        ) + 1,
        is_date(y, m, d) && !is_date(y, m, d + 1) && m == 12 ==> day_number(y + 1, 1, 1) == day_number(
            y,
            m,
            d,
        ) + 1,
{
    lemma_leaps(y);
}

/// A time is written with the year, the month and the day, and the hours, minutes, seconds and
/// milliseconds, each in its place.
pub proof fn law_stamp_reads_back(y: nat, m: nat, d: nat, rem: nat, millis: nat)
    requires
        y < 10000,
        m < 100,
        d < 100,
        rem < 86400,
        millis < 1000,
    ensures
        ({
            let s = stamp(y, m, d, rem, millis);
            &&& s.len() == 24
            &&& text::number(s.subrange(0, 4), 10) == y
            &&& text::number(s.subrange(5, 7), 10) == m
            &&& text::number(s.subrange(8, 10), 10) == d
            &&& 3600 * text::number(s.subrange(11, 13), 10) + 60 * text::number(
                s.subrange(14, 16),
                10,
            ) + text::number(s.subrange(17, 19), 10) == rem
            &&& text::number(s.subrange(17, 19), 10) < 60
            &&& text::number(s.subrange(14, 16), 10) < 60
            &&& text::number(s.subrange(20, 23), 10) == millis
            &&& s[4] == '-' && s[7] == '-' && s[10] == 'T' && s[13] == ':' && s[16] == ':' && s[19]
                == '.' && s[23] == 'Z'
        }),
{
    reveal_strlit("-");
    reveal_strlit("T");
    reveal_strlit(":");
    reveal_strlit(".");
    reveal_strlit("Z");
    let s = stamp(y, m, d, rem, millis);
    let (h, n, c) = (rem / 3600, rem / 60 % 60, rem % 60);
    text::law_padded_reads_back(y, 4);
    text::law_padded_reads_back(m, 2);
    text::law_padded_reads_back(d, 2);
    text::law_padded_reads_back(h, 2);
    text::law_padded_reads_back(n, 2);
    text::law_padded_reads_back(c, 2);
    text::law_padded_reads_back(millis, 3);
    assert(s.subrange(0, 4) =~= text::zero_padded(y, 4));
    assert(s.subrange(5, 7) =~= text::zero_padded(m, 2));
    assert(s.subrange(8, 10) =~= text::zero_padded(d, 2));
    assert(s.subrange(11, 13) =~= text::zero_padded(h, 2));
    assert(s.subrange(14, 16) =~= text::zero_padded(n, 2));
    assert(s.subrange(17, 19) =~= text::zero_padded(c, 2));
    assert(s.subrange(20, 23) =~= text::zero_padded(millis, 3));
    assert(3600 * h + 60 * n + c == rem);
}

} // verus!
