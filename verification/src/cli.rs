//! The decisions of the `robosim` command line: which transport a run
//! publishes through, how long it runs, which twist commands it reads from
//! stdin, what a teleop key does, how teleop paces physics and drawing
//! against the wall clock, and the one-line lidar strip under the teleop
//! map.

use vstd::prelude::*;
use vstd::string::StrSliceExecFns;
use crate::json::{json_member, json_parse, member, parse_json};

verus! {

/// `robosim teleop` arguments.
#[derive(Clone, Debug)]
pub struct TeleopArgs {
    /// rosbridge websocket URL.
    pub rosbridge: Option<String>,
    /// Map width in columns.
    pub cols: u32,
    /// Map height in rows.
    pub rows: u32,
}

/// Is `path` the name of standard output, `-`?
pub fn is_stdout_path(path: &str) -> (r: bool)
    ensures
        r == (path@ == seq!['-']),
{
    let n = path.unicode_len();
    if n != 1 {
        proof {
            if path@ == seq!['-'] {
                assert(path@.len() == 1);
            }
        }
        return false;
    }
    let c = path.get_char(0);
    proof {
        if c == '-' {
            assert(path@ =~= seq!['-']);
        }
    }
    c == '-'
}

/// Where a run publishes its frames.
#[derive(Clone, Debug)]
pub enum TransportChoice {
    /// A rosbridge websocket at this URL (falling back to nothing when it
    /// cannot be reached).
    Rosbridge(String),
    /// JSON lines on standard output.
    JsonlStdout,
    /// JSON lines into the file at this path.
    JsonlFile(String),
    /// Nowhere.
    Null,
}

/// The transport of a run: rosbridge when a URL is given, else JSON lines
/// when a path is given (`-` meaning standard output), else nothing.
pub fn choose_transport(rosbridge: &Option<String>, jsonl: &Option<String>) -> (c: TransportChoice)
    ensures
        match rosbridge {
            Some(url) => c matches TransportChoice::Rosbridge(u) && u@ == url@,
            None => match jsonl {
                Some(path) => if path@ == seq!['-'] {
                    c is JsonlStdout
                } else {
                    c matches TransportChoice::JsonlFile(p) && p@ == path@
                },
                None => c is Null,
            },
        },
{
    match rosbridge {
        Some(url) => TransportChoice::Rosbridge(url.clone()),
        None => match jsonl {
            Some(path) => {
                if is_stdout_path(path.as_str()) {
                    TransportChoice::JsonlStdout
                } else {
                    TransportChoice::JsonlFile(path.clone())
                }
            },
            None => TransportChoice::Null,
        },
    }
}

/// Does the run summary go to standard error? It does when the JSON lines
/// take standard output.
pub fn summary_to_stderr(jsonl: &Option<String>) -> (r: bool)
    ensures
        r == (jsonl matches Some(p) && p@ == seq!['-']),
{
    match jsonl {
        Some(p) => is_stdout_path(p.as_str()),
        None => false,
    }
}

/// Does a run limited to `steps` steps (0: no limit) go on after `step`
/// steps?
pub fn keep_running(steps: u64, step: u64) -> (r: bool)
    ensures
        r == (steps == 0 || step < steps),
{
    steps == 0 || step < steps
}

/// The `v` and `omega` members of a twist command line read from stdin:
/// both members of a JSON document, or nothing when the line is not JSON or
/// lacks one of them.
pub open spec fn twist_members(line: Seq<char>) -> Option<(serde_json::Value, serde_json::Value)> {
    match json_parse(line) {
        Some(d) => match (json_member(d, "v"@), json_member(d, "omega"@)) {
            (Some(v), Some(omega)) => Some((v, omega)),
            _ => None,
        },
        None => None,
    }
}

/// The `v` and `omega` members of a `{"v":..,"omega":..}` command line;
/// the caller takes their numbers.
pub fn stdin_twist_members(line: &str) -> (r: Option<(serde_json::Value, serde_json::Value)>)
    ensures
        r == twist_members(line@),
{
    match parse_json(line) {
        Some(d) => {
            let v = member(&d, "v");
            let omega = member(&d, "omega");
            match (v, omega) {
                (Some(v), Some(omega)) => Some((v, omega)),
                _ => None,
            }
        },
        None => None,
    }
}

/// Teleop physics step, in nanoseconds (100 Hz).
pub const PHYS_DT_NANOS: u128 = 10_000_000;

/// Teleop redraw period, in nanoseconds (about 30 Hz).
pub const DRAW_PERIOD_NANOS: u128 = 33_000_000;

/// What one pass of the teleop loop does.
#[derive(Clone, Copy, Debug)]
pub struct TeleopTick {
    /// Physics steps to run now.
    pub steps: u128,
    /// Wall time not yet simulated, in nanoseconds.
    pub physics_acc: u128,
    /// Redraw (and publish) now?
    pub draw: bool,
}

/// One pass of the teleop pacing loop: with `physics_acc` nanoseconds of
/// wall time left unsimulated and `elapsed` nanoseconds passed since the
/// last pass, run as many whole physics steps as fit and keep the rest;
/// redraw when at least one draw period has passed since the last redraw
/// (`since_draw` nanoseconds ago). Simulated time plus what is kept is the
/// wall time, so physics never drifts from it and never runs ahead.
pub fn teleop_tick(physics_acc: u128, elapsed: u128, since_draw: u128) -> (t: TeleopTick)
    requires
        physics_acc + elapsed <= u128::MAX,
    ensures
        t.steps == (physics_acc + elapsed) / (PHYS_DT_NANOS as int),
        t.physics_acc == (physics_acc + elapsed) % (PHYS_DT_NANOS as int),
        t.steps * PHYS_DT_NANOS + t.physics_acc == physics_acc + elapsed,
        t.physics_acc < PHYS_DT_NANOS,
        t.draw == (since_draw >= DRAW_PERIOD_NANOS),
{
    let acc = physics_acc + elapsed;
    let steps = acc / PHYS_DT_NANOS;
    let rest = acc % PHYS_DT_NANOS;
    assert(steps * PHYS_DT_NANOS + rest == acc) by (nonlinear_arith)
        requires
            steps == acc / PHYS_DT_NANOS,
            rest == acc % PHYS_DT_NANOS,
            PHYS_DT_NANOS > 0,
    ;
    TeleopTick { steps, physics_acc: rest, draw: since_draw >= DRAW_PERIOD_NANOS }
}

/// A key pressed in the teleop terminal.
#[derive(Clone, Copy, Debug, PartialEq, Eq, Structural)]
pub enum TeleopKey {
    /// A character key.
    Char(char),
    /// Arrow up.
    Up,
    /// Arrow down.
    Down,
    /// Arrow left.
    Left,
    /// Arrow right.
    Right,
    /// Escape.
    Esc,
    /// Any other key.
    Other,
}

/// What a teleop key does.
#[derive(Clone, Copy, Debug, PartialEq, Eq, Structural)]
pub enum TeleopAction {
    /// Leave the teleop.
    Quit,
    /// Raise the commanded speed by one step.
    Faster,
    /// Lower the commanded speed by one step.
    Slower,
    /// Raise the commanded yaw rate (turn left) by one step.
    TurnLeft,
    /// Lower the commanded yaw rate (turn right) by one step.
    TurnRight,
    /// Zero speed and yaw rate.
    Stop,
    /// Nothing.
    Ignore,
}

/// The key bindings of the teleop: `q`/Esc quit, `w`/Up and `s`/Down change
/// the speed, `a`/Left and `d`/Right the yaw rate, space stops.
pub open spec fn key_action(key: TeleopKey) -> TeleopAction {
    match key {
        TeleopKey::Char(c) => if c == 'q' {
            TeleopAction::Quit
        } else if c == 'w' {
            TeleopAction::Faster
        } else if c == 's' {
            TeleopAction::Slower
        } else if c == 'a' {
            TeleopAction::TurnLeft
        } else if c == 'd' {
            TeleopAction::TurnRight
        } else if c == ' ' {
            TeleopAction::Stop
        } else {
            TeleopAction::Ignore
        },
        TeleopKey::Esc => TeleopAction::Quit,
        TeleopKey::Up => TeleopAction::Faster,
        TeleopKey::Down => TeleopAction::Slower,
        TeleopKey::Left => TeleopAction::TurnLeft,
        TeleopKey::Right => TeleopAction::TurnRight,
        TeleopKey::Other => TeleopAction::Ignore,
    }
}

/// What the teleop does with `key`.
pub fn teleop_action(key: TeleopKey) -> (a: TeleopAction)
    ensures
        a == key_action(key),
{
    match key {
        TeleopKey::Char('q') | TeleopKey::Esc => TeleopAction::Quit,
        TeleopKey::Char('w') | TeleopKey::Up => TeleopAction::Faster,
        TeleopKey::Char('s') | TeleopKey::Down => TeleopAction::Slower,
        TeleopKey::Char('a') | TeleopKey::Left => TeleopAction::TurnLeft,
        TeleopKey::Char('d') | TeleopKey::Right => TeleopAction::TurnRight,
        TeleopKey::Char(' ') => TeleopAction::Stop,
        _ => TeleopAction::Ignore,
    }
}

/// How far a lidar beam reached, in the bands the teleop strip shows.
#[derive(Clone, Copy, Debug, PartialEq, Eq, Structural)]
pub enum RangeBand {
    /// No finite return.
    Miss,
    /// Under 0.5 m.
    Contact,
    /// Under 1.5 m.
    Close,
    /// Under 3 m.
    Medium,
    /// 3 m or more.
    Distant,
}

/// The character that shows a range band.
pub open spec fn band_char(b: RangeBand) -> char {
    match b {
        RangeBand::Miss => ' ',
        RangeBand::Contact => '#',
        RangeBand::Close => '*',
        RangeBand::Medium => '+',
        RangeBand::Distant => '.',
    }
}

/// The beam shown in column `c` of a strip `cols` wide over `n` beams.
pub open spec fn strip_beam(c: int, n: int, cols: int) -> int {
    c * (if n > 1 { n } else { 1 }) / cols
}

/// Character `c` of the lidar strip: the band of the beam under the column,
/// blank where there is none.
pub open spec fn strip_char(bands: Seq<RangeBand>, c: int, cols: int) -> char {
    let i = strip_beam(c, bands.len() as int, cols);
    if 0 <= i < bands.len() {
        band_char(bands[i])
    } else {
        ' '
    }
}

/// Column `c` of a strip `cols` wide over `n >= 1` beams shows the beam at
/// the same fraction of the scan: the beam `i` with
/// `i * cols <= c * n < (i + 1) * cols`, which always exists.
pub proof fn lemma_strip_beam_fraction(c: int, n: int, cols: int)
    requires
        cols > 0,
        0 <= c < cols,
        n >= 1,
    ensures
        0 <= strip_beam(c, n, cols) < n,
        strip_beam(c, n, cols) * cols <= c * n,
        c * n < (strip_beam(c, n, cols) + 1) * cols,
{
    let i = strip_beam(c, n, cols);
    assert(i == (c * n) / cols);
    assert(0 <= c * n < cols * n) by (nonlinear_arith)
        requires
            0 <= c < cols,
            n >= 1,
    ;
    assert(i * cols <= c * n && c * n < (i + 1) * cols) by (nonlinear_arith)
        requires
            i == (c * n) / cols,
            cols > 0,
            c * n >= 0,
    ;
    assert(0 <= i < n) by (nonlinear_arith)
        requires
            i * cols <= c * n,
            c * n < cols * n,
            c * n < (i + 1) * cols,
            cols > 0,
            c * n >= 0,
    ;
}

/// One-character-tall lidar strip, `cols` wide: each column shows the band
/// of the beam at the same fraction of the scan.
pub fn lidar_strip(bands: &Vec<RangeBand>, cols: usize) -> (s: String)
    requires
        cols == 0 || (cols - 1) * (if bands@.len() > 1 { bands@.len() } else { 1 }) <= usize::MAX,
    ensures
        s@.len() == cols,
        forall|c: int| 0 <= c < cols ==> #[trigger] s@[c] == strip_char(bands@, c, cols as int),
{
    let n = bands.len();
    let m: usize = if n > 1 { n } else { 1 };
    let mut s = String::new();
    let mut c: usize = 0;
    while c < cols
        invariant
            n == bands@.len(),
            m == (if n > 1 { n } else { 1 }),
            cols == 0 || (cols - 1) * m <= usize::MAX,
            c <= cols,
            s@.len() == c,
            forall|j: int| 0 <= j < c ==> #[trigger] s@[j] == strip_char(bands@, j, cols as int),
        decreases cols - c,
    {
        assert(c * m <= (cols - 1) * m) by (nonlinear_arith)
            requires
                c < cols,
        ;
        let idx = c * m / cols;
        let ch = if idx < n {
            match bands[idx] {
                RangeBand::Miss => ' ',
                RangeBand::Contact => '#',
                RangeBand::Close => '*',
                RangeBand::Medium => '+',
                RangeBand::Distant => '.',
            }
        } else {
            ' '
        };
        let ghost before = s@;
        s.push(ch);
        assert forall|j: int| 0 <= j < c + 1 implies #[trigger] s@[j] == strip_char(bands@, j, cols as int) by {
            if j < c {
                assert(s@[j] == before[j]);
            }
        }
        c = c + 1;
    }
    s
}

} // verus!
