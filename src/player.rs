use crate::chance::random_in;
use crate::message::Direction;
use vstd::prelude::*;

verus! {

/// Sub-pixel units per pixel: positions are fixed-point with three decimals.
pub const SUBPIXELS: u64 = 1000;

/// Number of headings, one per degree.
pub const DEGREES: u32 = 360;

/// Longest display name, in bytes.
pub const MAX_NAME_BYTES: usize = 20;

/// Effective speed in percent of one trail thickness per tick.
pub const SPEED_PERCENT: u32 = 80;

/// Length of the invisibility cycle, in moving ticks.
pub const INVISIBLE_PERIOD: u64 = 100;

/// How many moving ticks of each cycle the player stays invisible, less one.
pub const INVISIBLE_LENGTH: u64 = 3;

/// The per-heading displacement table: one `(dx, dy)` pair per degree, in
/// sub-pixels, each component at most one trail thickness in size.
pub open spec fn steps_fit(steps: Seq<(i64, i64)>, line_width: u32) -> bool {
    &&& steps.len() == DEGREES
    &&& forall|h: int|
        0 <= h < DEGREES ==> {
            &&& -(line_width * SUBPIXELS) <= #[trigger] steps[h].0 <= line_width * SUBPIXELS
            &&& -(line_width * SUBPIXELS) <= steps[h].1 <= line_width * SUBPIXELS
        }
}

/// `v` clamped to `[0, hi]`.
pub open spec fn clamp(v: int, hi: int) -> int {
    if v < 0 {
        0
    } else if v > hi {
        hi
    } else {
        v
    }
}

/// The heading after applying a turn intent once.
pub open spec fn turned(heading: u32, turn_rate: u32, d: Direction) -> u32 {
    match d {
        Direction::Left => ((heading + turn_rate) % (DEGREES as int)) as u32,
        Direction::Right => ((heading + DEGREES - turn_rate) % (DEGREES as int)) as u32,
        Direction::Unchanged => heading,
    }
}

/// Where a player is placed at round start: pixel coordinates, and the
/// heading as a number of turn steps.
#[derive(Copy, Clone, Debug, PartialEq, Eq, Structural)]
pub struct Spawn {
    pub x: u32,
    pub y: u32,
    pub turns: u32,
}

/// The cells from `start` up to, not including, `end` along one axis.
#[derive(Copy, Clone, Debug, PartialEq, Eq, Structural)]
pub struct Span {
    pub start: usize,
    pub end: usize,
}

/// Physical and occupancy state of one competitor.
#[derive(Clone, Debug, PartialEq, Eq)]
pub struct Player {
    pub uuid: u128,
    pub host: bool,
    pub name: String,
    pub color: String,
    /// Position in sub-pixels.
    pub x: u64,
    pub y: u64,
    /// Heading in whole degrees, `0..360`; 0 points along +y, 90 along +x.
    pub heading: u32,
    /// Degrees turned per moving tick while a turn intent is held.
    pub turn_rate: u32,
    pub direction: Direction,
    /// Field bounds in pixels.
    pub x_max: u32,
    pub y_max: u32,
    pub line_width: u32,
    /// Speed in percent: the player pauses so that it moves this share of ticks.
    pub speed: u32,
    /// Cadence counter in hundredths of a tick.
    pub stop_count: i64,
    pub invisible: bool,
    pub invisible_max: u64,
    pub invisible_count: u64,
    pub invisible_length: u64,
    pub points: u64,
    /// Cells occupied on the previous tick.
    pub x_prev_range: Span,
    pub y_prev_range: Span,
}

/// The player after one tick of the cadence counter and, when it lets the
/// player move, of invisibility, steering and movement.
pub open spec fn ticked(p: Player, steps: Seq<(i64, i64)>) -> Player {
    let stop = p.stop_count - 100;
    if stop > 0 {
        Player { stop_count: stop as i64, ..p }
    } else {
        let count = p.invisible_count - 1;
        let (inv, count) = if count == 0 {
            (true, p.invisible_max as int)
        } else {
            (p.invisible, count)
        };
        let inv = inv && count >= p.invisible_max - p.invisible_length;
        let h = turned(p.heading, p.turn_rate, p.direction);
        Player {
            stop_count: (p.line_width * (100 - p.speed)) as i64,
            invisible: inv,
            invisible_count: count as u64,
            heading: h,
            x: clamp(p.x + steps[h as int].0, p.x_max * SUBPIXELS) as u64,
            y: clamp(p.y + steps[h as int].1, p.y_max * SUBPIXELS) as u64,
            ..p
        }
    }
}

/// Whether `s` is a spawn inside the field of `p`, with a heading below 360 degrees.
pub open spec fn spawn_fits(p: Player, s: Spawn) -> bool {
    &&& s.x <= p.x_max
    &&& s.y <= p.y_max
    &&& s.turns * p.turn_rate < DEGREES
}

/// The player placed at the start of a round.
pub open spec fn spawned(p: Player, s: Spawn) -> Player {
    Player {
        direction: Direction::Unchanged,
        invisible: false,
        invisible_count: p.invisible_max,
        x: (s.x * SUBPIXELS) as u64,
        y: (s.y * SUBPIXELS) as u64,
        heading: (s.turns * p.turn_rate) as u32,
        ..p
    }
}

/// Whether `after` is `before` placed for a new round clear of the margins.
pub open spec fn respawned(before: Player, after: Player) -> bool {
    exists|s: Spawn|
        {
            &&& spawn_fits(before, s)
            &&& margin(before.x_max) <= s.x < before.x_max - margin(before.x_max)
            &&& margin(before.y_max) <= s.y < before.y_max - margin(before.y_max)
            &&& after == #[trigger] spawned(before, s)
        }
}

/// The spawn margin kept clear on each side of a dimension: 15% of it.
pub open spec fn margin(max: u32) -> int {
    max * 15 / 100
}

impl Player {
    /// Well-formedness: the position is inside the field and the counters
    /// are within their cycles.
    pub open spec fn wf(&self) -> bool {
        &&& self.x <= self.x_max * SUBPIXELS
        &&& self.y <= self.y_max * SUBPIXELS
        &&& self.heading < DEGREES
        &&& 1 <= self.turn_rate <= DEGREES
        &&& self.speed <= 100
        &&& 0 <= self.stop_count <= self.line_width * 100
        &&& self.invisible_length < self.invisible_max
        &&& 1 <= self.invisible_count <= self.invisible_max
    }

    /// A visible player at the origin, facing along +y, without points.
    pub fn new(
        uuid: u128,
        name: &str,
        color: &str,
        x_max: u32,
        y_max: u32,
        line_width: u32,
        turn_rate: u32,
    ) -> (r: Player)
        requires
            name.len() <= MAX_NAME_BYTES,
            1 <= turn_rate <= DEGREES,
        ensures
            r.wf(),
            r.uuid == uuid,
            !r.host,
            r.name@ == name@,
            r.color@ == color@,
            r.x == 0 && r.y == 0 && r.heading == 0,
            r.turn_rate == turn_rate,
            r.direction == Direction::Unchanged,
            r.x_max == x_max && r.y_max == y_max && r.line_width == line_width,
            r.speed == SPEED_PERCENT,
            r.stop_count == 0,
            !r.invisible,
            r.invisible_max == INVISIBLE_PERIOD,
            r.invisible_count == INVISIBLE_PERIOD,
            r.invisible_length == INVISIBLE_LENGTH,
            r.points == 0,
            r.x_prev_range == (Span { start: 0, end: 0 }),
            r.y_prev_range == (Span { start: 0, end: 0 }),
    {
        Player {
            uuid,
            host: false,
            name: name.to_owned(),
            color: color.to_owned(),
            x: 0,
            y: 0,
            heading: 0,
            turn_rate,
            direction: Direction::Unchanged,
            x_max,
            y_max,
            line_width,
            speed: SPEED_PERCENT,
            stop_count: 0,
            invisible: false,
            invisible_max: INVISIBLE_PERIOD,
            invisible_count: INVISIBLE_PERIOD,
            invisible_length: INVISIBLE_LENGTH,
            points: 0,
            x_prev_range: Span { start: 0, end: 0 },
            y_prev_range: Span { start: 0, end: 0 },
        }
    }

    /// A field-by-field copy.
    pub fn copy(&self) -> (r: Player)
        ensures
            r == *self,
    {
        Player {
            uuid: self.uuid,
            host: self.host,
            name: self.name.clone(),
            color: self.color.clone(),
            x: self.x,
            y: self.y,
            heading: self.heading,
            turn_rate: self.turn_rate,
            direction: self.direction,
            x_max: self.x_max,
            y_max: self.y_max,
            line_width: self.line_width,
            speed: self.speed,
            stop_count: self.stop_count,
            invisible: self.invisible,
            invisible_max: self.invisible_max,
            invisible_count: self.invisible_count,
            invisible_length: self.invisible_length,
            points: self.points,
            x_prev_range: self.x_prev_range,
            y_prev_range: self.y_prev_range,
        }
    }

    /// Places the player for a new round: visible, counting down to its
    /// first invisibility, with no turn intent.
    pub fn initialize_at(&mut self, spawn: Spawn)
        requires
            old(self).wf(),
            spawn_fits(*old(self), spawn),
        ensures
            *final(self) == spawned(*old(self), spawn),
            final(self).wf(),
    {
        self.direction = Direction::Unchanged;
        self.invisible = false;
        self.invisible_count = self.invisible_max;
        self.x = spawn.x as u64 * SUBPIXELS;
        self.y = spawn.y as u64 * SUBPIXELS;
        self.heading = spawn.turns * self.turn_rate;
    }

    /// Places the player for a new round at a pseudo-random position that
    /// keeps 15% of each dimension clear on every side, with a pseudo-random
    /// heading that is a multiple of the turn rate.
    pub fn initialize(&mut self)
        requires
            old(self).wf(),
            old(self).x_max >= 1,
            old(self).y_max >= 1,
        ensures
            final(self).wf(),
            respawned(*old(self), *final(self)),
    {
        let x_limit = self.x_max / 100 * 15 + self.x_max % 100 * 15 / 100;
        let y_limit = self.y_max / 100 * 15 + self.y_max % 100 * 15 / 100;
        assert(x_limit == margin(self.x_max)) by (nonlinear_arith)
            requires
                x_limit == self.x_max / 100 * 15 + self.x_max % 100 * 15 / 100,
        {
        }
        assert(y_limit == margin(self.y_max)) by (nonlinear_arith)
            requires
                y_limit == self.y_max / 100 * 15 + self.y_max % 100 * 15 / 100,
        {
        }
        let x = random_in(x_limit, self.x_max - x_limit);
        let y = random_in(y_limit, self.y_max - y_limit);
        assert(DEGREES / self.turn_rate >= 1) by (nonlinear_arith)
            requires
                1 <= self.turn_rate <= DEGREES,
        {
        }
        let turns = random_in(0, DEGREES / self.turn_rate);
        assert(turns * self.turn_rate < DEGREES) by (nonlinear_arith)
            requires
                turns < DEGREES / self.turn_rate,
                self.turn_rate >= 1,
        {
        }
        let spawn = Spawn { x, y, turns };
        let ghost before = *self;
        self.initialize_at(spawn);
        assert(*self == spawned(before, spawn));
    }

    /// One simulation tick: advances the cadence counter and, when it lets
    /// the player move, the invisibility cycle, the heading and the position,
    /// which stays clamped to the field.
    pub fn tick(&mut self, steps: &Vec<(i64, i64)>)
        requires
            old(self).wf(),
            steps_fit(steps@, old(self).line_width),
        ensures
            *final(self) == ticked(*old(self), steps@),
            final(self).wf(),
            final(self).x <= final(self).x_max * SUBPIXELS,
            final(self).y <= final(self).y_max * SUBPIXELS,
    {
        let stop = self.stop_count - 100;
        if stop > 0 {
            self.stop_count = stop;
            return;
        }
        let lw = self.line_width as i64;
        let pause = (100 - self.speed) as i64;
        assert(0 <= lw * pause <= lw * 100) by (nonlinear_arith)
            requires
                0 <= lw <= u32::MAX,
                0 <= pause <= 100,
        {
        }
        self.stop_count = lw * pause;
        self.invisible_count = self.invisible_count - 1;
        if self.invisible_count == 0 {
            self.invisible = true;
            self.invisible_count = self.invisible_max;
        }
        if self.invisible && self.invisible_count < self.invisible_max - self.invisible_length {
            self.invisible = false;
        }
        match self.direction {
            Direction::Left => {
                self.heading = (self.heading + self.turn_rate) % DEGREES;
            },
            Direction::Right => {
                self.heading = (self.heading + DEGREES - self.turn_rate) % DEGREES;
            },
            Direction::Unchanged => {},
        }
        let (dx, dy) = steps[self.heading as usize];
        self.x = clamp_step(self.x, dx, self.x_max as u64 * SUBPIXELS);
        self.y = clamp_step(self.y, dy, self.y_max as u64 * SUBPIXELS);
    }

    /// Sets the turn intent; it takes effect from the next moving tick.
    pub fn change_direction(&mut self, direction: Direction)
        ensures
            *final(self) == (Player { direction, ..*old(self) }),
    {
        self.direction = direction;
    }
}

/// `pos + delta` clamped to `[0, hi]`.
fn clamp_step(pos: u64, delta: i64, hi: u64) -> (r: u64)
    requires
        pos <= hi <= u32::MAX * SUBPIXELS,
        -(u32::MAX * SUBPIXELS) <= delta <= u32::MAX * SUBPIXELS,
    ensures
        r == clamp(pos + delta, hi as int),
{
    let v = pos as i64 + delta;
    if v < 0 {
        0
    } else if v as u64 > hi {
        hi
    } else {
        v as u64
    }
}

} // verus!
