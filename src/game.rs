use crate::grid::{blank, collides, in_span, overrun, stamped, Grid};
use crate::message::Direction;
use crate::player::{
    respawned, spawn_fits, spawned, steps_fit, ticked, turned, Player, Span, Spawn, DEGREES, MAX_NAME_BYTES,
    SUBPIXELS,
};
use vstd::arithmetic::power2::{
    lemma2_to64, lemma2_to64_rest, lemma_pow2_strictly_increases, lemma_pow2_unfold, pow2,
};
use vstd::prelude::*;

verus! {

/// Most players a game holds: the largest award, `2^(players - 1)`, must fit
/// in the 64-bit points counter.
pub const MAX_PLAYERS: usize = 64;

/// Number of `true` entries of `s`.
pub open spec fn count_true(s: Seq<bool>) -> nat
    decreases s.len(),
{
    if s.len() == 0 {
        0
    } else {
        count_true(s.drop_last()) + if s.last() {
            1nat
        } else {
            0nat
        }
    }
}

/// Points awarded to a player eliminated while `active` players, itself
/// included, are still active, out of `total`: later eliminations earn
/// geometrically more, the first of `total` earns 1 and the last one
/// standing `2^(total - 1)`.
pub open spec fn elimination_award(total: nat, active: nat) -> nat {
    pow2((total - active) as nat)
}

/// `points` raised by `award`, saturating at the counter's maximum.
pub open spec fn add_award(points: u64, award: nat) -> u64 {
    if points + award > u64::MAX {
        u64::MAX
    } else {
        (points + award) as u64
    }
}

/// The occupancy window of a position along one axis: `line_width` cells
/// starting half a thickness before the cell under the position, or `None`
/// when half a thickness around the position reaches past either wall of
/// `[0, dim]`, or the cells would reach outside `[0, dim)`.
pub open spec fn window(pos: u64, line_width: u32, dim: usize) -> Option<Span> {
    let c = pos / SUBPIXELS;
    let half = line_width / 2;
    if 2 * pos < line_width * SUBPIXELS || 2 * pos + line_width * SUBPIXELS > 2 * dim * SUBPIXELS || c < half || c
        - half + line_width > dim {
        None
    } else {
        Some(Span { start: (c - half) as usize, end: (c - half + line_width) as usize })
    }
}

/// Snapshot of one active player for a broadcast tick.
#[derive(Copy, Clone, Debug, PartialEq, Eq, Structural)]
pub struct PlayerState {
    pub id: u128,
    pub x: u64,
    pub y: u64,
    pub invisible: bool,
}

/// The broadcast snapshot of `p`.
pub open spec fn state_of(p: Player) -> PlayerState {
    PlayerState { id: p.uuid, x: p.x, y: p.y, invisible: p.invisible }
}

/// Snapshots of the players of `ps` whose flag in `act` is set, in order.
pub open spec fn snapshot(ps: Seq<Player>, act: Seq<bool>) -> Seq<PlayerState>
    decreases ps.len(),
{
    if ps.len() == 0 {
        Seq::empty()
    } else {
        let rest = snapshot(ps.drop_last(), act.take(ps.len() - 1));
        if act[ps.len() - 1] {
            rest.push(state_of(ps.last()))
        } else {
            rest
        }
    }
}

/// Error of a turn intent.
#[derive(Copy, Clone, Debug, PartialEq, Eq, Structural)]
pub enum GameError {
    /// No active player has this id.
    PlayerNotFound(u128),
}

/// The flags `act` with the flags of the players of `marked` cleared.
pub open spec fn evicted(act: Seq<bool>, marked: Seq<usize>) -> Seq<bool> {
    Seq::new(act.len(), |i: int| act[i] && !marked.contains(i as usize))
}

/// What the per-player pass of a tick has produced so far: the players, the
/// grid cells, and the players marked for removal in the order marked.
pub type Pass = (Seq<Player>, Seq<Seq<u128>>, Seq<usize>);

/// The simulation of one room: the grid, all players ever joined, and which
/// of them are still alive in the current round.
pub struct Game {
    pub width: usize,
    pub height: usize,
    pub line_width: u32,
    pub turn_rate: u32,
    pub single_player: bool,
    pub grid: Grid,
    pub players: Vec<Player>,
    /// Whether each player is still alive in this round.
    pub active: Vec<bool>,
    /// Displacement per heading, see `steps_fit`.
    pub steps: Vec<(i64, i64)>,
}

impl Game {
    /// Whether `p` belongs to this game's field.
    pub open spec fn fits(&self, p: Player) -> bool {
        &&& p.wf()
        &&& p.x_max == self.width
        &&& p.y_max == self.height
        &&& p.line_width == self.line_width
        &&& p.turn_rate == self.turn_rate
        &&& p.uuid != 0
    }

    /// Well-formedness: the grid matches the field, the movement table fits
    /// the trail thickness, every player belongs to the field, ids are
    /// distinct, and there are at most `MAX_PLAYERS` players.
    pub open spec fn wf(&self) -> bool {
        &&& self.grid.wf()
        &&& self.grid.width == self.width
        &&& self.grid.height == self.height
        &&& 1 <= self.width <= u32::MAX
        &&& 1 <= self.height <= u32::MAX
        &&& 1 <= self.turn_rate <= DEGREES
        &&& self.line_width >= 1
        &&& steps_fit(self.steps@, self.line_width)
        &&& self.players@.len() == self.active@.len()
        &&& self.players@.len() <= MAX_PLAYERS
        &&& forall|i: int| 0 <= i < self.players@.len() ==> self.fits(#[trigger] self.players@[i])
        &&& forall|i: int, j: int|
            0 <= i < self.players@.len() && 0 <= j < self.players@.len() && i != j
                ==> #[trigger] self.players@[i].uuid != #[trigger] self.players@[j].uuid
    }

    /// Whether `g` has the dimensions, constants and movement table of `self`.
    pub open spec fn same_setup(&self, g: &Game) -> bool {
        &&& g.width == self.width
        &&& g.height == self.height
        &&& g.line_width == self.line_width
        &&& g.turn_rate == self.turn_rate
        &&& g.steps@ == self.steps@
    }

    /// Number of active players.
    pub open spec fn num_active(&self) -> nat {
        count_true(self.active@)
    }

    /// Whether the round goes on: one active player suffices alone, two are
    /// needed together.
    pub open spec fn is_running(&self) -> bool {
        if self.single_player {
            self.num_active() > 0
        } else {
            self.num_active() > 1
        }
    }

    /// Whether `id` is the id of an active player.
    pub open spec fn has_active(&self, id: u128) -> bool {
        exists|k: int| 0 <= k < self.players@.len() && self.active@[k] && #[trigger] self.players@[k].uuid == id
    }

    /// Whether `next` is the players of `self` with the turn intent of the
    /// active player `id`, if there is one, set to `direction`.
    pub open spec fn steered(&self, next: Seq<Player>, id: u128, direction: Direction) -> bool {
        &&& next.len() == self.players@.len()
        &&& forall|k: int|
            0 <= k < next.len() ==> #[trigger] next[k] == if self.active@[k] && self.players@[k].uuid == id {
                Player { direction, ..self.players@[k] }
            } else {
                self.players@[k]
            }
    }

    /// Player `i` handled by the per-player pass of a tick, on top of `s`.
    pub open spec fn step_one(&self, s: Pass, i: int) -> Pass {
        if !self.active@[i] {
            s
        } else {
            let p = ticked(s.0[i], self.steps@);
            if p.invisible {
                (s.0.update(i, p), s.1, s.2)
            } else {
                match (window(p.x, self.line_width, self.width), window(p.y, self.line_width, self.height)) {
                    (Some(wx), Some(wy)) => {
                        let hit = collides(s.1, wx, wy, p.x_prev_range, p.y_prev_range);
                        (
                            s.0.update(i, Player { x_prev_range: wx, y_prev_range: wy, ..p }),
                            stamped(s.1, p.uuid, wx, wy),
                            if hit {
                                s.2.push(i as usize)
                            } else {
                                s.2
                            },
                        )
                    },
                    _ => (s.0.update(i, p), s.1, s.2.push(i as usize)),
                }
            }
        }
    }

    /// The per-player pass of a tick over the first `n` players: each active
    /// one moves, then, unless invisible, claims its window of cells; it is
    /// marked for removal when the window leaves the field or reaches a
    /// claimed cell that it did not occupy on the previous tick.
    pub open spec fn pass(&self, n: nat) -> Pass
        decreases n,
    {
        if n == 0 {
            (self.players@, self.grid.cells(), Seq::empty())
        } else {
            self.step_one(self.pass((n - 1) as nat), n - 1)
        }
    }

    /// Whether player `i`, having claimed its cells in the pass `s`, finds
    /// one of them outside its previous window claimed afterwards in the same
    /// tick by another player: trails that cross on one tick remove both.
    pub open spec fn crossed(&self, s: Pass, i: int) -> bool {
        let q = s.0[i];
        if !self.active@[i] || q.invisible {
            false
        } else {
            match (window(q.x, self.line_width, self.width), window(q.y, self.line_width, self.height)) {
                (Some(wx), Some(wy)) => overrun(
                    s.1,
                    q.uuid,
                    wx,
                    wy,
                    self.players@[i].x_prev_range,
                    self.players@[i].y_prev_range,
                ),
                _ => false,
            }
        }
    }

    /// The players among the first `k` that leave the round after the pass
    /// `s`, in order: those the pass marked and those whose new cells were
    /// crossed later in the tick.
    pub open spec fn removals(&self, s: Pass, k: nat) -> Seq<usize>
        decreases k,
    {
        if k == 0 {
            Seq::empty()
        } else {
            let r = self.removals(s, (k - 1) as nat);
            if s.2.contains((k - 1) as usize) || self.crossed(s, k - 1) {
                r.push((k - 1) as usize)
            } else {
                r
            }
        }
    }

    /// `next` is `self` after one tick: the pass over every player, then the
    /// removal of the marked players and of those whose new cells another
    /// player crossed in the same tick, each scored as it leaves in a
    /// multiplayer round, then the win bonus for a lone survivor.
    pub open spec fn tick_outcome(&self, next: &Game) -> bool {
        let n = self.players@.len();
        let s = self.pass(n);
        let marked = self.removals(s, n);
        let a = self.num_active();
        &&& next.same_setup(self)
        &&& next.single_player == self.single_player
        &&& next.grid.cells() == s.1
        &&& next.active@ == evicted(self.active@, marked)
        &&& next.players@.len() == n
        &&& forall|i: int|
            0 <= i < n ==> #[trigger] next.players@[i] == with_points(s.0[i], next.players@[i].points)
        &&& forall|j: int|
            0 <= j < marked.len() ==> next.players@[marked[j] as int].points == if self.single_player {
                s.0[marked[j] as int].points
            } else {
                add_award(s.0[marked[j] as int].points, elimination_award(n, (a - j) as nat))
            }
        &&& forall|i: int|
            0 <= i < n && !marked.contains(i as usize) ==> #[trigger] next.players@[i].points == if !self.single_player && next.num_active() == 1 && next.active@[i] {
                add_award(s.0[i].points, elimination_award(n, 1))
            } else {
                s.0[i].points
            }
    }

    /// An empty game on a `width` by `height` field.
    pub fn new(width: usize, height: usize, line_width: u32, turn_rate: u32, steps: Vec<(i64, i64)>) -> (r: Game)
        requires
            1 <= width <= u32::MAX,
            1 <= height <= u32::MAX,
            1 <= turn_rate <= DEGREES,
            line_width >= 1,
            steps_fit(steps@, line_width),
        ensures
            r.wf(),
            r.width == width && r.height == height,
            r.line_width == line_width && r.turn_rate == turn_rate,
            r.steps@ == steps@,
            !r.single_player,
            r.players@.len() == 0,
            r.grid.cells() == blank(width as nat, height as nat),
    {
        Game {
            width,
            height,
            line_width,
            turn_rate,
            single_player: false,
            grid: Grid::new(width, height),
            players: Vec::new(),
            active: Vec::new(),
            steps,
        }
    }

    /// Index of the player with id `id`, if any.
    pub fn find(&self, id: u128) -> (r: Option<usize>)
        requires
            self.wf(),
        ensures
            r matches Some(k) ==> k < self.players@.len() && self.players@[k as int].uuid == id,
            r is None ==> forall|k: int| 0 <= k < self.players@.len() ==> #[trigger] self.players@[k].uuid != id,
    {
        let mut k: usize = 0;
        while k < self.players.len()
            invariant
                k <= self.players@.len(),
                forall|j: int| 0 <= j < k ==> #[trigger] self.players@[j].uuid != id,
            decreases self.players@.len() - k,
        {
            if self.players[k].uuid == id {
                return Some(k);
            }
            k = k + 1;
        }
        None
    }

    /// Adds a player who waits for the next round to start.
    pub fn add_player(&mut self, uuid: u128, name: &str, color: &str)
        requires
            old(self).wf(),
            old(self).players@.len() < MAX_PLAYERS,
            uuid != 0,
            forall|k: int| 0 <= k < old(self).players@.len() ==> #[trigger] old(self).players@[k].uuid != uuid,
            name.len() <= MAX_NAME_BYTES,
        ensures
            final(self).wf(),
            final(self).same_setup(old(self)),
            final(self).single_player == old(self).single_player,
            final(self).grid == old(self).grid,
            final(self).active@ == old(self).active@.push(false),
            final(self).players@.len() == old(self).players@.len() + 1,
            final(self).players@.drop_last() == old(self).players@,
            ({
                let p = final(self).players@.last();
                &&& p.uuid == uuid && p.name@ == name@ && p.color@ == color@
                &&& p.is_fresh(old(self).width as u32, old(self).height as u32, old(self).line_width, old(self).turn_rate)
            }),
    {
        let p = Player::new(uuid, name, color, self.width as u32, self.height as u32, self.line_width, self.turn_rate);
        self.players.push(p);
        self.active.push(false);
        assert(self.players@.drop_last() =~= old(self).players@);
    }

    /// Removes a player from the game altogether.
    pub fn remove_player(&mut self, uuid: u128)
        requires
            old(self).wf(),
        ensures
            final(self).wf(),
            final(self).same_setup(old(self)),
            final(self).single_player == old(self).single_player,
            final(self).grid == old(self).grid,
            forall|k: int|
                0 <= k < old(self).players@.len() && old(self).players@[k].uuid == uuid ==> {
                    &&& final(self).players@ == old(self).players@.remove(k)
                    &&& final(self).active@ == old(self).active@.remove(k)
                },
            (forall|k: int| 0 <= k < old(self).players@.len() ==> #[trigger] old(self).players@[k].uuid != uuid)
                ==> final(self).players@ == old(self).players@ && final(self).active@ == old(self).active@,
    {
        match self.find(uuid) {
            Some(k) => {
                self.players.remove(k);
                self.active.remove(k);
                assert forall|i: int, j: int|
                    0 <= i < self.players@.len() && 0 <= j < self.players@.len() && i != j implies
                    #[trigger] self.players@[i].uuid != #[trigger] self.players@[j].uuid by {
                    let oi = if i < k { i } else { i + 1 };
                    let oj = if j < k { j } else { j + 1 };
                    assert(self.players@[i] == old(self).players@[oi]);
                    assert(self.players@[j] == old(self).players@[oj]);
                }
                assert forall|i: int| 0 <= i < self.players@.len() implies self.fits(#[trigger] self.players@[i]) by {
                    let oi = if i < k { i } else { i + 1 };
                    assert(self.players@[i] == old(self).players@[oi]);
                }
            },
            None => {},
        }
    }

    /// Number of active players.
    pub fn active_count(&self) -> (r: usize)
        requires
            self.wf(),
        ensures
            r == self.num_active(),
            r <= self.players@.len(),
    {
        count_flags(&self.active)
    }

    /// Whether the round goes on.
    pub fn running(&self) -> (r: bool)
        requires
            self.wf(),
        ensures
            r == self.is_running(),
    {
        let c = self.active_count();
        if self.single_player {
            c > 0
        } else {
            c > 1
        }
    }

    /// Sets the turn intent of an active player; the intent of an eliminated
    /// or unknown player is refused.
    pub fn on_move(&mut self, id: u128, direction: Direction) -> (r: Result<(), GameError>)
        requires
            old(self).wf(),
        ensures
            final(self).wf(),
            final(self).same_setup(old(self)),
            final(self).single_player == old(self).single_player,
            final(self).grid == old(self).grid,
            final(self).active@ == old(self).active@,
            r is Ok <==> old(self).has_active(id),
            r is Err ==> r == Err::<(), GameError>(GameError::PlayerNotFound(id)),
            old(self).steered(final(self).players@, id, direction),
    {
        match self.find(id) {
            Some(k) => {
                if self.active[k] {
                    self.players[k].change_direction(direction);
                    assert(old(self).players@[k as int].uuid == id);
                    assert(old(self).has_active(id));
                    assert forall|i: int, j: int|
                        0 <= i < self.players@.len() && 0 <= j < self.players@.len() && i != j implies
                        #[trigger] self.players@[i].uuid != #[trigger] self.players@[j].uuid by {
                        assert(self.players@[i].uuid == old(self).players@[i].uuid);
                        assert(self.players@[j].uuid == old(self).players@[j].uuid);
                    }
                    assert forall|i: int| 0 <= i < self.players@.len() implies self.fits(#[trigger] self.players@[i]) by {
                        assert(old(self).fits(old(self).players@[i]));
                    }
                    Ok(())
                } else {
                    Err(GameError::PlayerNotFound(id))
                }
            },
            None => Err(GameError::PlayerNotFound(id)),
        }
    }

    /// Whether `spawns` places every player inside the field.
    pub open spec fn spawns_fit(&self, spawns: Seq<Spawn>) -> bool {
        &&& spawns.len() == self.players@.len()
        &&& forall|i: int| 0 <= i < spawns.len() ==> spawn_fits(self.players@[i], #[trigger] spawns[i])
    }

    /// Whether `next` is `self` at the start of a round: single-player mode
    /// when exactly one player has joined, a cleared grid, every player
    /// active, and, for each player, the placement that `placed` allows.
    pub open spec fn round_started(&self, next: &Game) -> bool {
        &&& next.same_setup(self)
        &&& next.single_player == (self.players@.len() == 1)
        &&& next.grid.cells() == blank(self.width as nat, self.height as nat)
        &&& next.active@ == Seq::new(self.players@.len(), |i: int| true)
        &&& next.players@.len() == self.players@.len()
    }

    /// Starts a round with each player placed at its spawn.
    pub fn initialize_at(&mut self, spawns: &Vec<Spawn>)
        requires
            old(self).wf(),
            old(self).spawns_fit(spawns@),
        ensures
            final(self).wf(),
            old(self).round_started(final(self)),
            forall|i: int| 0 <= i < old(self).players@.len() ==> #[trigger] final(self).players@[i] == spawned(old(self).players@[i], spawns@[i]),
    {
        self.begin_round();
        let n = self.players.len();
        let mut i: usize = 0;
        while i < n
            invariant
                n == old(self).players@.len(),
                i <= n,
                old(self).wf(),
                old(self).spawns_fit(spawns@),
                self.grid.wf(),
                self.grid.width == self.width,
                self.grid.height == self.height,
                old(self).round_started(self),
                forall|k: int| 0 <= k < i ==> #[trigger] self.players@[k] == spawned(old(self).players@[k], spawns@[k]),
                forall|k: int| i <= k < n ==> #[trigger] self.players@[k] == old(self).players@[k],
            decreases n - i,
        {
            assert(old(self).fits(old(self).players@[i as int]));
            self.players[i].initialize_at(spawns[i]);
            i = i + 1;
        }
        assert forall|k: int| 0 <= k < n implies self.fits(#[trigger] self.players@[k]) by {
            assert(old(self).fits(old(self).players@[k]));
        }
        assert forall|a: int, b: int|
            0 <= a < n && 0 <= b < n && a != b implies #[trigger] self.players@[a].uuid
            != #[trigger] self.players@[b].uuid by {
            assert(self.players@[a] == spawned(old(self).players@[a], spawns@[a]));
            assert(self.players@[b] == spawned(old(self).players@[b], spawns@[b]));
        }
    }

    /// Starts a round with each player placed pseudo-randomly, clear of the
    /// margins, with a heading that is a multiple of the turn rate.
    pub fn initialize(&mut self)
        requires
            old(self).wf(),
        ensures
            final(self).wf(),
            old(self).round_started(final(self)),
            forall|i: int|
                0 <= i < old(self).players@.len() ==> respawned(old(self).players@[i], #[trigger] final(self).players@[i]),
    {
        self.begin_round();
        let n = self.players.len();
        let mut i: usize = 0;
        while i < n
            invariant
                n == old(self).players@.len(),
                i <= n,
                old(self).wf(),
                self.grid.wf(),
                self.grid.width == self.width,
                self.grid.height == self.height,
                old(self).round_started(self),
                forall|k: int| 0 <= k < i ==> respawned(old(self).players@[k], #[trigger] self.players@[k]),
                forall|k: int| i <= k < n ==> #[trigger] self.players@[k] == old(self).players@[k],
            decreases n - i,
        {
            assert(old(self).fits(old(self).players@[i as int]));
            self.players[i].initialize();
            i = i + 1;
        }
        assert forall|k: int| 0 <= k < n implies self.fits(#[trigger] self.players@[k]) by {
            assert(old(self).fits(old(self).players@[k]));
            assert(respawned(old(self).players@[k], self.players@[k]));
        }
        assert forall|a: int, b: int|
            0 <= a < n && 0 <= b < n && a != b implies #[trigger] self.players@[a].uuid
            != #[trigger] self.players@[b].uuid by {
            assert(respawned(old(self).players@[a], self.players@[a]));
            assert(respawned(old(self).players@[b], self.players@[b]));
        }
    }

    /// Clears the grid, sets the round's mode and makes every player active.
    fn begin_round(&mut self)
        requires
            old(self).wf(),
        ensures
            old(self).round_started(final(self)),
            final(self).grid.wf(),
            final(self).grid.width == final(self).width,
            final(self).grid.height == final(self).height,
            final(self).players@ == old(self).players@,
    {
        self.single_player = self.players.len() == 1;
        self.grid.clear();
        let n = self.players.len();
        let mut act: Vec<bool> = Vec::new();
        let mut i: usize = 0;
        while i < n
            invariant
                i <= n,
                act@ == Seq::new(i as nat, |k: int| true),
            decreases n - i,
        {
            act.push(true);
            i = i + 1;
            assert(act@ =~= Seq::new(i as nat, |k: int| true));
        }
        self.active = act;
    }

    /// A snapshot of every active player, in joining order.
    pub fn state(&self) -> (r: Vec<PlayerState>)
        requires
            self.wf(),
        ensures
            r@ == snapshot(self.players@, self.active@),
    {
        let mut r: Vec<PlayerState> = Vec::new();
        let mut i: usize = 0;
        while i < self.players.len()
            invariant
                self.wf(),
                i <= self.players@.len(),
                r@ == snapshot(self.players@.take(i as int), self.active@.take(i as int)),
            decreases self.players@.len() - i,
        {
            let p = &self.players[i];
            assert(self.players@.take(i + 1).drop_last() =~= self.players@.take(i as int));
            assert(self.active@.take(i + 1).take(i as int) =~= self.active@.take(i as int));
            if self.active[i] {
                r.push(PlayerState { id: p.uuid, x: p.x, y: p.y, invisible: p.invisible });
            }
            i = i + 1;
        }
        assert(self.players@.take(i as int) =~= self.players@);
        assert(self.active@.take(i as int) =~= self.active@);
        r
    }

    /// `(id, points)` of every player, active or not, for the end-of-round summary.
    pub fn state_ended(&self) -> (r: Vec<(u128, u64)>)
        requires
            self.wf(),
        ensures
            r@ == self.players@.map_values(|p: Player| (p.uuid, p.points)),
    {
        let mut r: Vec<(u128, u64)> = Vec::new();
        let mut i: usize = 0;
        while i < self.players.len()
            invariant
                i <= self.players@.len(),
                r@ == self.players@.take(i as int).map_values(|p: Player| (p.uuid, p.points)),
            decreases self.players@.len() - i,
        {
            r.push((self.players[i].uuid, self.players[i].points));
            i = i + 1;
            assert(r@ =~= self.players@.take(i as int).map_values(|p: Player| (p.uuid, p.points)));
        }
        assert(self.players@.take(i as int) =~= self.players@);
        r
    }

    /// The winner of a finished round: the lone player of a single-player
    /// round, else the last active player; `None` while the round runs or
    /// when nobody is left.
    pub fn get_winner(&self) -> (r: Option<u128>)
        requires
            self.wf(),
        ensures
            self.is_running() ==> r is None,
            !self.is_running() && self.single_player ==> r == if self.players@.len() > 0 {
                Some(self.players@[0].uuid)
            } else {
                None::<u128>
            },
            !self.is_running() && !self.single_player ==> (r is None <==> self.num_active() == 0),
            !self.is_running() && !self.single_player ==> forall|k: int|
                0 <= k < self.players@.len() && self.active@[k] ==> r == Some(#[trigger] self.players@[k].uuid),
    {
        if self.running() {
            return None;
        }
        if self.single_player {
            if self.players.len() > 0 {
                return Some(self.players[0].uuid);
            }
            return None;
        }
        let n = self.players.len();
        let mut k: usize = 0;
        while k < n && !self.active[k]
            invariant
                self.wf(),
                n == self.players@.len(),
                k <= n,
                forall|i: int| 0 <= i < k ==> !self.active@[i],
            decreases n - k,
        {
            k = k + 1;
        }
        if k == n {
            proof {
                lemma_count_none(self.active@);
            }
            None
        } else {
            proof {
                lemma_count_clear(self.active@, k as int);
                assert forall|i: int| 0 <= i < n && self.active@[i] implies i == k by {
                    lemma_count_unique(self.active@, i, k as int);
                }
            }
            Some(self.players[k].uuid)
        }
    }

    /// The per-player pass of a tick; returns the players marked for removal.
    fn advance_all(&mut self) -> (marked: Vec<usize>)
        requires
            old(self).wf(),
        ensures
            final(self).wf(),
            final(self).same_setup(old(self)),
            final(self).single_player == old(self).single_player,
            final(self).active@ == old(self).active@,
            final(self).players@ == old(self).pass(old(self).players@.len()).0,
            final(self).grid.cells() == old(self).pass(old(self).players@.len()).1,
            marked@ == old(self).pass(old(self).players@.len()).2,
            marks_ok(marked@, old(self).active@),
    {
        let n = self.players.len();
        let mut marked: Vec<usize> = Vec::new();
        let mut i: usize = 0;
        while i < n
            invariant
                old(self).wf(),
                n == old(self).players@.len(),
                i <= n,
                self.same_setup(old(self)),
                self.single_player == old(self).single_player,
                self.active@ == old(self).active@,
                self.grid.wf(),
                self.grid.width == self.width,
                self.grid.height == self.height,
                self.players@.len() == n,
                forall|k: int| 0 <= k < n ==> self.fits(#[trigger] self.players@[k]),
                forall|k: int| 0 <= k < n ==> #[trigger] self.players@[k].uuid == old(self).players@[k].uuid,
                self.players@ == old(self).pass(i as nat).0,
                self.grid.cells() == old(self).pass(i as nat).1,
                marked@ == old(self).pass(i as nat).2,
                forall|a: int, b: int| 0 <= a < b < marked@.len() ==> marked@[a] < marked@[b],
                forall|a: int| 0 <= a < marked@.len() ==> marked@[a] < i && old(self).active@[marked@[a] as int],
            decreases n - i,
        {
            if self.active[i] {
                self.players[i].tick(&self.steps);
                if !self.players[i].invisible {
                    let wx = pixel_range(self.players[i].x, self.line_width, self.width);
                    let wy = pixel_range(self.players[i].y, self.line_width, self.height);
                    match (wx, wy) {
                        (Some(wx), Some(wy)) => {
                            let px = self.players[i].x_prev_range;
                            let py = self.players[i].y_prev_range;
                            let id = self.players[i].uuid;
                            let hit = self.grid.stamp(id, wx, wy, px, py);
                            self.players[i].x_prev_range = wx;
                            self.players[i].y_prev_range = wy;
                            if hit {
                                marked.push(i);
                            }
                        },
                        _ => {
                            marked.push(i);
                        },
                    }
                }
            }
            i = i + 1;
        }
        assert forall|a: int, b: int|
            0 <= a < n && 0 <= b < n && a != b implies #[trigger] self.players@[a].uuid
            != #[trigger] self.players@[b].uuid by {
            assert(self.players@[a].uuid == old(self).players@[a].uuid);
            assert(self.players@[b].uuid == old(self).players@[b].uuid);
        }
        marked
    }

    /// Removes the marked players from the round; in a multiplayer round each
    /// is scored as it leaves, by the number of players then left.
    fn evict(&mut self, marked: &Vec<usize>)
        requires
            old(self).wf(),
            marks_ok(marked@, old(self).active@),
        ensures
            final(self).wf(),
            final(self).same_setup(old(self)),
            final(self).single_player == old(self).single_player,
            final(self).grid == old(self).grid,
            final(self).active@ == evicted(old(self).active@, marked@),
            final(self).num_active() + marked@.len() == old(self).num_active(),
            final(self).players@.len() == old(self).players@.len(),
            forall|i: int|
                0 <= i < old(self).players@.len() ==> #[trigger] final(self).players@[i] == with_points(old(self).players@[i], final(self).players@[i].points),
            forall|j: int|
                0 <= j < marked@.len() ==> final(self).players@[marked@[j] as int].points == scored(old(self).players@[marked@[j] as int].points, old(self).single_player, old(self).players@.len(), (old(self).num_active() - j) as nat),
            forall|i: int|
                0 <= i < old(self).players@.len() && !marked@.contains(i as usize)
                    ==> #[trigger] final(self).players@[i].points == old(self).players@[i].points,
    {
        let n = self.players.len();
        let a = count_flags(&self.active);
        proof {
            lemma_count_le_len(old(self).active@);
        }
        let mut j: usize = 0;
        while j < marked.len()
            invariant
                old(self).wf(),
                marks_ok(marked@, old(self).active@),
                n == old(self).players@.len(),
                a == old(self).num_active(),
                a <= n,
                j <= marked@.len(),
                self.same_setup(old(self)),
                self.single_player == old(self).single_player,
                self.grid == old(self).grid,
                self.active@ == evicted(old(self).active@, marked@.take(j as int)),
                count_true(self.active@) + j == a,
                self.players@.len() == n,
                forall|i: int| 0 <= i < n ==> #[trigger] self.players@[i] == with_points(old(self).players@[i], self.players@[i].points),
                forall|jj: int|
                    0 <= jj < j ==> self.players@[marked@[jj] as int].points == scored(old(self).players@[marked@[jj] as int].points, old(self).single_player, n as nat, (a - jj) as nat),
                forall|i: int|
                    0 <= i < n && !marked@.take(j as int).contains(i as usize)
                        ==> #[trigger] self.players@[i].points == old(self).players@[i].points,
            decreases marked@.len() - j,
        {
            let k = marked[j];
            proof {
                if marked@.take(j as int).contains(k) {
                    let jj = choose|jj: int| 0 <= jj < j && #[trigger] marked@.take(j as int)[jj] == k;
                    assert(marked@[jj] < marked@[j as int]);
                }
                assert(self.active@[k as int]);
                lemma_count_clear(self.active@, k as int);
            }
            self.active.set(k, false);
            if !self.single_player {
                let e = (n - (a - j)) as u32;
                let award = power_of_two(e);
                self.players[k].points = self.players[k].points.saturating_add(award);
            }
            proof {
                assert(marked@.take(j + 1) =~= marked@.take(j as int).push(k));
                assert forall|i: int| 0 <= i < self.active@.len() implies #[trigger] self.active@[i] == (
                old(self).active@[i] && !marked@.take(j + 1).contains(i as usize)) by {
                    if i == k as int {
                        assert(marked@.take(j + 1)[j as int] == k);
                    } else {
                        if marked@.take(j + 1).contains(i as usize) {
                            let jj = choose|jj: int| 0 <= jj < j + 1 && #[trigger] marked@.take(j + 1)[jj] == i as usize;
                            assert(marked@.take(j as int)[jj] == i as usize);
                        }
                        if marked@.take(j as int).contains(i as usize) {
                            let jj = choose|jj: int| 0 <= jj < j && #[trigger] marked@.take(j as int)[jj] == i as usize;
                            assert(marked@.take(j + 1)[jj] == i as usize);
                        }
                    }
                }
                assert(self.active@ =~= evicted(old(self).active@, marked@.take(j + 1)));
                assert forall|i: int|
                    0 <= i < n && !marked@.take(j + 1).contains(i as usize) implies #[trigger] self.players@[i].points
                    == old(self).players@[i].points by {
                    assert(marked@.take(j as int).contains(i as usize) ==> marked@.take(j + 1).contains(
                        i as usize,
                    )) by {
                        if marked@.take(j as int).contains(i as usize) {
                            let jj = choose|jj: int| 0 <= jj < j && #[trigger] marked@.take(j as int)[jj] == i as usize;
                            assert(marked@.take(j + 1)[jj] == i as usize);
                        }
                    }
                    assert(marked@.take(j + 1)[j as int] == k);
                }
                assert forall|jj: int| 0 <= jj < j + 1 implies self.players@[marked@[jj] as int].points == scored(old(self).players@[marked@[jj] as int].points, old(self).single_player, n as nat, (a - jj) as nat) by {
                    if jj < j {
                        assert(marked@[jj] < marked@[j as int]);
                    }
                }
            }
            j = j + 1;
        }
        assert(marked@.take(marked@.len() as int) =~= marked@);
        assert forall|a: int, b: int|
            0 <= a < n && 0 <= b < n && a != b implies #[trigger] self.players@[a].uuid
            != #[trigger] self.players@[b].uuid by {
            assert(self.players@[a].uuid == old(self).players@[a].uuid);
            assert(self.players@[b].uuid == old(self).players@[b].uuid);
        }
        assert forall|i: int| 0 <= i < n implies self.fits(#[trigger] self.players@[i]) by {
            assert(old(self).fits(old(self).players@[i]));
        }
    }

    /// In a multiplayer round with a lone active player left, awards that
    /// survivor the win bonus.
    fn crown_survivor(&mut self)
        requires
            old(self).wf(),
        ensures
            final(self).wf(),
            final(self).same_setup(old(self)),
            final(self).single_player == old(self).single_player,
            final(self).grid == old(self).grid,
            final(self).active@ == old(self).active@,
            final(self).players@.len() == old(self).players@.len(),
            forall|i: int|
                0 <= i < old(self).players@.len() ==> #[trigger] final(self).players@[i] == with_points(old(self).players@[i], if !old(self).single_player && old(self).num_active() == 1 && old(self).active@[i] {
                        add_award(old(self).players@[i].points, elimination_award(old(self).players@.len(), 1))
                    } else {
                        old(self).players@[i].points
                    }),
    {
        if self.single_player {
            return;
        }
        let n = self.players.len();
        if count_flags(&self.active) != 1 {
            return;
        }
        let mut k: usize = 0;
        while k < n && !self.active[k]
            invariant
                k <= n,
                n == self.active@.len(),
                forall|i: int| 0 <= i < k ==> !self.active@[i],
            decreases n - k,
        {
            k = k + 1;
        }
        proof {
            if k == n {
                lemma_count_none(self.active@);
            }
            assert forall|i: int| 0 <= i < n && self.active@[i] implies i == k by {
                lemma_count_unique(self.active@, i, k as int);
            }
            lemma_count_le_len(self.active@);
        }
        let award = power_of_two((n - 1) as u32);
        self.players[k].points = self.players[k].points.saturating_add(award);
        assert forall|a: int, b: int|
            0 <= a < n && 0 <= b < n && a != b implies #[trigger] self.players@[a].uuid
            != #[trigger] self.players@[b].uuid by {
            assert(self.players@[a].uuid == old(self).players@[a].uuid);
            assert(self.players@[b].uuid == old(self).players@[b].uuid);
        }
        assert forall|i: int| 0 <= i < n implies self.fits(#[trigger] self.players@[i]) by {
            assert(old(self).fits(old(self).players@[i]));
        }
    }

    /// Advances the round by one tick: every active player moves and claims
    /// cells, the players that hit a wall or a trail leave the round, scored
    /// in a multiplayer round, and a lone survivor gets the win bonus.
    pub fn tick(&mut self)
        requires
            old(self).wf(),
        ensures
            final(self).wf(),
            old(self).tick_outcome(final(self)),
    {
        let ghost g0 = *self;
        let (xprev, yprev) = self.prev_windows();
        let passed = self.advance_all();
        let marked = self.add_crossings(&passed, &xprev, &yprev, Ghost(g0));
        self.evict(&marked);
        let ghost after = *self;
        self.crown_survivor();
        assert forall|j: int| 0 <= j < marked@.len() implies !after.active@[marked@[j] as int] by {
            assert(marked@.contains(marked@[j]));
        }
    }

    /// The previous windows of every player.
    fn prev_windows(&self) -> (r: (Vec<Span>, Vec<Span>))
        ensures
            r.0@.len() == self.players@.len(),
            r.1@.len() == self.players@.len(),
            forall|i: int| 0 <= i < self.players@.len() ==> #[trigger] r.0@[i] == self.players@[i].x_prev_range,
            forall|i: int| 0 <= i < self.players@.len() ==> #[trigger] r.1@[i] == self.players@[i].y_prev_range,
    {
        let mut xs: Vec<Span> = Vec::new();
        let mut ys: Vec<Span> = Vec::new();
        let mut i: usize = 0;
        while i < self.players.len()
            invariant
                i <= self.players@.len(),
                xs@.len() == i,
                ys@.len() == i,
                forall|j: int| 0 <= j < i ==> #[trigger] xs@[j] == self.players@[j].x_prev_range,
                forall|j: int| 0 <= j < i ==> #[trigger] ys@[j] == self.players@[j].y_prev_range,
            decreases self.players@.len() - i,
        {
            xs.push(self.players[i].x_prev_range);
            ys.push(self.players[i].y_prev_range);
            i = i + 1;
        }
        (xs, ys)
    }

    /// Adds to the players marked by the pass those whose new cells were
    /// claimed later in the same tick by another player.
    fn add_crossings(&self, marked: &Vec<usize>, xprev: &Vec<Span>, yprev: &Vec<Span>, g: Ghost<Game>) -> (r: Vec<usize>)
        requires
            self.wf(),
            g@.wf(),
            self.active@ == g@.active@,
            self.line_width == g@.line_width,
            self.width == g@.width,
            self.height == g@.height,
            self.players@ == g@.pass(g@.players@.len()).0,
            self.grid.cells() == g@.pass(g@.players@.len()).1,
            marked@ == g@.pass(g@.players@.len()).2,
            marks_ok(marked@, g@.active@),
            xprev@.len() == g@.players@.len(),
            yprev@.len() == g@.players@.len(),
            forall|i: int| 0 <= i < g@.players@.len() ==> #[trigger] xprev@[i] == g@.players@[i].x_prev_range,
                forall|i: int| 0 <= i < g@.players@.len() ==> #[trigger] yprev@[i] == g@.players@[i].y_prev_range,
        ensures
            r@ == g@.removals(g@.pass(g@.players@.len()), g@.players@.len()),
            marks_ok(r@, g@.active@),
    {
        let ghost s = g@.pass(g@.players@.len());
        let n = self.players.len();
        let mut r: Vec<usize> = Vec::new();
        let mut i: usize = 0;
        while i < n
            invariant
                self.wf(),
                n == self.players@.len(),
                n == g@.players@.len(),
                i <= n,
                s == g@.pass(g@.players@.len()),
                self.active@ == g@.active@,
                self.line_width == g@.line_width,
                self.width == g@.width,
                self.height == g@.height,
                self.players@ == s.0,
                self.grid.cells() == s.1,
                marked@ == s.2,
                marks_ok(marked@, g@.active@),
                xprev@.len() == n,
                yprev@.len() == n,
                forall|j: int| 0 <= j < n ==> #[trigger] xprev@[j] == g@.players@[j].x_prev_range,
                forall|j: int| 0 <= j < n ==> #[trigger] yprev@[j] == g@.players@[j].y_prev_range,
                r@ == g@.removals(s, i as nat),
                forall|a: int, b: int| 0 <= a < b < r@.len() ==> r@[a] < r@[b],
                forall|a: int| 0 <= a < r@.len() ==> r@[a] < i && g@.active@[r@[a] as int],
            decreases n - i,
        {
            let mut leave = contains_index(marked, i);
            if !leave && self.active[i] && !self.players[i].invisible {
                let p = &self.players[i];
                match (pixel_range(p.x, self.line_width, self.width), pixel_range(p.y, self.line_width, self.height)) {
                    (Some(wx), Some(wy)) => {
                        leave = self.grid.foreign_in(p.uuid, wx, wy, xprev[i], yprev[i]);
                    },
                    _ => {},
                }
            }
            proof {
                if marked@.contains(i) {
                    let a = choose|a: int| 0 <= a < marked@.len() && marked@[a] == i;
                }
            }
            if leave {
                r.push(i);
            }
            i = i + 1;
        }
        r
    }
}

impl Player {
    /// Whether the player is as `Player::new` makes it for a field of
    /// `x_max` by `y_max` pixels.
    pub open spec fn is_fresh(&self, x_max: u32, y_max: u32, line_width: u32, turn_rate: u32) -> bool {
        &&& self.wf()
        &&& !self.host
        &&& self.x == 0 && self.y == 0 && self.heading == 0
        &&& self.x_max == x_max && self.y_max == y_max
        &&& self.line_width == line_width && self.turn_rate == turn_rate
        &&& self.direction == Direction::Unchanged
        &&& !self.invisible
        &&& self.points == 0
    }
}

/// Later eliminations earn strictly more: a player eliminated while fewer
/// players are active is awarded more than one eliminated while more were;
/// the award is `2^(total - active)`, counting the player itself among the
/// active, so the `k`-th elimination of a round of `total` earns `2^(k - 1)`.
pub proof fn lemma_later_elimination_earns_more(total: nat, earlier_active: nat, later_active: nat)
    requires
        1 <= later_active < earlier_active <= total,
    ensures
        elimination_award(total, later_active) > elimination_award(total, earlier_active),
        elimination_award(total, later_active) == pow2((total - later_active) as nat),
        elimination_award(total, total) == 1,
{
    lemma_pow2_strictly_increases((total - earlier_active) as nat, (total - later_active) as nat);
    lemma2_to64();
}

/// The per-player pass leaves every player's id, host flag and points as
/// they were.
pub proof fn lemma_pass_keeps_points(g: Game, n: nat)
    requires
        n <= g.players@.len(),
        g.players@.len() == g.active@.len(),
    ensures
        g.pass(n).0.len() == g.players@.len(),
        forall|i: int|
            0 <= i < g.players@.len() ==> {
                &&& (#[trigger] g.pass(n).0[i]).points == g.players@[i].points
                &&& g.pass(n).0[i].uuid == g.players@[i].uuid
                &&& g.pass(n).0[i].host == g.players@[i].host
            },
    decreases n,
{
    if n > 0 {
        lemma_pass_keeps_points(g, (n - 1) as nat);
    }
}

/// A single-player round runs exactly while its lone player is active, and
/// a tick never awards points in it.
pub proof fn lemma_single_player_round(g: Game, next: Game)
    requires
        g.wf(),
        g.single_player,
        g.players@.len() == 1,
        g.tick_outcome(&next),
    ensures
        next.is_running() <==> next.active@[0],
        forall|i: int| 0 <= i < g.players@.len() ==> #[trigger] next.players@[i].points == g.players@[i].points,
{
    lemma_pass_keeps_points(g, 1);
    let a = next.active@;
    assert(a.drop_last().len() == 0);
    assert(count_true(a.drop_last()) == 0);
    assert forall|i: int| 0 <= i < g.players@.len() implies #[trigger] next.players@[i].points == g.players@[i].points by {
        let marked = g.removals(g.pass(1), 1);
        if marked.contains(i as usize) {
            let j = choose|j: int| 0 <= j < marked.len() && marked[j] == i as usize;
        }
    }
}

/// The per-player pass over the first `n` players touches only those
/// players: each active one gets the heading of one tick of its own.
proof fn lemma_pass_headings(g: Game, n: nat)
    requires
        n <= g.players@.len(),
        g.players@.len() == g.active@.len(),
    ensures
        g.pass(n).0.len() == g.players@.len(),
        forall|k: int| n <= k < g.players@.len() ==> #[trigger] g.pass(n).0[k] == g.players@[k],
        forall|k: int|
            0 <= k < n ==> (#[trigger] g.pass(n).0[k]).heading == if g.active@[k] {
                ticked(g.players@[k], g.steps@).heading
            } else {
                g.players@[k].heading
            },
    decreases n,
{
    if n > 0 {
        lemma_pass_headings(g, (n - 1) as nat);
    }
}

/// A turn intent shows on the next tick: an active player whose cadence
/// lets it move this tick comes out of it with its heading turned once by
/// its intent.
pub proof fn lemma_intent_shows_next_tick(g: Game, next: Game, k: int)
    requires
        g.wf(),
        g.tick_outcome(&next),
        0 <= k < g.players@.len(),
        g.active@[k],
        g.players@[k].stop_count <= 100,
    ensures
        next.players@[k].heading == turned(g.players@[k].heading, g.turn_rate, g.players@[k].direction),
{
    lemma_pass_headings(g, g.players@.len());
    assert(next.players@[k] == with_points(g.pass(g.players@.len()).0[k], next.players@[k].points));
    assert(g.fits(g.players@[k]));
}

/// The grid after any part of the per-player pass keeps the field's shape.
proof fn lemma_pass_shape(g: Game, k: nat)
    requires
        g.wf(),
        k <= g.players@.len(),
    ensures
        g.pass(k).0.len() == g.players@.len(),
        g.pass(k).1.len() == g.height,
        forall|y: int| 0 <= y < g.height ==> (#[trigger] g.pass(k).1[y]).len() == g.width,
    decreases k,
{
    if k > 0 {
        lemma_pass_shape(g, (k - 1) as nat);
    }
}

/// Player `a`, once handled by the pass, is left alone by the rest of it.
proof fn lemma_pass_settled(g: Game, a: int, k: nat)
    requires
        g.wf(),
        0 <= a < k <= g.players@.len(),
    ensures
        g.pass(k).0[a] == g.pass((a + 1) as nat).0[a],
    decreases k,
{
    lemma_pass_shape(g, k);
    if k > a + 1 {
        lemma_pass_settled(g, a, (k - 1) as nat);
        lemma_pass_shape(g, (k - 1) as nat);
    }
}

/// A player marked by some part of the pass stays marked.
proof fn lemma_marks_grow(g: Game, k1: nat, k2: nat, v: usize)
    requires
        g.wf(),
        k1 <= k2 <= g.players@.len(),
        g.pass(k1).2.contains(v),
    ensures
        g.pass(k2).2.contains(v),
    decreases k2,
{
    if k2 > k1 {
        lemma_marks_grow(g, k1, (k2 - 1) as nat, v);
        let m = g.pass((k2 - 1) as nat).2;
        let w = choose|w: int| 0 <= w < m.len() && m[w] == v;
        assert(g.pass(k2).2[w] == v);
    }
}

/// A cell claimed by player `m` in the pass is afterwards held by `m` or
/// by a player handled after `m`.
proof fn lemma_cell_owner_later(g: Game, i: nat, k: nat, x: int, y: int, m: int)
    requires
        g.wf(),
        i < k <= g.players@.len(),
        0 <= y < g.height,
        0 <= x < g.width,
        0 <= m <= i,
        g.pass(i + 1).1[y][x] == g.players@[m].uuid,
    ensures
        exists|j: int| m <= j < g.players@.len() && g.pass(k).1[y][x] == #[trigger] g.players@[j].uuid,
    decreases k,
{
    if k == i + 1 {
        assert(g.pass(k).1[y][x] == g.players@[m].uuid);
    } else {
        lemma_cell_owner_later(g, i, (k - 1) as nat, x, y, m);
        lemma_pass_shape(g, (k - 1) as nat);
        lemma_pass_headings(g, (k - 1) as nat);
        lemma_pass_keeps_points(g, (k - 1) as nat);
        let j = choose|j: int| m <= j < g.players@.len() && g.pass((k - 1) as nat).1[y][x] == #[trigger] g.players@[j].uuid;
        let t = k - 1;
        if g.pass(k).1[y][x] != g.pass((k - 1) as nat).1[y][x] {
            assert(g.pass(k).1[y][x] == g.players@[t].uuid);
        }
    }
}

/// A removal condition of player `i` puts it among the removals.
proof fn lemma_removals_has(g: Game, s: Pass, k: nat, i: int)
    requires
        0 <= i < k,
        s.2.contains(i as usize) || g.crossed(s, i),
    ensures
        g.removals(s, k).contains(i as usize),
    decreases k,
{
    let r = g.removals(s, (k - 1) as nat);
    if i == k - 1 {
        assert(g.removals(s, k)[r.len() as int] == i as usize);
    } else {
        lemma_removals_has(g, s, (k - 1) as nat, i);
        let w = choose|w: int| 0 <= w < r.len() && r[w] == i as usize;
        assert(g.removals(s, k)[w] == i as usize);
    }
}

/// Trails that cross on one tick remove both players: when two active
/// players, both visible after their move and with windows inside the
/// field, claim a common cell that lies in neither's previous window,
/// neither is active after the tick, whichever was handled first.
pub proof fn lemma_crossing_removes_both(g: Game, next: Game, a: int, b: int, x: int, y: int, ax: Span, ay: Span, bx: Span, by: Span)
    requires
        g.wf(),
        g.tick_outcome(&next),
        0 <= a < g.players@.len(),
        0 <= b < g.players@.len(),
        a != b,
        g.active@[a],
        g.active@[b],
        !ticked(g.players@[a], g.steps@).invisible,
        !ticked(g.players@[b], g.steps@).invisible,
        window(ticked(g.players@[a], g.steps@).x, g.line_width, g.width) == Some(ax),
        window(ticked(g.players@[a], g.steps@).y, g.line_width, g.height) == Some(ay),
        window(ticked(g.players@[b], g.steps@).x, g.line_width, g.width) == Some(bx),
        window(ticked(g.players@[b], g.steps@).y, g.line_width, g.height) == Some(by),
        in_span(x, ax) && in_span(y, ay),
        in_span(x, bx) && in_span(y, by),
        !(in_span(x, g.players@[a].x_prev_range) && in_span(y, g.players@[a].y_prev_range)),
        !(in_span(x, g.players@[b].x_prev_range) && in_span(y, g.players@[b].y_prev_range)),
    ensures
        !next.active@[a],
        !next.active@[b],
{
    if a < b {
        lemma_crossing_order(g, next, a, b, x, y, ax, ay, bx, by);
    } else {
        lemma_crossing_order(g, next, b, a, x, y, bx, by, ax, ay);
    }
}

proof fn lemma_crossing_order(g: Game, next: Game, a: int, b: int, x: int, y: int, ax: Span, ay: Span, bx: Span, by: Span)
    requires
        g.wf(),
        g.tick_outcome(&next),
        0 <= a < b < g.players@.len(),
        g.active@[a],
        g.active@[b],
        !ticked(g.players@[a], g.steps@).invisible,
        !ticked(g.players@[b], g.steps@).invisible,
        window(ticked(g.players@[a], g.steps@).x, g.line_width, g.width) == Some(ax),
        window(ticked(g.players@[a], g.steps@).y, g.line_width, g.height) == Some(ay),
        window(ticked(g.players@[b], g.steps@).x, g.line_width, g.width) == Some(bx),
        window(ticked(g.players@[b], g.steps@).y, g.line_width, g.height) == Some(by),
        in_span(x, ax) && in_span(y, ay),
        in_span(x, bx) && in_span(y, by),
        !(in_span(x, g.players@[a].x_prev_range) && in_span(y, g.players@[a].y_prev_range)),
        !(in_span(x, g.players@[b].x_prev_range) && in_span(y, g.players@[b].y_prev_range)),
    ensures
        !next.active@[a],
        !next.active@[b],
{
    let n = g.players@.len();
    let s = g.pass(n);
    let pa = ticked(g.players@[a], g.steps@);
    let pb = ticked(g.players@[b], g.steps@);
    assert(g.fits(g.players@[a]));
    assert(g.fits(g.players@[b]));
    assert(0 <= x < g.width && 0 <= y < g.height);
    // Player `a` claims the cell.
    lemma_pass_headings(g, a as nat);
    lemma_pass_shape(g, a as nat);
    assert(g.pass(a as nat).0[a] == g.players@[a]);
    assert(g.pass((a + 1) as nat).1[y][x] == g.players@[a].uuid);
    // Player `b` finds it claimed, and claims it in turn.
    lemma_cell_owner_later(g, a as nat, b as nat, x, y, a);
    let j = choose|j: int| a <= j < n && g.pass(b as nat).1[y][x] == #[trigger] g.players@[j].uuid;
    assert(g.fits(g.players@[j]));
    lemma_pass_headings(g, b as nat);
    lemma_pass_shape(g, b as nat);
    assert(g.pass(b as nat).0[b] == g.players@[b]);
    assert(collides(g.pass(b as nat).1, bx, by, pb.x_prev_range, pb.y_prev_range));
    assert(g.pass((b + 1) as nat).2 == g.pass(b as nat).2.push(b as usize));
    assert(g.pass((b + 1) as nat).2[g.pass(b as nat).2.len() as int] == b as usize);
    lemma_marks_grow(g, (b + 1) as nat, n, b as usize);
    lemma_removals_has(g, s, n, b);
    // Afterwards the cell no longer holds the id of `a`.
    assert(g.pass((b + 1) as nat).1[y][x] == g.players@[b].uuid);
    lemma_cell_owner_later(g, b as nat, n, x, y, b);
    let k = choose|k: int| b <= k < n && s.1[y][x] == #[trigger] g.players@[k].uuid;
    assert(s.1[y][x] != g.players@[a].uuid);
    lemma_pass_settled(g, a, n);
    assert(s.0[a] == (Player { x_prev_range: ax, y_prev_range: ay, ..pa }));
    assert(g.crossed(s, a));
    lemma_removals_has(g, s, n, a);
}

/// Wall contact is a collision: an active player, visible after its move,
/// whose move ends on a wall of the field is not active after the tick,
/// whatever the trail thickness.
pub proof fn lemma_wall_contact_removes(g: Game, next: Game, a: int)
    requires
        g.wf(),
        g.tick_outcome(&next),
        0 <= a < g.players@.len(),
        g.active@[a],
        !ticked(g.players@[a], g.steps@).invisible,
        ({
            let p = ticked(g.players@[a], g.steps@);
            p.x == 0 || p.y == 0 || p.x == g.width * SUBPIXELS || p.y == g.height * SUBPIXELS
        }),
    ensures
        !next.active@[a],
{
    let n = g.players@.len();
    lemma_pass_headings(g, a as nat);
    assert(g.pass(a as nat).0[a] == g.players@[a]);
    assert(g.pass((a + 1) as nat).2 == g.pass(a as nat).2.push(a as usize));
    assert(g.pass((a + 1) as nat).2[g.pass(a as nat).2.len() as int] == a as usize);
    lemma_marks_grow(g, (a + 1) as nat, n, a as usize);
    lemma_removals_has(g, g.pass(n), n, a);
}

/// `p` with `points` points.
pub open spec fn with_points(p: Player, points: u64) -> Player {
    Player { points, ..p }
}

/// Points after an elimination while `active` of `total` players are
/// active: unchanged in a single-player round.
pub open spec fn scored(points: u64, single_player: bool, total: nat, active: nat) -> u64 {
    if single_player {
        points
    } else {
        add_award(points, elimination_award(total, active))
    }
}

/// Whether `v` holds `x`.
fn contains_index(v: &Vec<usize>, x: usize) -> (r: bool)
    ensures
        r == v@.contains(x),
{
    let mut i: usize = 0;
    while i < v.len()
        invariant
            i <= v@.len(),
            forall|j: int| 0 <= j < i ==> v@[j] != x,
        decreases v@.len() - i,
    {
        if v[i] == x {
            assert(v@[i as int] == x);
            return true;
        }
        i = i + 1;
    }
    false
}

/// The marks of a pass: increasing indices of active players.
pub open spec fn marks_ok(marked: Seq<usize>, active: Seq<bool>) -> bool {
    &&& forall|a: int, b: int| 0 <= a < b < marked.len() ==> marked[a] < marked[b]
    &&& forall|a: int| 0 <= a < marked.len() ==> marked[a] < active.len() && active[marked[a] as int]
}

/// Number of `true` flags.
fn count_flags(flags: &Vec<bool>) -> (r: usize)
    requires
        flags@.len() <= MAX_PLAYERS,
    ensures
        r == count_true(flags@),
        r <= flags@.len(),
{
    let mut c: usize = 0;
    let mut k: usize = 0;
    while k < flags.len()
        invariant
            k <= flags@.len(),
            flags@.len() <= MAX_PLAYERS,
            c == count_true(flags@.take(k as int)),
            c <= k,
        decreases flags@.len() - k,
    {
        assert(flags@.take(k + 1).drop_last() =~= flags@.take(k as int));
        if flags[k] {
            c = c + 1;
        }
        k = k + 1;
    }
    assert(flags@.take(k as int) =~= flags@);
    c
}

/// The occupancy window of a position along one axis, see `window`.
pub fn pixel_range(pos: u64, line_width: u32, dim: usize) -> (r: Option<Span>)
    ensures
        r == window(pos, line_width, dim),
{
    let p2 = 2 * (pos as u128);
    let w = line_width as u128;
    let d = dim as u128;
    assert(w * 1000 <= 0xffff_ffff * 1000) by (nonlinear_arith)
        requires
            w <= 0xffff_ffff,
    {
    }
    assert(d * 2000 <= 0xffff_ffff_ffff_ffff * 2000) by (nonlinear_arith)
        requires
            d <= 0xffff_ffff_ffff_ffff,
    {
    }
    let lw = w * 1000;
    if p2 < lw || p2 + lw > d * 2000 {
        return None;
    }
    let c = pos / SUBPIXELS;
    let half = (line_width / 2) as u64;
    if c < half {
        return None;
    }
    let end = c - half + line_width as u64;
    if end > dim as u64 {
        None
    } else {
        Some(Span { start: (c - half) as usize, end: end as usize })
    }
}

/// `2^e`.
fn power_of_two(e: u32) -> (r: u64)
    requires
        e < MAX_PLAYERS,
    ensures
        r == pow2(e as nat),
{
    proof {
        lemma2_to64();
        lemma2_to64_rest();
    }
    let mut r: u64 = 1;
    let mut k: u32 = 0;
    while k < e
        invariant
            k <= e < MAX_PLAYERS,
            r == pow2(k as nat),
        decreases e - k,
    {
        proof {
            lemma_pow2_unfold((k + 1) as nat);
            if k + 1 < 63 {
                lemma_pow2_strictly_increases((k + 1) as nat, 63);
            }
            lemma2_to64_rest();
        }
        r = r * 2;
        k = k + 1;
    }
    r
}

proof fn lemma_count_le_len(s: Seq<bool>)
    ensures
        count_true(s) <= s.len(),
    decreases s.len(),
{
    if s.len() > 0 {
        lemma_count_le_len(s.drop_last());
    }
}

proof fn lemma_count_clear(s: Seq<bool>, k: int)
    requires
        0 <= k < s.len(),
        s[k],
    ensures
        count_true(s.update(k, false)) + 1 == count_true(s),
    decreases s.len(),
{
    let t = s.update(k, false);
    if k == s.len() - 1 {
        assert(t.drop_last() =~= s.drop_last());
    } else {
        assert(t.drop_last() =~= s.drop_last().update(k, false));
        lemma_count_clear(s.drop_last(), k);
    }
}

proof fn lemma_count_none(s: Seq<bool>)
    requires
        forall|i: int| 0 <= i < s.len() ==> !s[i],
    ensures
        count_true(s) == 0,
    decreases s.len(),
{
    if s.len() > 0 {
        lemma_count_none(s.drop_last());
    }
}

proof fn lemma_count_unique(s: Seq<bool>, i: int, k: int)
    requires
        count_true(s) == 1,
        0 <= i < s.len(),
        0 <= k < s.len(),
        s[i],
        s[k],
    ensures
        i == k,
{
    lemma_count_clear(s, k);
    if i != k {
        lemma_count_clear(s.update(k, false), i);
    }
}

} // verus!
