use crate::chance::new_player_id;
use crate::game::{lemma_pass_keeps_points, snapshot, with_points, Game, MAX_PLAYERS};
use crate::message::{ClientMessage, Delivery, Direction, GridInfo, ServerMessage};
use crate::player::{respawned, steps_fit, Player, DEGREES, MAX_NAME_BYTES};
use vstd::prelude::*;

verus! {

/// Width of a new room's field, before doubling.
pub const ROOM_WIDTH: u32 = 500;

/// Height of a new room's field, before doubling.
pub const ROOM_HEIGHT: u32 = 400;

/// Trail thickness in a new room, in pixels.
pub const ROOM_LINE_WIDTH: u32 = 2;

/// Degrees turned per moving tick in a new room.
pub const ROOM_TURN_RATE: u32 = 2;

/// One live connection of a room and the player it controls.
#[derive(Clone, Debug, PartialEq, Eq)]
pub struct Session {
    pub connection: u64,
    pub player: u128,
    pub name: String,
}

/// Why a join was refused.
#[derive(Copy, Clone, Debug, PartialEq, Eq, Structural)]
pub enum JoinError {
    /// The display name is longer than `MAX_NAME_BYTES` bytes.
    NameTooLong,
    /// The game holds `MAX_PLAYERS` players already.
    RoomFull,
    /// The connection has joined this room already.
    AlreadyJoined,
    /// The id is zero or belongs to a player of the game already.
    IdTaken,
}

/// The display color of the `i`-th player to join: `#` and six hex digits.
pub fn color_for(i: usize) -> (r: &'static str)
    ensures
        r@.len() == 7,
        r@[0] == '#',
{
    match i % 8 {
        0 => {
            proof {
                reveal_strlit("#e91e63");
            }
            "#e91e63"
        },
        1 => {
            proof {
                reveal_strlit("#03a9f4");
            }
            "#03a9f4"
        },
        2 => {
            proof {
                reveal_strlit("#8bc34a");
            }
            "#8bc34a"
        },
        3 => {
            proof {
                reveal_strlit("#ffc107");
            }
            "#ffc107"
        },
        4 => {
            proof {
                reveal_strlit("#9c27b0");
            }
            "#9c27b0"
        },
        5 => {
            proof {
                reveal_strlit("#ff5722");
            }
            "#ff5722"
        },
        6 => {
            proof {
                reveal_strlit("#00bcd4");
            }
            "#00bcd4"
        },
        _ => {
            proof {
                reveal_strlit("#cddc39");
            }
            "#cddc39"
        },
    }
}

/// A room: its code, the connections that joined it and the game they play.
pub struct Room {
    pub name: String,
    pub sessions: Vec<Session>,
    pub game: Game,
}

impl Game {
    /// Whether a player of the game has the id `id`.
    pub open spec fn has_player(&self, id: u128) -> bool {
        exists|k: int| 0 <= k < self.players@.len() && #[trigger] self.players@[k].uuid == id
    }

    /// Whether the player with the id `id` holds the host flag.
    pub open spec fn is_host(&self, id: u128) -> bool {
        exists|k: int| 0 <= k < self.players@.len() && #[trigger] self.players@[k].uuid == id && self.players@[k].host
    }
}

/// Whether `next` is `ps` with the host flags of `hosts` and nothing else changed.
pub open spec fn reflagged(ps: Seq<Player>, next: Seq<Player>, hosts: spec_fn(Player) -> bool) -> bool {
    &&& next.len() == ps.len()
    &&& forall|k: int| 0 <= k < ps.len() ==> #[trigger] next[k] == Player { host: hosts(ps[k]), ..ps[k] }
}

impl Room {
    /// The connection of every session, in joining order.
    pub open spec fn connections(&self) -> Seq<u64> {
        self.sessions@.map_values(|s: Session| s.connection)
    }

    /// Whether connection `c` has a session.
    pub open spec fn has_connection(&self, c: u64) -> bool {
        exists|i: int| 0 <= i < self.sessions@.len() && #[trigger] self.sessions@[i].connection == c
    }

    /// The session of connection `c`, when `has_connection(c)`.
    pub open spec fn session_index(&self, c: u64) -> int {
        choose|i: int| 0 <= i < self.sessions@.len() && #[trigger] self.sessions@[i].connection == c
    }

    /// Whether a session controls the player with id `id`.
    pub open spec fn has_session_for(&self, id: u128) -> bool {
        exists|i: int| 0 <= i < self.sessions@.len() && #[trigger] self.sessions@[i].player == id
    }

    /// Connections and players of sessions are unique, each session's player
    /// is in the game, and at most one player, one with a session, is host.
    pub open spec fn wf(&self) -> bool {
        &&& self.game.wf()
        &&& forall|i: int, j: int|
            0 <= i < self.sessions@.len() && 0 <= j < self.sessions@.len() && i != j ==> {
                &&& #[trigger] self.sessions@[i].connection != #[trigger] self.sessions@[j].connection
                &&& self.sessions@[i].player != self.sessions@[j].player
            }
        &&& forall|i: int| 0 <= i < self.sessions@.len() ==> self.game.has_player(#[trigger] self.sessions@[i].player)
        &&& forall|a: int, b: int|
            0 <= a < self.game.players@.len() && 0 <= b < self.game.players@.len() && (
            #[trigger] self.game.players@[a]).host && (#[trigger] self.game.players@[b]).host ==> a == b
        &&& forall|a: int|
            0 <= a < self.game.players@.len() && (#[trigger] self.game.players@[a]).host ==> self.has_session_for(
                self.game.players@[a].uuid,
            )
    }

    /// Whether `players` is the roster of the room: the player of each
    /// session, in joining order.
    pub open spec fn is_roster(&self, players: Seq<Player>) -> bool {
        &&& players.len() == self.sessions@.len()
        &&& forall|i: int|
            0 <= i < players.len() ==> (#[trigger] players[i]).uuid == self.sessions@[i].player
                && self.game.players@.contains(players[i])
    }

    /// Whether `d` delivers `m` to every connection of the room.
    pub open spec fn to_all(&self, d: Delivery, m: ServerMessage) -> bool {
        d.to@ == self.connections() && d.message == m
    }

    /// An empty room whose game field is twice the given size.
    pub fn new(name: String, width: u32, height: u32, line_width: u32, turn_rate: u32, steps: Vec<(i64, i64)>) -> (r: Room)
        requires
            1 <= width <= u32::MAX / 2,
            1 <= height <= u32::MAX / 2,
            1 <= turn_rate <= DEGREES,
            line_width >= 1,
            steps_fit(steps@, line_width),
        ensures
            r.wf(),
            r.name == name,
            r.sessions@.len() == 0,
            r.game.players@.len() == 0,
            r.game.width == 2 * width && r.game.height == 2 * height,
            r.game.line_width == line_width && r.game.turn_rate == turn_rate,
            r.game.steps@ == steps@,
    {
        Room {
            name,
            sessions: Vec::new(),
            game: Game::new(width as usize * 2, height as usize * 2, line_width, turn_rate, steps),
        }
    }

    /// Whether the room has connections.
    pub fn running(&self) -> (r: bool)
        ensures
            r == (self.sessions@.len() > 0),
    {
        self.sessions.len() > 0
    }

    /// The session of connection `c`.
    pub fn find_session(&self, c: u64) -> (r: Option<usize>)
        requires
            self.wf(),
        ensures
            r is Some <==> self.has_connection(c),
            r matches Some(i) ==> i == self.session_index(c) && i < self.sessions@.len(),
    {
        let mut i: usize = 0;
        while i < self.sessions.len()
            invariant
                self.wf(),
                i <= self.sessions@.len(),
                forall|j: int| 0 <= j < i ==> #[trigger] self.sessions@[j].connection != c,
            decreases self.sessions@.len() - i,
        {
            if self.sessions[i].connection == c {
                assert(self.has_connection(c));
                let ghost k = self.session_index(c);
                assert(self.sessions@[k].connection == c);
                assert(self.sessions@[i as int].connection == c);
                assert(k == i);
                return Some(i);
            }
            i = i + 1;
        }
        None
    }

    /// The connection of every session, in joining order.
    pub fn connection_list(&self) -> (r: Vec<u64>)
        ensures
            r@ == self.connections(),
    {
        let mut to: Vec<u64> = Vec::new();
        let mut i: usize = 0;
        while i < self.sessions.len()
            invariant
                i <= self.sessions@.len(),
                to@ == self.sessions@.take(i as int).map_values(|s: Session| s.connection),
            decreases self.sessions@.len() - i,
        {
            to.push(self.sessions[i].connection);
            i = i + 1;
            assert(to@ =~= self.sessions@.take(i as int).map_values(|s: Session| s.connection));
        }
        assert(self.sessions@.take(i as int) =~= self.sessions@);
        to
    }

    /// A delivery of `message` to every connection.
    pub fn broadcast(&self, message: ServerMessage) -> (r: Delivery)
        ensures
            self.to_all(r, message),
    {
        Delivery { to: self.connection_list(), message }
    }

    /// The player of each session, in joining order.
    pub fn roster(&self) -> (r: Vec<Player>)
        requires
            self.wf(),
        ensures
            self.is_roster(r@),
    {
        let mut r: Vec<Player> = Vec::new();
        let mut i: usize = 0;
        while i < self.sessions.len()
            invariant
                self.wf(),
                i <= self.sessions@.len(),
                r@.len() == i,
                forall|j: int|
                    0 <= j < i ==> (#[trigger] r@[j]).uuid == self.sessions@[j].player && self.game.players@.contains(r@[j]),
            decreases self.sessions@.len() - i,
        {
            let id = self.sessions[i].player;
            assert(self.game.has_player(id));
            match self.game.find(id) {
                Some(k) => {
                    let p = self.game.players[k].copy();
                    assert(self.game.players@[k as int] == p);
                    r.push(p);
                },
                None => {
                    assert(false);
                },
            }
            i = i + 1;
        }
        r
    }

    /// The refusal, if any, of a join by connection `c` under a name of
    /// `name_len` bytes as the player `id`.
    pub open spec fn join_error(&self, c: u64, name_len: nat, id: u128) -> Option<JoinError> {
        if name_len > MAX_NAME_BYTES {
            Some(JoinError::NameTooLong)
        } else if self.game.players@.len() >= MAX_PLAYERS {
            Some(JoinError::RoomFull)
        } else if self.has_connection(c) {
            Some(JoinError::AlreadyJoined)
        } else if id == 0 || self.game.has_player(id) {
            Some(JoinError::IdTaken)
        } else {
            None
        }
    }

    /// Whether `next` is `self` after connection `c` joined as the player
    /// `id` named `name`, and `d` the replies: the join success to `c`, with
    /// the roster including the new player, then the new player to everyone
    /// else. The first to join becomes host.
    pub open spec fn joined(&self, next: &Room, c: u64, name: Seq<char>, id: u128, d: Seq<Delivery>) -> bool {
        let p = next.game.players@.last();
        &&& next.name == self.name
        &&& next.sessions@.len() == self.sessions@.len() + 1
        &&& next.sessions@.drop_last() == self.sessions@
        &&& next.sessions@.last().connection == c
        &&& next.sessions@.last().player == id
        &&& next.sessions@.last().name@ == name
        &&& next.game.same_setup(&self.game)
        &&& next.game.single_player == self.game.single_player
        &&& next.game.grid == self.game.grid
        &&& next.game.active@ == self.game.active@.push(false)
        &&& next.game.players@.len() == self.game.players@.len() + 1
        &&& next.game.players@.drop_last() == self.game.players@
        &&& p.uuid == id
        &&& p.name@ == name
        &&& p.host == (self.sessions@.len() == 0)
        &&& (Player { host: false, ..p }).is_fresh(
            self.game.width as u32,
            self.game.height as u32,
            self.game.line_width,
            self.game.turn_rate,
        )
        &&& d.len() == 2
        &&& d[0].to@ == seq![c]
        &&& (d[0].message matches ServerMessage::JoinSuccess { room_name, grid_info, players, uuid } && room_name@
            == self.name@ && grid_info == (GridInfo {
            width: self.game.width as u32,
            height: self.game.height as u32,
            line_width: self.game.line_width,
        }) && next.is_roster(players@) && uuid == id)
        &&& d[1].to@ == self.connections()
        &&& d[1].message == ServerMessage::NewPlayer(p)
    }

    /// Joins connection `c` as the player `id` named `name`.
    pub fn add_player_with_id(&mut self, c: u64, name: &str, id: u128) -> (r: Result<Vec<Delivery>, JoinError>)
        requires
            old(self).wf(),
        ensures
            final(self).wf(),
            old(self).join_error(c, name.len() as nat, id) matches Some(e) ==> r == Err::<Vec<Delivery>, JoinError>(e)
                && *final(self) == *old(self),
            old(self).join_error(c, name.len() as nat, id) is None ==> (r matches Ok(d) && old(self).joined(
                final(self),
                c,
                name@,
                id,
                d@,
            )),
    {
        if name.len() > MAX_NAME_BYTES {
            return Err(JoinError::NameTooLong);
        }
        if self.game.players.len() >= MAX_PLAYERS {
            return Err(JoinError::RoomFull);
        }
        if self.find_session(c).is_some() {
            return Err(JoinError::AlreadyJoined);
        }
        if id == 0 || self.game.find(id).is_some() {
            return Err(JoinError::IdTaken);
        }
        let first = self.sessions.len() == 0;
        let before = self.connection_list();
        let color = color_for(self.game.players.len());
        self.game.add_player(id, name, color);
        let k = self.game.players.len() - 1;
        if first {
            self.game.players[k].host = true;
        }
        self.sessions.push(Session { connection: c, player: id, name: name.to_owned() });
        proof {
            assert(self.sessions@.drop_last() =~= old(self).sessions@);
            assert(self.game.players@.drop_last() =~= old(self).game.players@);
            assert(self.game.players@[k as int].uuid == id);
            assert forall|i: int| 0 <= i < self.sessions@.len() implies self.game.has_player(#[trigger] self.sessions@[i].player) by {
                if i < old(self).sessions@.len() {
                    assert(old(self).sessions@[i] == self.sessions@[i]);
                    assert(old(self).game.has_player(old(self).sessions@[i].player));
                    let j = choose|j: int| 0 <= j < old(self).game.players@.len() && #[trigger] old(self).game.players@[j].uuid == old(self).sessions@[i].player;
                    assert(self.game.players@[j] == old(self).game.players@[j]);
                } else {
                    assert(self.game.players@[k as int].uuid == id);
                }
            }
            assert forall|i: int, j: int|
                0 <= i < self.sessions@.len() && 0 <= j < self.sessions@.len() && i != j implies {
                    &&& #[trigger] self.sessions@[i].connection != #[trigger] self.sessions@[j].connection
                    &&& self.sessions@[i].player != self.sessions@[j].player
                } by {
                let n = old(self).sessions@.len() as int;
                if i < n && j < n {
                    assert(old(self).sessions@[i] == self.sessions@[i]);
                    assert(old(self).sessions@[j] == self.sessions@[j]);
                } else {
                    let o = if i < n { i } else { j };
                    assert(old(self).sessions@[o] == self.sessions@[o]);
                    assert(old(self).sessions@[o].connection != c);
                    assert(old(self).game.has_player(old(self).sessions@[o].player));
                }
            }
            assert forall|a: int|
                0 <= a < self.game.players@.len() && (#[trigger] self.game.players@[a]).host implies self.has_session_for(
                    self.game.players@[a].uuid,
                ) by {
                if a < k {
                    assert(self.game.players@[a] == old(self).game.players@[a]);
                    assert(old(self).has_session_for(old(self).game.players@[a].uuid));
                    let i = choose|i: int| 0 <= i < old(self).sessions@.len() && #[trigger] old(self).sessions@[i].player == old(self).game.players@[a].uuid;
                    assert(self.sessions@[i] == old(self).sessions@[i]);
                } else {
                    assert(self.sessions@[old(self).sessions@.len() as int].player == id);
                }
            }
            assert forall|a: int, b: int|
                0 <= a < self.game.players@.len() && 0 <= b < self.game.players@.len() && (
                #[trigger] self.game.players@[a]).host && (#[trigger] self.game.players@[b]).host implies a == b by {
                if a < k {
                    assert(self.game.players@[a] == old(self).game.players@[a]);
                    assert(old(self).has_session_for(old(self).game.players@[a].uuid));
                }
                if b < k {
                    assert(self.game.players@[b] == old(self).game.players@[b]);
                    assert(old(self).has_session_for(old(self).game.players@[b].uuid));
                }
            }
            assert forall|i: int| 0 <= i < self.game.players@.len() implies self.game.fits(#[trigger] self.game.players@[i]) by {
                if i < k {
                    assert(self.game.players@[i] == old(self).game.players@[i]);
                }
            }
        }
        let roster = self.roster();
        let me = self.game.players[k].copy();
        let joined = Delivery {
            to: vec![c],
            message: ServerMessage::JoinSuccess {
                room_name: self.name.clone(),
                grid_info: GridInfo {
                    width: self.game.width as u32,
                    height: self.game.height as u32,
                    line_width: self.game.line_width,
                },
                players: roster,
                uuid: id,
            },
        };
        let news = Delivery { to: before, message: ServerMessage::NewPlayer(me) };
        let out = vec![joined, news];
        assert(out@[0].to@ == seq![c]);
        assert(self.sessions@.last().name@ == name@);
        assert(self.game.players@.last().name@ == name@);
        assert((Player { host: false, ..self.game.players@.last() }).is_fresh(
            old(self).game.width as u32,
            old(self).game.height as u32,
            old(self).game.line_width,
            old(self).game.turn_rate,
        ));
        assert(out@[1].message == ServerMessage::NewPlayer(self.game.players@.last()));
        Ok(out)
    }

    /// Joins connection `c` under the display name `name` as a new player
    /// with a fresh random id.
    pub fn add_player(&mut self, c: u64, name: &str) -> (r: Result<Vec<Delivery>, JoinError>)
        requires
            old(self).wf(),
        ensures
            final(self).wf(),
            r is Err ==> *final(self) == *old(self),
            r == Err::<Vec<Delivery>, JoinError>(JoinError::NameTooLong) <==> name.len() > MAX_NAME_BYTES,
            name.len() <= MAX_NAME_BYTES ==> (r == Err::<Vec<Delivery>, JoinError>(JoinError::RoomFull)
                <==> old(self).game.players@.len() >= MAX_PLAYERS),
            name.len() <= MAX_NAME_BYTES && old(self).game.players@.len() < MAX_PLAYERS ==> (r == Err::<
                Vec<Delivery>,
                JoinError,
            >(JoinError::AlreadyJoined) <==> old(self).has_connection(c)),
            r matches Ok(d) ==> exists|id: u128| old(self).joined(final(self), c, name@, id, d@),
            name.len() <= MAX_NAME_BYTES && old(self).game.players@.len() == 0 ==> r is Ok,
    {
        let id = new_player_id();
        proof {
            if old(self).game.players@.len() == 0 && old(self).has_connection(c) {
                let i = choose|i: int| 0 <= i < old(self).sessions@.len() && #[trigger] old(self).sessions@[i].connection == c;
                assert(old(self).game.has_player(old(self).sessions@[i].player));
            }
        }
        self.add_player_with_id(c, name, id)
    }

    /// Whether `next` is `self` after connection `c` dropped, and `d` the
    /// notice: its session is gone; when its player was host, the player of
    /// the first remaining session becomes host; everyone left learns the
    /// departed id and the id of the host, or the departed id again when
    /// nobody holds the host flag.
    pub open spec fn departed(&self, next: &Room, c: u64, d: Seq<Delivery>) -> bool {
        if !self.has_connection(c) {
            *next == *self && d.len() == 0
        } else {
            let i = self.session_index(c);
            let id = self.sessions@[i].player;
            let rest = self.sessions@.remove(i);
            let was_host = self.game.is_host(id);
            &&& next.name == self.name
            &&& next.sessions@ == rest
            &&& next.game.same_setup(&self.game)
            &&& next.game.single_player == self.game.single_player
            &&& next.game.grid == self.game.grid
            &&& next.game.active@ == self.game.active@
            &&& reflagged(
                self.game.players@,
                next.game.players@,
                |p: Player|
                    if p.uuid == id {
                        false
                    } else if was_host && rest.len() > 0 && p.uuid == rest[0].player {
                        true
                    } else {
                        p.host
                    },
            )
            &&& d.len() == 1
            &&& d[0].to@ == next.connections()
            &&& (d[0].message matches ServerMessage::PlayerDisconnected(gone, host) && gone == id && (
            next.game.is_host(host) || (host == id && forall|k: int|
                0 <= k < next.game.players@.len() ==> !(#[trigger] next.game.players@[k]).host)))
        }
    }

    /// Drops the session of connection `c`, handing the host flag on when
    /// its player held it.
    pub fn on_client_disconnected(&mut self, c: u64) -> (r: Vec<Delivery>)
        requires
            old(self).wf(),
        ensures
            final(self).wf(),
            old(self).departed(final(self), c, r@),
    {
        let i = match self.find_session(c) {
            Some(i) => i,
            None => {
                return Vec::new();
            },
        };
        let id = self.sessions[i].player;
        let gone = match self.game.find(id) {
            Some(k) => k,
            None => {
                proof {
                    assert(self.game.has_player(self.sessions@[i as int].player));
                }
                return Vec::new();
            },
        };
        let was_host = self.game.players[gone].host;
        proof {
            assert(was_host == self.game.is_host(id));
        }
        self.sessions.remove(i);
        let ghost rest = self.sessions@;
        let ghost pre = old(self).game.players@;
        let ghost hosts = |p: Player|
            if p.uuid == id {
                false
            } else if was_host && rest.len() > 0 && p.uuid == rest[0].player {
                true
            } else {
                p.host
            };
        if was_host {
            self.game.players[gone].host = false;
            if self.sessions.len() > 0 {
                let heir = self.sessions[0].player;
                proof {
                    let o: int = if i == 0 { 1 } else { 0 };
                    assert(old(self).sessions@[o] == self.sessions@[0]);
                    assert(old(self).game.has_player(heir));
                    assert(old(self).sessions@[o].connection != old(self).sessions@[i as int].connection);
                    assert(heir != id);
                }
                match self.game.find(heir) {
                    Some(h) => {
                        self.game.players[h].host = true;
                        proof {
                            assert forall|k: int| 0 <= k < pre.len() implies #[trigger] self.game.players@[k] == (Player { host: hosts(pre[k]), ..pre[k] }) by {
                                if k != gone && k != h {
                                    assert(pre[gone as int].uuid == id);
                                    assert(pre[h as int].uuid == heir);
                                    if pre[k].host {
                                        let g = choose|g: int| 0 <= g < pre.len() && #[trigger] pre[g].uuid == id && pre[g].host;
                                        assert(g == gone);
                                    }
                                }
                            }
                        }
                    },
                    None => {},
                }
            } else {
                proof {
                    assert forall|k: int| 0 <= k < pre.len() implies #[trigger] self.game.players@[k] == (Player { host: hosts(pre[k]), ..pre[k] }) by {
                        if k != gone {
                            assert(pre[gone as int].uuid == id);
                            if pre[k].host {
                                let g = choose|g: int| 0 <= g < pre.len() && #[trigger] pre[g].uuid == id && pre[g].host;
                                assert(g == gone);
                            }
                        }
                    }
                }
            }
        } else {
            proof {
                assert forall|k: int| 0 <= k < pre.len() implies #[trigger] self.game.players@[k] == (Player { host: hosts(pre[k]), ..pre[k] }) by {
                    if pre[k].uuid == id && pre[k].host {
                        assert(old(self).game.is_host(id));
                    }
                }
            }
        }
        proof {
            assert(reflagged(pre, self.game.players@, hosts));
            self.lemma_departure_wf(*old(self), i as int, id, was_host);
        }
        let mut host = id;
        let mut k: usize = 0;
        while k < self.game.players.len()
            invariant
                self.wf(),
                k <= self.game.players@.len(),
                host == id || self.game.is_host(host),
                host == id ==> forall|j: int| 0 <= j < k ==> !(#[trigger] self.game.players@[j]).host,
                forall|j: int| 0 <= j < self.game.players@.len() && (#[trigger] self.game.players@[j]).uuid == id ==> !self.game.players@[j].host,
            decreases self.game.players@.len() - k,
        {
            if self.game.players[k].host {
                host = self.game.players[k].uuid;
                assert(self.game.is_host(host));
            }
            k = k + 1;
        }
        proof {
            if host == id && self.game.is_host(host) {
                let j = choose|j: int| 0 <= j < self.game.players@.len() && #[trigger] self.game.players@[j].uuid == host && self.game.players@[j].host;
            }
        }
        let notice = self.broadcast(ServerMessage::PlayerDisconnected(id, host));
        let out = vec![notice];
        proof {
            assert(old(self).has_connection(c));
            assert(old(self).session_index(c) == i);
        }
        out
    }

    /// The room left after a departure is well formed.
    proof fn lemma_departure_wf(&self, before: Room, i: int, id: u128, was_host: bool)
        requires
            before.wf(),
            0 <= i < before.sessions@.len(),
            id == before.sessions@[i].player,
            was_host == before.game.is_host(id),
            self.sessions@ == before.sessions@.remove(i),
            self.game.same_setup(&before.game),
            self.game.grid == before.game.grid,
            self.game.active@ == before.game.active@,
            reflagged(
                before.game.players@,
                self.game.players@,
                |p: Player|
                    if p.uuid == id {
                        false
                    } else if was_host && self.sessions@.len() > 0 && p.uuid == self.sessions@[0].player {
                        true
                    } else {
                        p.host
                    },
            ),
        ensures
            self.wf(),
    {
        let rest = self.sessions@;
        let pre = before.game.players@;
        let post = self.game.players@;
        assert forall|k: int| 0 <= k < post.len() implies #[trigger] post[k].uuid == pre[k].uuid && self.game.fits(
            post[k],
        ) by {
            assert(before.game.fits(pre[k]));
        }
        assert forall|a: int, b: int|
            0 <= a < post.len() && 0 <= b < post.len() && a != b implies #[trigger] post[a].uuid
            != #[trigger] post[b].uuid by {
            assert(post[a].uuid == pre[a].uuid);
            assert(post[b].uuid == pre[b].uuid);
        }
        assert forall|j: int| 0 <= j < rest.len() implies self.game.has_player(#[trigger] rest[j].player) by {
            let o = if j < i { j } else { j + 1 };
            assert(rest[j] == before.sessions@[o]);
            assert(before.game.has_player(before.sessions@[o].player));
            let k = choose|k: int| 0 <= k < pre.len() && #[trigger] pre[k].uuid == before.sessions@[o].player;
            assert(post[k].uuid == pre[k].uuid);
        }
        assert forall|x: int, y: int|
            0 <= x < rest.len() && 0 <= y < rest.len() && x != y implies {
                &&& #[trigger] rest[x].connection != #[trigger] rest[y].connection
                &&& rest[x].player != rest[y].player
            } by {
            let ox = if x < i { x } else { x + 1 };
            let oy = if y < i { y } else { y + 1 };
            assert(rest[x] == before.sessions@[ox]);
            assert(rest[y] == before.sessions@[oy]);
            assert(before.sessions@[ox].connection != before.sessions@[oy].connection);
            assert(before.sessions@[ox].player != before.sessions@[oy].player);
        }
        assert forall|a: int| 0 <= a < post.len() && (#[trigger] post[a]).host implies self.has_session_for(post[a].uuid) by {
            assert(post[a].uuid == pre[a].uuid);
            if was_host && rest.len() > 0 && pre[a].uuid == rest[0].player {
                assert(rest[0].player == post[a].uuid);
            } else {
                assert(pre[a].host);
                assert(before.has_session_for(pre[a].uuid));
                let o = choose|o: int| 0 <= o < before.sessions@.len() && #[trigger] before.sessions@[o].player == pre[a].uuid;
                assert(o != i);
                let j = if o < i { o } else { o - 1 };
                assert(rest[j] == before.sessions@[o]);
            }
        }
        assert forall|a: int, b: int|
            0 <= a < post.len() && 0 <= b < post.len() && (#[trigger] post[a]).host && (#[trigger] post[b]).host implies a == b by {
            assert(post[a].uuid == pre[a].uuid);
            assert(post[b].uuid == pre[b].uuid);
            if was_host {
                let g = choose|g: int| 0 <= g < pre.len() && #[trigger] pre[g].uuid == id && pre[g].host;
                if pre[a].host {
                    assert(a == g);
                }
                if pre[b].host {
                    assert(b == g);
                }
            } else {
                assert(pre[a].host && pre[b].host);
            }
        }
    }

    /// Whether `d` delivers the snapshot of the active players to every connection.
    pub open spec fn announces_state(&self, d: Delivery) -> bool {
        &&& d.to@ == self.connections()
        &&& (d.message matches ServerMessage::GameState(v) && v@ == snapshot(self.game.players@, self.game.active@))
    }

    /// Whether `next` is `self` with a new round started, and `d` the
    /// announcements: the fresh snapshot, then the round start, to everyone.
    pub open spec fn started(&self, next: &Room, d: Seq<Delivery>) -> bool {
        &&& next.name == self.name
        &&& next.sessions == self.sessions
        &&& self.game.round_started(&next.game)
        &&& forall|i: int|
            0 <= i < self.game.players@.len() ==> respawned(self.game.players@[i], #[trigger] next.game.players@[i])
        &&& d.len() == 2
        &&& next.announces_state(d[0])
        &&& next.to_all(d[1], ServerMessage::RoundStarted)
    }

    /// Whether `next` is `self` with the turn intent of connection `c`'s
    /// player set to `direction`, when that player is active.
    pub open spec fn steered_by(&self, next: &Room, c: u64, direction: Direction) -> bool {
        &&& next.name == self.name
        &&& next.sessions == self.sessions
        &&& next.game.same_setup(&self.game)
        &&& next.game.single_player == self.game.single_player
        &&& next.game.grid == self.game.grid
        &&& next.game.active@ == self.game.active@
        &&& self.game.steered(next.game.players@, self.sessions@[self.session_index(c)].player, direction)
    }

    /// A room whose game kept every player's id and host flag stays well formed.
    proof fn lemma_same_roles(&self, before: Room)
        requires
            before.wf(),
            self.game.wf(),
            self.sessions == before.sessions,
            self.game.players@.len() == before.game.players@.len(),
            forall|k: int|
                0 <= k < self.game.players@.len() ==> (#[trigger] self.game.players@[k]).uuid
                    == before.game.players@[k].uuid && self.game.players@[k].host == before.game.players@[k].host,
        ensures
            self.wf(),
    {
        assert forall|i: int| 0 <= i < self.sessions@.len() implies self.game.has_player(#[trigger] self.sessions@[i].player) by {
            assert(before.game.has_player(before.sessions@[i].player));
            let k = choose|k: int| 0 <= k < before.game.players@.len() && #[trigger] before.game.players@[k].uuid == before.sessions@[i].player;
            assert(self.game.players@[k].uuid == before.game.players@[k].uuid);
        }
        assert forall|a: int|
            0 <= a < self.game.players@.len() && (#[trigger] self.game.players@[a]).host implies self.has_session_for(
                self.game.players@[a].uuid,
            ) by {
            assert(before.game.players@[a].host);
        }
        assert forall|a: int, b: int|
            0 <= a < self.game.players@.len() && 0 <= b < self.game.players@.len() && (
            #[trigger] self.game.players@[a]).host && (#[trigger] self.game.players@[b]).host implies a == b by {
            assert(before.game.players@[a].host && before.game.players@[b].host);
        }
    }

    /// One tick of the room's timer: while the room has connections and the
    /// round runs, the game advances and everyone gets the new snapshot.
    /// Returns whether the room still has connections, and the deliveries.
    pub fn tick_once(&mut self) -> (r: (bool, Vec<Delivery>))
        requires
            old(self).wf(),
        ensures
            final(self).wf(),
            final(self).name == old(self).name,
            final(self).sessions == old(self).sessions,
            r.0 == (old(self).sessions@.len() > 0),
            !(old(self).sessions@.len() > 0 && old(self).game.is_running()) ==> final(self).game == old(self).game
                && r.1@.len() == 0,
            old(self).sessions@.len() > 0 && old(self).game.is_running() ==> {
                &&& old(self).game.tick_outcome(&final(self).game)
                &&& r.1@.len() == 1
                &&& final(self).announces_state(r.1@[0])
            },
    {
        if !self.running() {
            return (false, Vec::new());
        }
        if !self.game.running() {
            return (true, Vec::new());
        }
        self.game.tick();
        proof {
            let g = old(self).game;
            lemma_pass_keeps_points(g, g.players@.len());
            assert forall|k: int| 0 <= k < self.game.players@.len() implies (#[trigger] self.game.players@[k]).uuid
                == g.players@[k].uuid && self.game.players@[k].host == g.players@[k].host by {
                assert(self.game.players@[k] == with_points(g.pass(g.players@.len()).0[k], self.game.players@[k].points));
            }
            self.lemma_same_roles(*old(self));
        }
        let state = self.game.state();
        let d = self.broadcast(ServerMessage::GameState(state));
        (true, vec![d])
    }

    /// Starts a round and announces it.
    pub fn on_start_game(&mut self) -> (r: Vec<Delivery>)
        requires
            old(self).wf(),
        ensures
            final(self).wf(),
            old(self).started(final(self), r@),
    {
        self.game.initialize();
        proof {
            let g = old(self).game;
            assert forall|k: int| 0 <= k < self.game.players@.len() implies (#[trigger] self.game.players@[k]).uuid
                == g.players@[k].uuid && self.game.players@[k].host == g.players@[k].host by {
                assert(respawned(g.players@[k], self.game.players@[k]));
            }
            self.lemma_same_roles(*old(self));
        }
        let state = self.game.state();
        let snapshot = self.broadcast(ServerMessage::GameState(state));
        let started = self.broadcast(ServerMessage::RoundStarted);
        vec![snapshot, started]
    }

    /// Applies a client message from connection `c`: a turn intent steers
    /// its player, a start request from the host starts a round, a
    /// disconnect drops the session; room requests inside a room are
    /// ignored. Returns whether the room still has connections, and the
    /// deliveries.
    pub fn on_message(&mut self, c: u64, msg: ClientMessage) -> (r: (bool, Vec<Delivery>))
        requires
            old(self).wf(),
        ensures
            final(self).wf(),
            r.0 == (final(self).sessions@.len() > 0),
            (msg matches ClientMessage::Move(d) ==> r.1@.len() == 0 && if old(self).has_connection(c) {
                old(self).steered_by(final(self), c, d)
            } else {
                *final(self) == *old(self)
            }),
            (msg matches ClientMessage::StartGame ==> if old(self).has_connection(c) && old(self).game.is_host(
                old(self).sessions@[old(self).session_index(c)].player,
            ) {
                old(self).started(final(self), r.1@)
            } else {
                *final(self) == *old(self) && r.1@.len() == 0
            }),
            (msg matches ClientMessage::Disconnected ==> old(self).departed(final(self), c, r.1@)),
            ((msg is CreateRoom || msg is JoinRoom) ==> *final(self) == *old(self) && r.1@.len() == 0),
    {
        let out = match msg {
            ClientMessage::Move(direction) => {
                match self.find_session(c) {
                    Some(i) => {
                        let id = self.sessions[i].player;
                        let _ = self.game.on_move(id, direction);
                        proof {
                            self.lemma_same_roles(*old(self));
                        }
                    },
                    None => {},
                }
                Vec::new()
            },
            ClientMessage::StartGame => {
                match self.find_session(c) {
                    Some(i) => {
                        let id = self.sessions[i].player;
                        match self.game.find(id) {
                            Some(k) => {
                                if self.game.players[k].host {
                                    self.on_start_game()
                                } else {
                                    proof {
                                        if self.game.is_host(id) {
                                            let j = choose|j: int| 0 <= j < self.game.players@.len() && #[trigger] self.game.players@[j].uuid == id && self.game.players@[j].host;
                                        }
                                    }
                                    Vec::new()
                                }
                            },
                            None => Vec::new(),
                        }
                    },
                    None => Vec::new(),
                }
            },
            ClientMessage::Disconnected => self.on_client_disconnected(c),
            ClientMessage::CreateRoom(_) => Vec::new(),
            ClientMessage::JoinRoom(_, _) => Vec::new(),
        };
        (self.running(), out)
    }
}

} // verus!
