//! Identifier and value primitives shared by the whole engine: opaque ids,
//! grid points and vectors, travel directions, and the player record.

use vstd::prelude::*;

verus! {

/// Opaque 128-bit client identifier, compared by equality only.
#[derive(Debug, Clone, Copy, PartialEq, Eq, Hash, Structural)]
pub struct ClientId(pub u128);

/// Opaque 128-bit player identifier, compared by equality only.
#[derive(Debug, Clone, Copy, PartialEq, Eq, Hash, Structural)]
pub struct PlayerId(pub u128);

/// Opaque 128-bit arena identifier, compared by equality only.
#[derive(Debug, Clone, Copy, PartialEq, Eq, Hash, Structural)]
pub struct ArenaId(pub u128);

/// Relies on uuid::Uuid::new_v4: a freshly generated random 128-bit id.
/// Nothing can be promised of a random value.
#[verifier::external_body]
fn fresh_id_bits() -> u128 {
    uuid::Uuid::new_v4().as_u128()
}

impl ClientId {
    /// A freshly generated identifier for a newly connected client.
    pub fn fresh() -> ClientId {
        ClientId(fresh_id_bits())
    }
}

impl PlayerId {
    /// A freshly generated identifier for a newly configured player.
    pub fn fresh() -> PlayerId {
        PlayerId(fresh_id_bits())
    }
}

impl ArenaId {
    /// A freshly generated identifier for a newly created arena.
    pub fn fresh() -> ArenaId {
        ArenaId(fresh_id_bits())
    }
}

/// A position on the arena grid. Coordinates are integers in thousandths
/// of an arena unit, so every per-tick displacement is exact.
#[derive(Debug, Clone, Copy, PartialEq, Eq, Hash, Structural)]
pub struct Point {
    pub x: i64,
    pub y: i64,
}

impl Point {
    pub fn origin() -> (r: Point)
        ensures
            r == (Point { x: 0, y: 0 }),
    {
        Point { x: 0, y: 0 }
    }
}

/// A direction of travel on the grid.
#[derive(Debug, Clone, Copy, PartialEq, Eq, Hash, Structural)]
pub enum Direction {
    Up,
    Left,
    Right,
    Down,
}

/// The unit vector of a direction, x component.
pub open spec fn direction_dx(d: Direction) -> i64 {
    match d {
        Direction::Up => 0,
        Direction::Down => 0,
        Direction::Left => (-1) as i64,
        Direction::Right => 1,
    }
}

/// The unit vector of a direction, y component.
pub open spec fn direction_dy(d: Direction) -> i64 {
    match d {
        Direction::Up => 1,
        Direction::Down => (-1) as i64,
        Direction::Left => 0,
        Direction::Right => 0,
    }
}

/// Two directions are opposite when their unit vectors cancel.
pub open spec fn opposite(a: Direction, b: Direction) -> bool {
    match a {
        Direction::Up => b == Direction::Down,
        Direction::Left => b == Direction::Right,
        Direction::Right => b == Direction::Left,
        Direction::Down => b == Direction::Up,
    }
}

impl Direction {
    /// The unit velocity vector of this direction.
    pub fn as_velocity(self) -> (r: (i64, i64))
        ensures
            r.0 == direction_dx(self),
            r.1 == direction_dy(self),
    {
        match self {
            Direction::Up => (0, 1),
            Direction::Down => (0, -1),
            Direction::Left => (-1, 0),
            Direction::Right => (1, 0),
        }
    }

    /// Whether `to` is the exact opposite of this direction.
    pub fn is_opposite(self, to: Direction) -> (r: bool)
        ensures
            r == opposite(self, to),
    {
        match self {
            Direction::Up => to == Direction::Down,
            Direction::Left => to == Direction::Right,
            Direction::Right => to == Direction::Left,
            Direction::Down => to == Direction::Up,
        }
    }
}

/// One of the six fixed player colors.
#[derive(Debug, Clone, Copy, PartialEq, Eq, Hash, Structural)]
pub enum PlayerColor {
    Blue,
    Green,
    Orange,
    Purple,
    Red,
    White,
}

impl Default for PlayerColor {
    fn default() -> (r: Self)
        ensures
            r == PlayerColor::White,
    {
        PlayerColor::White
    }
}

/// A participant in an arena: human or AI-controlled.
#[derive(Debug, Clone, PartialEq)]
pub struct Player {
    pub id: PlayerId,
    pub name: String,
    pub color: PlayerColor,
    pub is_ai: bool,
}

/// The mathematical value of a player record.
pub struct PlayerModel {
    pub id: PlayerId,
    pub name: Seq<char>,
    pub color: PlayerColor,
    pub is_ai: bool,
}

impl View for Player {
    type V = PlayerModel;

    open spec fn view(&self) -> PlayerModel {
        PlayerModel { id: self.id, name: self.name@, color: self.color, is_ai: self.is_ai }
    }
}

impl Player {
    pub fn new(id: PlayerId, name: String, color: PlayerColor, is_ai: bool) -> (r: Player)
        ensures
            r@ == (PlayerModel { id, name: name@, color, is_ai }),
    {
        Player { id, name, color, is_ai }
    }

    /// A copy of this player with the same mathematical value.
    pub fn duplicate(&self) -> (r: Player)
        ensures
            r@ == self@,
    {
        Player {
            id: self.id,
            name: self.name.clone(),
            color: self.color,
            is_ai: self.is_ai,
        }
    }
}

/// A connected client as the session server tracks it. The transport
/// channel itself lives outside the core; the server only records how much
/// of the joined arena's update log this client has already been sent.
#[derive(Debug)]
pub struct Client {
    pub id: ClientId,
    pub ip_address: Option<String>,
    pub player: Option<PlayerId>,
    pub arena: Option<ArenaId>,
    pub updates_sent_so_far: usize,
}

/// The mathematical value of a client record.
pub struct ClientModel {
    pub id: ClientId,
    pub ip_address: Option<Seq<char>>,
    pub player: Option<PlayerId>,
    pub arena: Option<ArenaId>,
    pub updates_sent_so_far: int,
}

impl View for Client {
    type V = ClientModel;

    open spec fn view(&self) -> ClientModel {
        ClientModel {
            id: self.id,
            ip_address: match self.ip_address {
                Some(ref s) => Some(s@),
                None => None,
            },
            player: self.player,
            arena: self.arena,
            updates_sent_so_far: self.updates_sent_so_far as int,
        }
    }
}

} // verus!
