//! What clients and the server tell each other.

use crate::geom::Point;
use vstd::prelude::*;
use vstd::string::*;

verus! {

/// The port that the server listens on.
pub const SERVER_PORT: u16 = 14192;

pub const BOARD_WIDTH: u32 = 1000;

pub const BOARD_HEIGHT: u32 = 1000;

/// Something that a player steers.
#[derive(Clone, Copy, Debug, PartialEq, Eq, Structural)]
pub struct Pawn {
    pub controller: u32,
}

/// Something that flies.
#[derive(Clone, Copy, Debug, PartialEq, Eq, Structural)]
pub struct Ball {
    pub velocity: Point,
}

/// What a client says.
#[derive(Debug)]
pub enum ClientMessage {
    Hello(String),
    Direction(Direction),
}

/// Which way a client steers.
#[derive(Clone, Copy, Debug, PartialEq, Eq, Structural)]
pub enum Direction {
    Left,
    Right,
}

/// A ball as the server sees it.
#[derive(Clone, Copy, Debug, PartialEq, Eq, Structural)]
pub struct BallState {
    pub id: u32,
    pub position: Point,
    pub velocity: Point,
}

/// What the server says.
#[derive(Debug)]
pub struct GameStateMessage {
    pub frame: u32,
    pub balls: Vec<BallState>,
}

/// Which message the server sends next.
#[derive(Clone, Copy, Debug, PartialEq, Eq, Structural)]
pub struct NetworkBroadcast {
    pub frame: u32,
}

impl Default for NetworkBroadcast {
    fn default() -> (b: Self)
        ensures
            b.frame == 0,
    {
        NetworkBroadcast { frame: 0 }
    }
}

/// One column of a matrix, in millionths.
#[derive(Clone, Copy, Debug, PartialEq, Eq, Structural)]
pub struct Column {
    pub x: i64,
    pub y: i64,
    pub z: i64,
    pub w: i64,
}

/// Where a player is and how it stands, by its matrix.
#[derive(Clone, Copy, Debug, PartialEq, Eq, Structural)]
pub struct Matrix {
    pub x_axis: Column,
    pub y_axis: Column,
    pub z_axis: Column,
    pub w_axis: Column,
}

impl Matrix {
    /// A player in the middle that is not turned.
    pub open spec fn unit() -> Matrix {
        Matrix {
            x_axis: Column { x: 1_000_000, y: 0, z: 0, w: 0 },
            y_axis: Column { x: 0, y: 1_000_000, z: 0, w: 0 },
            z_axis: Column { x: 0, y: 0, z: 1_000_000, w: 0 },
            w_axis: Column { x: 0, y: 0, z: 0, w: 1_000_000 },
        }
    }

    pub fn identity() -> (m: Matrix)
        ensures
            m == Self::unit(),
    {
        Matrix {
            x_axis: Column { x: 1_000_000, y: 0, z: 0, w: 0 },
            y_axis: Column { x: 0, y: 1_000_000, z: 0, w: 0 },
            z_axis: Column { x: 0, y: 0, z: 1_000_000, w: 0 },
            w_axis: Column { x: 0, y: 0, z: 0, w: 1_000_000 },
        }
    }
}

/// A player as it is sent.
#[derive(Clone, Copy, Debug, PartialEq, Eq, Structural)]
pub struct SerializablePlayer {
    pub id: u32,
    pub transform: Matrix,
}

} // verus!
