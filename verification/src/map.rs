//! The arenas: where the walls of each map stand, and how a map is drawn.

use vstd::prelude::*;

use rand::rngs::StdRng;
use rand::Rng;

verus! {

/// The random number generator from which maps are drawn.
#[verifier::external_type_specification]
#[verifier::external_body]
pub struct ExStdRng(StdRng);

/// The number of maps.
pub const MAP_COUNT: usize = 4;

/// The wall pieces, named by their size in tiles (width by height).
#[derive(Clone, Copy, Debug, PartialEq, Eq)]
pub enum WallKind {
    Wall1x1,
    Wall2x2,
    Wall1x5,
    Wall5x1,
    Wall1x10,
}

/// Where a wall piece stands (the centre of its sprite, in world units).
#[derive(Clone, Copy, Debug, PartialEq, Eq)]
pub struct WallPlacement {
    pub kind: WallKind,
    pub x: i32,
    pub y: i32,
}

/// The box that planes and projectiles collide with, relative to the wall's
/// position.
#[derive(Clone, Copy, Debug, PartialEq, Eq)]
pub struct ObstacleBounds {
    pub min_x: i32,
    pub min_y: i32,
    pub max_x: i32,
    pub max_y: i32,
}

pub open spec fn spec_wall_bounds(kind: WallKind) -> ObstacleBounds {
    match kind {
        WallKind::Wall1x1 => ObstacleBounds { min_x: -32i32, min_y: 0i32, max_x: 32i32, max_y: 48i32 },
        WallKind::Wall2x2 => ObstacleBounds { min_x: -64i32, min_y: -32i32, max_x: 64i32, max_y: 80i32 },
        WallKind::Wall1x5 => ObstacleBounds { min_x: -32i32, min_y: -112i32, max_x: 32i32, max_y: 160i32 },
        WallKind::Wall5x1 => ObstacleBounds { min_x: -160i32, min_y: 0i32, max_x: 160i32, max_y: 48i32 },
        WallKind::Wall1x10 => ObstacleBounds { min_x: -32i32, min_y: -272i32, max_x: 32i32, max_y: 320i32 },
    }
}

/// The collision box of a wall piece (see `spec_wall_bounds`).
pub fn wall_bounds(kind: WallKind) -> (b: ObstacleBounds)
    ensures
        b == spec_wall_bounds(kind),
{
    match kind {
        WallKind::Wall1x1 => ObstacleBounds { min_x: -32, min_y: 0, max_x: 32, max_y: 48 },
        WallKind::Wall2x2 => ObstacleBounds { min_x: -64, min_y: -32, max_x: 64, max_y: 80 },
        WallKind::Wall1x5 => ObstacleBounds { min_x: -32, min_y: -112, max_x: 32, max_y: 160 },
        WallKind::Wall5x1 => ObstacleBounds { min_x: -160, min_y: 0, max_x: 160, max_y: 48 },
        WallKind::Wall1x10 => ObstacleBounds { min_x: -32, min_y: -272, max_x: 32, max_y: 320 },
    }
}

pub open spec fn wall(kind: WallKind, x: int, y: int) -> WallPlacement {
    WallPlacement { kind, x: x as i32, y: y as i32 }
}

/// The walls of each map.
pub open spec fn spec_map_layout(index: usize) -> Seq<WallPlacement> {
    if index == 0 {
        seq![
            wall(WallKind::Wall1x5, -550, 200),
            wall(WallKind::Wall1x5, -550, -200),
            wall(WallKind::Wall5x1, -150, 250),
            wall(WallKind::Wall5x1, -150, -250),
            wall(WallKind::Wall2x2, 150, 0),
            wall(WallKind::Wall1x1, 150, 200),
        ]
    } else if index == 1 {
        seq![
            wall(WallKind::Wall1x5, 0, 0),
            wall(WallKind::Wall5x1, -450, -150),
            wall(WallKind::Wall5x1, 450, 150),
        ]
    } else if index == 2 {
        seq![wall(WallKind::Wall1x5, -150, -100), wall(WallKind::Wall1x5, 150, 100)]
    } else {
        seq![wall(WallKind::Wall1x10, 0, 0)]
    }
}

/// The walls of the map with the given index (see `spec_map_layout`).
pub fn map_layout(index: usize) -> (walls: Vec<WallPlacement>)
    requires
        index < MAP_COUNT,
    ensures
        walls@ == spec_map_layout(index),
{
    let mut walls: Vec<WallPlacement> = Vec::new();
    if index == 0 {
        walls.push(WallPlacement { kind: WallKind::Wall1x5, x: -550, y: 200 });
        walls.push(WallPlacement { kind: WallKind::Wall1x5, x: -550, y: -200 });
        walls.push(WallPlacement { kind: WallKind::Wall5x1, x: -150, y: 250 });
        walls.push(WallPlacement { kind: WallKind::Wall5x1, x: -150, y: -250 });
        walls.push(WallPlacement { kind: WallKind::Wall2x2, x: 150, y: 0 });
        walls.push(WallPlacement { kind: WallKind::Wall1x1, x: 150, y: 200 });
    } else if index == 1 {
        walls.push(WallPlacement { kind: WallKind::Wall1x5, x: 0, y: 0 });
        walls.push(WallPlacement { kind: WallKind::Wall5x1, x: -450, y: -150 });
        walls.push(WallPlacement { kind: WallKind::Wall5x1, x: 450, y: 150 });
    } else if index == 2 {
        walls.push(WallPlacement { kind: WallKind::Wall1x5, x: -150, y: -100 });
        walls.push(WallPlacement { kind: WallKind::Wall1x5, x: 150, y: 100 });
    } else {
        walls.push(WallPlacement { kind: WallKind::Wall1x10, x: 0, y: 0 });
    }
    assert(walls@ == spec_map_layout(index));
    walls
}

/// `Rng::gen_range(0..MAP_COUNT)` on the map generator: some index below
/// the number of maps. Which one is up to the generator.
#[verifier::external_body]
fn gen_map_index(rng: &mut StdRng) -> (index: usize)
    ensures
        index < MAP_COUNT,
{
    rng.gen_range(0..MAP_COUNT)
}

/// Draws a map from the generator: its index and its walls.
pub fn spawn_random_map(rng: &mut StdRng) -> (r: (usize, Vec<WallPlacement>))
    ensures
        r.0 < MAP_COUNT,
        r.1@ == spec_map_layout(r.0),
{
    let index = gen_map_index(rng);
    (index, map_layout(index))
}

} // verus!
