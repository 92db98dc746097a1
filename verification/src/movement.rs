//! Room movement: the static collision mask, named locations, the `move`
//! tool handler, and the randomized idle drift between thoughts.

use rand::Rng;
use vstd::prelude::*;
use vstd::string::StringExecFns;

use crate::types::Position;
use crate::ROOM_COLS;
use crate::ROOM_ROWS;

verus! {

/// Which tiles of the 12x12 room are blocked, row by row.
pub open spec fn blocked_spec(x: int, y: int) -> bool {
    if y == 0 {
        x <= 3 || x >= 6
    } else if y == 1 || y == 3 || y == 4 {
        x == 2 || x == 3 || x == 7 || x == 8
    } else if y == 2 {
        7 <= x <= 10
    } else if y == 5 {
        x == 8 || x == 9
    } else if y == 6 {
        false
    } else if y == 7 {
        (2 <= x <= 7) || x == 10 || x == 11
    } else if y == 8 {
        x == 2 || x == 3 || x == 7 || x == 10
    } else if y == 9 {
        (4 <= x <= 6) || x == 10
    } else if y == 10 {
        x == 0 || x == 1 || x == 5 || x == 11
    } else if y == 11 {
        x == 0 || x == 5
    } else {
        false
    }
}

/// A position is valid when it lies in the room and its tile is not blocked.
pub open spec fn valid_position_spec(x: int, y: int) -> bool {
    0 <= x < ROOM_COLS && 0 <= y < ROOM_ROWS && !blocked_spec(x, y)
}

/// Check whether a tile of the collision mask is blocked.
pub fn is_blocked(x: i32, y: i32) -> (r: bool)
    ensures
        r == blocked_spec(x as int, y as int),
{
    if y == 0 {
        x <= 3 || x >= 6
    } else if y == 1 || y == 3 || y == 4 {
        x == 2 || x == 3 || x == 7 || x == 8
    } else if y == 2 {
        7 <= x && x <= 10
    } else if y == 5 {
        x == 8 || x == 9
    } else if y == 6 {
        false
    } else if y == 7 {
        (2 <= x && x <= 7) || x == 10 || x == 11
    } else if y == 8 {
        x == 2 || x == 3 || x == 7 || x == 10
    } else if y == 9 {
        (4 <= x && x <= 6) || x == 10
    } else if y == 10 {
        x == 0 || x == 1 || x == 5 || x == 11
    } else if y == 11 {
        x == 0 || x == 5
    } else {
        false
    }
}

/// Check whether a position is in bounds and not blocked.
pub fn is_valid_position(x: i32, y: i32) -> (r: bool)
    ensures
        r == valid_position_spec(x as int, y as int),
{
    0 <= x && x < ROOM_COLS && 0 <= y && y < ROOM_ROWS && !is_blocked(x, y)
}

/// The named locations of the room, as (name, x, y).
pub open spec fn location_coords(name: Seq<char>) -> Option<(int, int)> {
    if name == "desk"@ {
        Some((10, 1))
    } else if name == "bookshelf"@ {
        Some((1, 2))
    } else if name == "window"@ {
        Some((4, 0))
    } else if name == "plant"@ {
        Some((0, 8))
    } else if name == "bed"@ {
        Some((3, 10))
    } else if name == "rug"@ {
        Some((5, 5))
    } else if name == "center"@ {
        Some((5, 5))
    } else {
        None
    }
}

/// Look up a named location of the room.
pub fn room_location(name: &str) -> (r: Option<Position>)
    ensures
        match r {
            Some(p) => location_coords(name@) == Some((p.x as int, p.y as int)),
            None => location_coords(name@) is None,
        },
{
    let mut found: Option<Position> = None;
    if crate::strutil::str_eq(name, "desk") {
        found = Some(Position { x: 10, y: 1 });
    } else if crate::strutil::str_eq(name, "bookshelf") {
        found = Some(Position { x: 1, y: 2 });
    } else if crate::strutil::str_eq(name, "window") {
        found = Some(Position { x: 4, y: 0 });
    } else if crate::strutil::str_eq(name, "plant") {
        found = Some(Position { x: 0, y: 8 });
    } else if crate::strutil::str_eq(name, "bed") {
        found = Some(Position { x: 3, y: 10 });
    } else if crate::strutil::str_eq(name, "rug") {
        found = Some(Position { x: 5, y: 5 });
    } else if crate::strutil::str_eq(name, "center") {
        found = Some(Position { x: 5, y: 5 });
    }
    found
}

/// Handle the `move` tool: jump to a named location, or report an unknown
/// one without moving.
pub fn handle_move(position: &mut Position, location: &str) -> (r: String)
    ensures
        match location_coords(location@) {
            Some(c) => {
                &&& final(position).x as int == c.0
                &&& final(position).y as int == c.1
                &&& r@ == "Moved to "@ + location@ + "."@
            },
            None => {
                &&& *final(position) == *old(position)
                &&& r@ == "Unknown location: "@ + location@
            },
        },
{
    match room_location(location) {
        Some(target) => {
            position.x = target.x;
            position.y = target.y;
            let mut out = String::from_str("Moved to ");
            out.append(location);
            out.append(".");
            out
        },
        None => {
            let mut out = String::from_str("Unknown location: ");
            out.append(location);
            out
        },
    }
}

/// Draws one coordinate step in -1..=1.
///
/// Relies on `rand::Rng::gen_range` over the inclusive range -1..=1: the
/// sample always lies inside the range. The value is random, so nothing more
/// is promised of it.
#[verifier::external_body]
fn random_unit_step() -> (r: i32)
    ensures
        -1 <= r <= 1,
{
    rand::thread_rng().gen_range(-1..=1)
}

/// Apply a candidate +-1 drift: take the step only when it lands on a valid
/// tile, otherwise stay put.
pub fn apply_wander_step(position: &mut Position, dx: i32, dy: i32)
    requires
        -1 <= dx <= 1,
        -1 <= dy <= 1,
    ensures
        ({
            let nx = old(position).x as int + dx;
            let ny = old(position).y as int + dy;
            if valid_position_spec(nx, ny) {
                final(position).x == nx && final(position).y == ny
            } else {
                *final(position) == *old(position)
            }
        }),
{
    let nx: i64 = position.x as i64 + dx as i64;
    let ny: i64 = position.y as i64 + dy as i64;
    if 0 <= nx && nx < ROOM_COLS as i64 && 0 <= ny && ny < ROOM_ROWS as i64 {
        let nxi: i32 = nx as i32;
        let nyi: i32 = ny as i32;
        if !is_blocked(nxi, nyi) {
            position.x = nxi;
            position.y = nyi;
        }
    }
}

/// Random +-1 step between thoughts. A position that was valid stays valid;
/// an invalid one is never "repaired" into the room by more than one step.
pub fn idle_wander(position: &mut Position)
    ensures
        *final(position) == *old(position) || valid_position_spec(
            final(position).x as int,
            final(position).y as int,
        ),
        valid_position_spec(old(position).x as int, old(position).y as int)
            ==> valid_position_spec(final(position).x as int, final(position).y as int),
{
    let dx = random_unit_step();
    let dy = random_unit_step();
    apply_wander_step(position, dx, dy);
}

} // verus!
