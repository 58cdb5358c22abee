use vstd::prelude::*;
use crate::random::{rng_new, rng_range};

verus! {

/// Row stride of the tile grid: tile indices are computed against a fixed
/// 80-column layout, whatever the map's nominal width.
pub const GRID_WIDTH: i32 = 80;

/// Number of cells of the default 80 x 50 screen; tunnel digging clamps its
/// writes to this window.
pub const GRID_CELLS: usize = 4000;

pub const MAX_ROOMS: i32 = 30;

pub const MIN_SIZE: i32 = 6;

pub const MAX_SIZE: i32 = 10;

#[derive(Clone, Copy, Debug, PartialEq, Eq, Structural)]
pub enum Tile {
    Floor,
    Wall,
}

pub struct TileMap {
    pub tiles: Vec<Tile>,
    pub rooms: Vec<Room>,
    pub width: u32,
    pub height: u32,
    pub revealed_tiles: Vec<bool>,
    pub visible_tiles: Vec<bool>,
}

pub struct Room {
    x1: i32,
    x2: i32,
    y1: i32,
    y2: i32,
}

/// The tile index of grid cell (x, y).
pub open spec fn cell_index(x: int, y: int) -> int {
    y * (GRID_WIDTH as int) + x
}

/// The linear tile index of grid cell (x, y), against the fixed row stride.
pub fn index_of(x: i32, y: i32) -> (r: usize)
    requires
        0 <= x,
        0 <= y,
        cell_index(x as int, y as int) <= i32::MAX,
    ensures
        r == cell_index(x as int, y as int),
{
    ((y * GRID_WIDTH) + x) as usize
}

/// The grid cell (x, y) of a linear tile index.
pub fn coords_of(i: usize) -> (r: (i32, i32))
    requires
        i as int / (GRID_WIDTH as int) <= i32::MAX,
    ensures
        r.0 == i as int % (GRID_WIDTH as int),
        r.1 == i as int / (GRID_WIDTH as int),
{
    ((i % 80) as i32, (i / 80) as i32)
}

/// A vector of `n` copies of `value`.
fn filled<A: Copy>(n: usize, value: A) -> (v: Vec<A>)
    ensures
        v@.len() == n,
        forall|i: int| 0 <= i < n ==> v@[i] == value,
{
    let mut v: Vec<A> = Vec::new();
    let mut i: usize = 0;
    while i < n
        invariant
            i <= n,
            v@.len() == i,
            forall|j: int| 0 <= j < i ==> v@[j] == value,
        decreases n - i,
    {
        v.push(value);
        i += 1;
    }
    v
}

impl Room {
    pub closed spec fn x1(self) -> int {
        self.x1 as int
    }

    pub closed spec fn x2(self) -> int {
        self.x2 as int
    }

    pub closed spec fn y1(self) -> int {
        self.y1 as int
    }

    pub closed spec fn y2(self) -> int {
        self.y2 as int
    }

    /// Whether this room and `other` touch or overlap, margins of one cell
    /// included.
    pub open spec fn intersects(self, other: Room) -> bool {
        self.x1() - 1 <= other.x2() && self.x2() + 1 >= other.x1() && self.y1() - 1 <= other.y2()
            && self.y2() + 1 >= other.y1()
    }

    /// A rectangle from its top-left corner and its extent.
    pub fn new(x: i32, y: i32, w: i32, h: i32) -> (r: Room)
        requires
            i32::MIN < x + w <= i32::MAX,
            i32::MIN < y + h <= i32::MAX,
        ensures
            r.x1() == x,
            r.y1() == y,
            r.x2() == x + w - 1,
            r.y2() == y + h - 1,
    {
        Room { x1: x, y1: y, x2: x + w - 1, y2: y + h - 1 }
    }

    /// Whether this room and `other` touch or overlap, margins included.
    pub fn intersect(&self, other: &Room) -> (r: bool)
        requires
            i32::MIN <= self.x1() - 1,
            self.x2() + 1 <= i32::MAX,
            i32::MIN <= self.y1() - 1,
            self.y2() + 1 <= i32::MAX,
        ensures
            r == self.intersects(*other),
    {
        self.x1 - 1 <= other.x2 && self.x2 + 1 >= other.x1 && self.y1 - 1 <= other.y2 && self.y2
            + 1 >= other.y1
    }

    /// The room's central cell.
    pub fn center(&self) -> (r: [i32; 2])
        requires
            0 <= self.x1() + self.x2() <= i32::MAX,
            0 <= self.y1() + self.y2() <= i32::MAX,
        ensures
            r@[0] == (self.x1() + self.x2()) / 2,
            r@[1] == (self.y1() + self.y2()) / 2,
    {
        [(self.x1 + self.x2) / 2, (self.y1 + self.y2) / 2]
    }
}

/// Whether `r` lies in the interior a dungeon of the given extent digs its
/// rooms in: at least one cell off the left and top edge, three off the
/// right and bottom.
pub open spec fn room_in_bounds(r: Room, width: u32, height: u32) -> bool {
    &&& 1 <= r.x1() <= r.x2()
    &&& r.x2() <= width as int - 3
    &&& 1 <= r.y1() <= r.y2()
    &&& r.y2() <= height as int - 3
}

/// Rooms touch-or-overlap symmetrically.
pub proof fn lemma_intersects_symmetric(a: Room, b: Room)
    ensures
        a.intersects(b) == b.intersects(a),
{
}

/// Whether `idx` is the index of a cell inside `room`.
pub open spec fn room_covers(room: Room, idx: int) -> bool {
    exists|x: int, y: int|
        room.x1() <= x <= room.x2() && room.y1() <= y <= room.y2() && #[trigger] cell_index(x, y)
            == idx
}

/// Cells of fully dug rows: inside `room` with a row strictly below `y_lim`.
spec fn covered_rows(room: Room, y_lim: int, idx: int) -> bool {
    exists|x: int, y: int|
        room.x1() <= x <= room.x2() && room.y1() <= y < y_lim && #[trigger] cell_index(x, y) == idx
}

/// Cells of the partially dug row `y`: columns strictly below `x_lim`.
spec fn covered_row_part(room: Room, y: int, x_lim: int, idx: int) -> bool {
    exists|x: int| room.x1() <= x < x_lim && #[trigger] cell_index(x, y) == idx
}

/// The smaller of two endpoints.
pub open spec fn low_of(a: int, b: int) -> int {
    if a <= b {
        a
    } else {
        b
    }
}

/// The larger of two endpoints.
pub open spec fn high_of(a: int, b: int) -> int {
    if a <= b {
        b
    } else {
        a
    }
}

/// Whether `idx` is the index of a cell of the horizontal tunnel between
/// columns `x1` and `x2` on row `y`.
pub open spec fn h_tunnel_covers(x1: int, x2: int, y: int, idx: int) -> bool {
    exists|x: int| low_of(x1, x2) <= x <= high_of(x1, x2) && #[trigger] cell_index(x, y) == idx
}

/// Whether `idx` is the index of a cell of the vertical tunnel between rows
/// `y1` and `y2` on column `x`.
pub open spec fn v_tunnel_covers(y1: int, y2: int, x: int, idx: int) -> bool {
    exists|y: int| low_of(y1, y2) <= y <= high_of(y1, y2) && #[trigger] cell_index(x, y) == idx
}

/// Cells of the already dug part of a horizontal tunnel: columns strictly
/// below `x_lim`.
spec fn h_part(x1: int, x2: int, y: int, x_lim: int, idx: int) -> bool {
    exists|x: int| low_of(x1, x2) <= x < x_lim && #[trigger] cell_index(x, y) == idx
}

/// Cells of the already dug part of a vertical tunnel: rows strictly below
/// `y_lim`.
spec fn v_part(y1: int, y2: int, x: int, y_lim: int, idx: int) -> bool {
    exists|y: int| low_of(y1, y2) <= y < y_lim && #[trigger] cell_index(x, y) == idx
}

/// Carves the row-`y` tunnel between columns `x1` and `x2` out as floor,
/// skipping any cell whose index falls outside the default screen window.
#[verifier::rlimit(60)]
pub fn dig_horizontal_tunnel(tiles: &mut Vec<Tile>, x1: i32, x2: i32, y: i32)
    requires
        0 <= x1,
        0 <= x2,
        0 <= y,
        cell_index(high_of(x1 as int, x2 as int), y as int) < i32::MAX,
        forall|idx: int|
            h_tunnel_covers(x1 as int, x2 as int, y as int, idx) && 0 < idx < GRID_CELLS as int
                ==> idx < old(tiles)@.len(),
    ensures
        final(tiles)@.len() == old(tiles)@.len(),
        forall|idx: int|
            0 <= idx < old(tiles)@.len() ==> #[trigger] final(tiles)@[idx] == (if h_tunnel_covers(
                x1 as int,
                x2 as int,
                y as int,
                idx,
            ) && 0 < idx < GRID_CELLS as int {
                Tile::Floor
            } else {
                old(tiles)@[idx]
            }),
{
    let ghost orig = tiles@;
    let lo: i32 = if x1 < x2 {
        x1
    } else {
        x2
    };
    let hi: i32 = if x1 < x2 {
        x2
    } else {
        x1
    };
    let mut x: i32 = lo;
    while x <= hi
        invariant
            0 <= lo,
            0 <= y,
            lo as int == low_of(x1 as int, x2 as int),
            hi as int == high_of(x1 as int, x2 as int),
            cell_index(hi as int, y as int) < i32::MAX,
            lo as int <= x as int <= hi as int + 1,
            tiles@.len() == orig.len(),
            forall|idx: int|
                h_tunnel_covers(x1 as int, x2 as int, y as int, idx) && 0 < idx < GRID_CELLS as int
                    ==> idx < orig.len(),
            forall|idx: int|
                0 <= idx < orig.len() ==> #[trigger] tiles@[idx] == (if h_part(
                    x1 as int,
                    x2 as int,
                    y as int,
                    x as int,
                    idx,
                ) && 0 < idx < GRID_CELLS as int {
                    Tile::Floor
                } else {
                    orig[idx]
                }),
        decreases hi + 1 - x,
    {
        let idx = index_of(x, y);
        if idx > 0 && idx < GRID_CELLS {
            proof {
                assert(h_tunnel_covers(x1 as int, x2 as int, y as int, idx as int));
            }
            tiles[idx] = Tile::Floor;
        }
        proof {
            let xi = x as int;
            let x1i = x1 as int;
            let x2i = x2 as int;
            let yi = y as int;
            assert forall|k: int| 0 <= k < orig.len() implies #[trigger] tiles@[k] == (if h_part(
                x1i,
                x2i,
                yi,
                xi + 1,
                k,
            ) && 0 < k < GRID_CELLS as int {
                Tile::Floor
            } else {
                orig[k]
            }) by {
                if k == cell_index(xi, yi) {
                    assert(h_part(x1i, x2i, yi, xi + 1, k));
                } else {
                    if h_part(x1i, x2i, yi, xi + 1, k) {
                        let x0 = choose|x0: int|
                            low_of(x1i, x2i) <= x0 < xi + 1 && #[trigger] cell_index(x0, yi) == k;
                        assert(x0 < xi);
                        assert(h_part(x1i, x2i, yi, xi, k));
                    }
                    if h_part(x1i, x2i, yi, xi, k) {
                        let x0 = choose|x0: int|
                            low_of(x1i, x2i) <= x0 < xi && #[trigger] cell_index(x0, yi) == k;
                        assert(h_part(x1i, x2i, yi, xi + 1, k));
                    }
                }
            }
        }
        x += 1;
    }
    proof {
        let x1i = x1 as int;
        let x2i = x2 as int;
        let yi = y as int;
        let xe = x as int;
        assert forall|k: int| 0 <= k < orig.len() implies #[trigger] tiles@[k] == (if h_tunnel_covers(
            x1i,
            x2i,
            yi,
            k,
        ) && 0 < k < GRID_CELLS as int {
            Tile::Floor
        } else {
            orig[k]
        }) by {
            if h_tunnel_covers(x1i, x2i, yi, k) {
                let x0 = choose|x0: int|
                    low_of(x1i, x2i) <= x0 <= high_of(x1i, x2i) && #[trigger] cell_index(x0, yi)
                        == k;
                assert(x0 < xe);
                assert(h_part(x1i, x2i, yi, xe, k));
            }
            if h_part(x1i, x2i, yi, xe, k) {
                let x0 = choose|x0: int|
                    low_of(x1i, x2i) <= x0 < xe && #[trigger] cell_index(x0, yi) == k;
                assert(h_tunnel_covers(x1i, x2i, yi, k));
            }
        }
    }
}

/// Carves the column-`x` tunnel between rows `y1` and `y2` out as floor,
/// skipping any cell whose index falls outside the default screen window.
#[verifier::rlimit(60)]
pub fn dig_vertical_tunnel(tiles: &mut Vec<Tile>, y1: i32, y2: i32, x: i32)
    requires
        0 <= y1,
        0 <= y2,
        0 <= x,
        cell_index(x as int, high_of(y1 as int, y2 as int)) < i32::MAX,
        forall|idx: int|
            v_tunnel_covers(y1 as int, y2 as int, x as int, idx) && 0 < idx < GRID_CELLS as int
                ==> idx < old(tiles)@.len(),
    ensures
        final(tiles)@.len() == old(tiles)@.len(),
        forall|idx: int|
            0 <= idx < old(tiles)@.len() ==> #[trigger] final(tiles)@[idx] == (if v_tunnel_covers(
                y1 as int,
                y2 as int,
                x as int,
                idx,
            ) && 0 < idx < GRID_CELLS as int {
                Tile::Floor
            } else {
                old(tiles)@[idx]
            }),
{
    let ghost orig = tiles@;
    let lo: i32 = if y1 < y2 {
        y1
    } else {
        y2
    };
    let hi: i32 = if y1 < y2 {
        y2
    } else {
        y1
    };
    let mut y: i32 = lo;
    while y <= hi
        invariant
            0 <= lo,
            0 <= x,
            lo as int == low_of(y1 as int, y2 as int),
            hi as int == high_of(y1 as int, y2 as int),
            cell_index(x as int, hi as int) < i32::MAX,
            lo as int <= y as int <= hi as int + 1,
            tiles@.len() == orig.len(),
            forall|idx: int|
                v_tunnel_covers(y1 as int, y2 as int, x as int, idx) && 0 < idx < GRID_CELLS as int
                    ==> idx < orig.len(),
            forall|idx: int|
                0 <= idx < orig.len() ==> #[trigger] tiles@[idx] == (if v_part(
                    y1 as int,
                    y2 as int,
                    x as int,
                    y as int,
                    idx,
                ) && 0 < idx < GRID_CELLS as int {
                    Tile::Floor
                } else {
                    orig[idx]
                }),
        decreases hi + 1 - y,
    {
        proof {
            assert(cell_index(x as int, y as int) <= cell_index(x as int, hi as int));
        }
        let idx = index_of(x, y);
        if idx > 0 && idx < GRID_CELLS {
            proof {
                assert(v_tunnel_covers(y1 as int, y2 as int, x as int, idx as int));
            }
            tiles[idx] = Tile::Floor;
        }
        proof {
            let yi = y as int;
            let y1i = y1 as int;
            let y2i = y2 as int;
            let xi = x as int;
            assert forall|k: int| 0 <= k < orig.len() implies #[trigger] tiles@[k] == (if v_part(
                y1i,
                y2i,
                xi,
                yi + 1,
                k,
            ) && 0 < k < GRID_CELLS as int {
                Tile::Floor
            } else {
                orig[k]
            }) by {
                if k == cell_index(xi, yi) {
                    assert(v_part(y1i, y2i, xi, yi + 1, k));
                } else {
                    if v_part(y1i, y2i, xi, yi + 1, k) {
                        let y0 = choose|y0: int|
                            low_of(y1i, y2i) <= y0 < yi + 1 && #[trigger] cell_index(xi, y0) == k;
                        assert(y0 < yi);
                        assert(v_part(y1i, y2i, xi, yi, k));
                    }
                    if v_part(y1i, y2i, xi, yi, k) {
                        let y0 = choose|y0: int|
                            low_of(y1i, y2i) <= y0 < yi && #[trigger] cell_index(xi, y0) == k;
                        assert(v_part(y1i, y2i, xi, yi + 1, k));
                    }
                }
            }
        }
        y += 1;
    }
    proof {
        let y1i = y1 as int;
        let y2i = y2 as int;
        let xi = x as int;
        let ye = y as int;
        assert forall|k: int| 0 <= k < orig.len() implies #[trigger] tiles@[k] == (if v_tunnel_covers(
            y1i,
            y2i,
            xi,
            k,
        ) && 0 < k < GRID_CELLS as int {
            Tile::Floor
        } else {
            orig[k]
        }) by {
            if v_tunnel_covers(y1i, y2i, xi, k) {
                let y0 = choose|y0: int|
                    low_of(y1i, y2i) <= y0 <= high_of(y1i, y2i) && #[trigger] cell_index(xi, y0)
                        == k;
                assert(y0 < ye);
                assert(v_part(y1i, y2i, xi, ye, k));
            }
            if v_part(y1i, y2i, xi, ye, k) {
                let y0 = choose|y0: int|
                    low_of(y1i, y2i) <= y0 < ye && #[trigger] cell_index(xi, y0) == k;
                assert(v_tunnel_covers(y1i, y2i, xi, k));
            }
        }
    }
}

/// Carves every cell of `room` out as floor.
#[verifier::rlimit(60)]
pub fn dig_room(tiles: &mut Vec<Tile>, room: &Room)
    requires
        0 <= room.x1() <= room.x2(),
        0 <= room.y1() <= room.y2(),
        cell_index(room.x2(), room.y2()) < i32::MAX,
        cell_index(room.x2(), room.y2()) < old(tiles)@.len(),
    ensures
        final(tiles)@.len() == old(tiles)@.len(),
        forall|idx: int|
            0 <= idx < old(tiles)@.len() ==> #[trigger] final(tiles)@[idx] == (if room_covers(*room, idx) {
                Tile::Floor
            } else {
                old(tiles)@[idx]
            }),
{
    let ghost orig = tiles@;
    let mut y: i32 = room.y1;
    while y <= room.y2
        invariant
            0 <= room.x1() <= room.x2(),
            0 <= room.y1() <= room.y2(),
            cell_index(room.x2(), room.y2()) < i32::MAX,
            cell_index(room.x2(), room.y2()) < orig.len(),
            room.y1() <= y as int <= room.y2() + 1,
            tiles@.len() == orig.len(),
            forall|idx: int|
                0 <= idx < orig.len() ==> #[trigger] tiles@[idx] == (if covered_rows(*room, y as int, idx) {
                    Tile::Floor
                } else {
                    orig[idx]
                }),
        decreases room.y2() + 1 - y,
    {
        let mut x: i32 = room.x1;
        while x <= room.x2
            invariant
                0 <= room.x1() <= room.x2(),
                0 <= room.y1() <= room.y2(),
                cell_index(room.x2(), room.y2()) < i32::MAX,
                cell_index(room.x2(), room.y2()) < orig.len(),
                room.y1() <= y as int <= room.y2(),
                room.x1() <= x as int <= room.x2() + 1,
                tiles@.len() == orig.len(),
                forall|idx: int|
                    0 <= idx < orig.len() ==> #[trigger] tiles@[idx] == (if covered_rows(*room, y as int, idx)
                        || covered_row_part(*room, y as int, x as int, idx) {
                        Tile::Floor
                    } else {
                        orig[idx]
                    }),
            decreases room.x2() + 1 - x,
        {
            proof {
                assert(cell_index(x as int, y as int) <= cell_index(room.x2(), room.y2()));
            }
            let idx = index_of(x, y);
            tiles[idx] = Tile::Floor;
            proof {
                let xi = x as int;
                let yi = y as int;
                assert forall|k: int| 0 <= k < orig.len() implies #[trigger] tiles@[k] == (if covered_rows(
                    *room,
                    yi,
                    k,
                ) || covered_row_part(*room, yi, xi + 1, k) {
                    Tile::Floor
                } else {
                    orig[k]
                }) by {
                    if k == cell_index(xi, yi) {
                        assert(covered_row_part(*room, yi, xi + 1, k));
                    } else {
                        if covered_row_part(*room, yi, xi + 1, k) {
                            let x0 = choose|x0: int|
                                room.x1() <= x0 < xi + 1 && #[trigger] cell_index(x0, yi) == k;
                            assert(x0 < xi);
                            assert(covered_row_part(*room, yi, xi, k));
                        }
                        if covered_row_part(*room, yi, xi, k) {
                            let x0 = choose|x0: int|
                                room.x1() <= x0 < xi && #[trigger] cell_index(x0, yi) == k;
                            assert(covered_row_part(*room, yi, xi + 1, k));
                        }
                    }
                }
            }
            x += 1;
        }
        proof {
            let yi = y as int;
            let xe = x as int;
            assert(xe == room.x2() + 1);
            assert forall|k: int| 0 <= k < orig.len() implies #[trigger] tiles@[k] == (if covered_rows(
                *room,
                yi + 1,
                k,
            ) {
                Tile::Floor
            } else {
                orig[k]
            }) by {
                assert(tiles@[k] == (if covered_rows(*room, yi, k) || covered_row_part(
                    *room,
                    yi,
                    xe,
                    k,
                ) {
                    Tile::Floor
                } else {
                    orig[k]
                }));
                if covered_rows(*room, yi + 1, k) {
                    let (x0, y0) = choose|x0: int, y0: int|
                        room.x1() <= x0 <= room.x2() && room.y1() <= y0 < yi + 1
                            && #[trigger] cell_index(x0, y0) == k;
                    if y0 == yi {
                        assert(cell_index(x0, yi) == k);
                        assert(covered_row_part(*room, yi, xe, k));
                    } else {
                        assert(room.y1() <= y0 < yi && cell_index(x0, y0) == k);
                        assert(covered_rows(*room, yi, k));
                    }
                } else {
                    if covered_rows(*room, yi, k) {
                        let (x0, y0) = choose|x0: int, y0: int|
                            room.x1() <= x0 <= room.x2() && room.y1() <= y0 < yi
                                && #[trigger] cell_index(x0, y0) == k;
                        assert(room.y1() <= y0 < yi + 1 && cell_index(x0, y0) == k);
                        assert(covered_rows(*room, yi + 1, k));
                        assert(false);
                    }
                    if covered_row_part(*room, yi, xe, k) {
                        let x0 = choose|x0: int|
                            room.x1() <= x0 < xe && #[trigger] cell_index(x0, yi) == k;
                        assert(room.y1() <= yi < yi + 1 && cell_index(x0, yi) == k);
                        assert(covered_rows(*room, yi + 1, k));
                        assert(false);
                    }
                }
            }
        }
        y += 1;
    }
    proof {
        assert forall|k: int| 0 <= k < orig.len() implies (covered_rows(*room, room.y2() + 1, k)
            <==> room_covers(*room, k)) by {
            if covered_rows(*room, room.y2() + 1, k) {
                let (x0, y0) = choose|x0: int, y0: int|
                    room.x1() <= x0 <= room.x2() && room.y1() <= y0 < room.y2() + 1
                        && #[trigger] cell_index(x0, y0) == k;
                assert(room.y1() <= y0 <= room.y2() && cell_index(x0, y0) == k);
                assert(room_covers(*room, k));
            }
            if room_covers(*room, k) {
                let (x0, y0) = choose|x0: int, y0: int|
                    room.x1() <= x0 <= room.x2() && room.y1() <= y0 <= room.y2()
                        && #[trigger] cell_index(x0, y0) == k;
                assert(room.y1() <= y0 < room.y2() + 1 && cell_index(x0, y0) == k);
                assert(covered_rows(*room, room.y2() + 1, k));
            }
        }
    }
}

/// Every cell of every listed room reads floor in `tiles`.
pub open spec fn rooms_floored(rooms: Seq<Room>, tiles: Seq<Tile>) -> bool {
    forall|k: int, idx: int|
        0 <= k < rooms.len() && 0 <= idx < tiles.len() && #[trigger] room_covers(rooms[k], idx)
            ==> tiles[idx] == Tile::Floor
}

/// A step that only turns cells to floor keeps every floored room floored.
proof fn lemma_floors_monotone(rooms: Seq<Room>, pre: Seq<Tile>, post: Seq<Tile>)
    requires
        rooms_floored(rooms, pre),
        post.len() == pre.len(),
        forall|idx: int| 0 <= idx < pre.len() ==> post[idx] == pre[idx] || post[idx]
            == Tile::Floor,
    ensures
        rooms_floored(rooms, post),
{
    assert forall|k: int, idx: int|
        0 <= k < rooms.len() && 0 <= idx < post.len() && #[trigger] room_covers(rooms[k], idx)
        implies post[idx] == Tile::Floor by {
        assert(pre[idx] == Tile::Floor);
        assert(post[idx] == pre[idx] || post[idx] == Tile::Floor);
    }
}

impl TileMap {
    /// Generates a dungeon: up to `MAX_ROOMS` rooms of random extent are
    /// placed at random interior positions, keeping only those that do not
    /// touch a room placed before (so at least the first room is always
    /// kept), and consecutive rooms are joined by an L-shaped corridor
    /// between their centers. Every kept room is carved out as floor, and
    /// nothing is revealed or visible yet.
    #[verifier::rlimit(100)]
    pub fn create_dungeon(width: u32, height: u32) -> (m: TileMap)
        requires
            12 <= width as int,
            12 <= height as int,
            width as int * height as int <= u32::MAX,
            (height as int - 3) * (GRID_WIDTH as int) + (width as int - 3) < width as int
                * height as int,
            (height as int - 3) * (GRID_WIDTH as int) + (width as int - 3) < i32::MAX,
        ensures
            m.width == width,
            m.height == height,
            m.tiles@.len() == width as int * height as int,
            m.revealed_tiles@.len() == width as int * height as int,
            m.visible_tiles@.len() == width as int * height as int,
            forall|i: int| 0 <= i < width as int * height as int ==> !m.revealed_tiles@[i],
            forall|i: int| 0 <= i < width as int * height as int ==> !m.visible_tiles@[i],
            1 <= m.rooms@.len() <= MAX_ROOMS as int,
            rooms_floored(m.rooms@, m.tiles@),
            forall|k: int|
                0 <= k < m.rooms@.len() ==> room_in_bounds(#[trigger] m.rooms@[k], width, height),
            forall|j: int, k: int|
                0 <= j < k < m.rooms@.len() ==> !(#[trigger] m.rooms@[j]).intersects(
                    #[trigger] m.rooms@[k],
                ),
    {
        proof {
            assert(width as int * 12 <= width as int * height as int) by (nonlinear_arith)
                requires
                    12 <= height as int,
                    0 <= width as int,
            ;
            assert(height as int * 12 <= width as int * height as int) by (nonlinear_arith)
                requires
                    12 <= width as int,
                    0 <= height as int,
            ;
        }
        let n: usize = (width * height) as usize;
        let mut tiles: Vec<Tile> = filled(n, Tile::Wall);
        let mut rooms: Vec<Room> = Vec::new();
        let mut rng = rng_new();
        let mut attempt: i32 = 0;
        while attempt < MAX_ROOMS
            invariant
                12 <= width as int,
                12 <= height as int,
                width as int * height as int <= u32::MAX,
                width as int * 12 <= width as int * height as int,
                height as int * 12 <= width as int * height as int,
                (height as int - 3) * (GRID_WIDTH as int) + (width as int - 3) < width as int
                    * height as int,
                (height as int - 3) * (GRID_WIDTH as int) + (width as int - 3) < i32::MAX,
                n == width as int * height as int,
                tiles@.len() == n,
                0 <= attempt <= MAX_ROOMS,
                rooms@.len() as int <= attempt as int,
                1 <= attempt as int ==> 1 <= rooms@.len(),
                rooms_floored(rooms@, tiles@),
                forall|k: int|
                    0 <= k < rooms@.len() ==> room_in_bounds(#[trigger] rooms@[k], width, height),
                forall|j: int, k: int|
                    0 <= j < k < rooms@.len() ==> !(#[trigger] rooms@[j]).intersects(
                        #[trigger] rooms@[k],
                    ),
            decreases MAX_ROOMS as int - attempt as int,
        {
            let w: i32 = rng_range(&mut rng, MIN_SIZE, MAX_SIZE);
            let h: i32 = rng_range(&mut rng, MIN_SIZE, MAX_SIZE);
            let x: i32 = rng_range(&mut rng, 1, width as i32 - 1 - w);
            let y: i32 = rng_range(&mut rng, 1, height as i32 - 1 - h);
            let new_room = Room::new(x, y, w, h);

            let mut ok = true;
            let mut j: usize = 0;
            while j < rooms.len()
                invariant
                    j <= rooms@.len(),
                    room_in_bounds(new_room, width, height),
                    width as int - 3 < i32::MAX,
                    height as int - 3 < i32::MAX,
                    rooms@.len() == 0 ==> ok,
                    ok ==> forall|jj: int|
                        0 <= jj < j ==> !new_room.intersects(#[trigger] rooms@[jj]),
                decreases rooms@.len() - j as int,
            {
                if new_room.intersect(&rooms[j]) {
                    ok = false;
                }
                j += 1;
            }
            if ok {
                let ghost pre_dig = tiles@;
                dig_room(&mut tiles, &new_room);
                proof {
                    assert forall|idx: int| 0 <= idx < pre_dig.len() implies tiles@[idx]
                        == pre_dig[idx] || tiles@[idx] == Tile::Floor by {}
                    lemma_floors_monotone(rooms@, pre_dig, tiles@);
                    assert forall|k2: int, idx: int|
                        0 <= k2 < rooms@.push(new_room).len() && 0 <= idx < tiles@.len()
                            && #[trigger] room_covers(rooms@.push(new_room)[k2], idx)
                        implies tiles@[idx] == Tile::Floor by {
                        if k2 < rooms@.len() {
                            assert(rooms@.push(new_room)[k2] == rooms@[k2]);
                            assert(room_covers(rooms@[k2], idx));
                        } else {
                            assert(rooms@.push(new_room)[k2] == new_room);
                            assert(tiles@[idx] == (if room_covers(new_room, idx) {
                                Tile::Floor
                            } else {
                                pre_dig[idx]
                            }));
                        }
                    }
                    assert(rooms_floored(rooms@.push(new_room), tiles@));
                }
                if rooms.len() > 0 {
                    let last_index: usize = rooms.len() - 1;
                    proof {
                        assert(room_in_bounds(rooms@[last_index as int], width, height));
                    }
                    let prev_c = rooms[last_index].center();
                    let new_c = new_room.center();
                    let prev_x: i32 = prev_c[0];
                    let prev_y: i32 = prev_c[1];
                    let new_x: i32 = new_c[0];
                    let new_y: i32 = new_c[1];
                    proof {
                        let prev = rooms@[last_index as int];
                        assert(prev.x1() <= (prev.x1() + prev.x2()) / 2 <= prev.x2());
                        assert(prev.y1() <= (prev.y1() + prev.y2()) / 2 <= prev.y2());
                        assert(new_room.x1() <= (new_room.x1() + new_room.x2()) / 2
                            <= new_room.x2());
                        assert(new_room.y1() <= (new_room.y1() + new_room.y2()) / 2
                            <= new_room.y2());
                    }
                    if rng_range(&mut rng, 0, 2) == 1 {
                        proof {
                            lemma_h_tunnel_in_bounds(
                                prev_x as int,
                                new_x as int,
                                prev_y as int,
                                width,
                                height,
                                tiles@.len() as int,
                            );
                            lemma_v_tunnel_in_bounds(
                                prev_y as int,
                                new_y as int,
                                new_x as int,
                                width,
                                height,
                                tiles@.len() as int,
                            );
                        }
                        let ghost pre_h = tiles@;
                        dig_horizontal_tunnel(&mut tiles, prev_x, new_x, prev_y);
                        proof {
                            assert forall|idx: int| 0 <= idx < pre_h.len() implies tiles@[idx]
                                == pre_h[idx] || tiles@[idx] == Tile::Floor by {}
                            lemma_floors_monotone(rooms@.push(new_room), pre_h, tiles@);
                        }
                        let ghost pre_v = tiles@;
                        dig_vertical_tunnel(&mut tiles, prev_y, new_y, new_x);
                        proof {
                            assert forall|idx: int| 0 <= idx < pre_v.len() implies tiles@[idx]
                                == pre_v[idx] || tiles@[idx] == Tile::Floor by {}
                            lemma_floors_monotone(rooms@.push(new_room), pre_v, tiles@);
                        }
                    } else {
                        proof {
                            lemma_v_tunnel_in_bounds(
                                prev_y as int,
                                new_y as int,
                                prev_x as int,
                                width,
                                height,
                                tiles@.len() as int,
                            );
                            lemma_h_tunnel_in_bounds(
                                prev_x as int,
                                new_x as int,
                                new_y as int,
                                width,
                                height,
                                tiles@.len() as int,
                            );
                        }
                        let ghost pre_v = tiles@;
                        dig_vertical_tunnel(&mut tiles, prev_y, new_y, prev_x);
                        proof {
                            assert forall|idx: int| 0 <= idx < pre_v.len() implies tiles@[idx]
                                == pre_v[idx] || tiles@[idx] == Tile::Floor by {}
                            lemma_floors_monotone(rooms@.push(new_room), pre_v, tiles@);
                        }
                        let ghost pre_h = tiles@;
                        dig_horizontal_tunnel(&mut tiles, prev_x, new_x, new_y);
                        proof {
                            assert forall|idx: int| 0 <= idx < pre_h.len() implies tiles@[idx]
                                == pre_h[idx] || tiles@[idx] == Tile::Floor by {}
                            lemma_floors_monotone(rooms@.push(new_room), pre_h, tiles@);
                        }
                    }
                }
                rooms.push(new_room);
                proof {
                    assert forall|j2: int, k2: int|
                        0 <= j2 < k2 < rooms@.len() implies !(#[trigger] rooms@[j2]).intersects(
                        #[trigger] rooms@[k2],
                    ) by {
                        if k2 == rooms@.len() - 1 {
                            lemma_intersects_symmetric(rooms@[j2], new_room);
                        }
                    }
                }
            }
            attempt += 1;
        }
        let revealed_tiles = filled(n, false);
        let visible_tiles = filled(n, false);
        TileMap { tiles, rooms, revealed_tiles, visible_tiles, width, height }
    }
}

/// Every cell of a horizontal corridor between interior columns, clamped to
/// the screen window, lies inside a tile vector that covers the whole map.
proof fn lemma_h_tunnel_in_bounds(x1: int, x2: int, y: int, width: u32, height: u32, len: int)
    requires
        1 <= x1 <= width as int - 3,
        1 <= x2 <= width as int - 3,
        1 <= y <= height as int - 3,
        (height as int - 3) * (GRID_WIDTH as int) + (width as int - 3) < len,
        (height as int - 3) * (GRID_WIDTH as int) + (width as int - 3) < i32::MAX,
    ensures
        cell_index(high_of(x1, x2), y) < i32::MAX,
        forall|idx: int|
            h_tunnel_covers(x1, x2, y, idx) && 0 < idx < GRID_CELLS as int ==> idx < len,
{
    assert forall|idx: int|
        h_tunnel_covers(x1, x2, y, idx) && 0 < idx < GRID_CELLS as int implies idx < len by {
        let x0 = choose|x0: int|
            low_of(x1, x2) <= x0 <= high_of(x1, x2) && #[trigger] cell_index(x0, y) == idx;
        assert(y * (GRID_WIDTH as int) <= (height as int - 3) * (GRID_WIDTH as int));
    }
}

/// Every cell of a vertical corridor between interior rows, clamped to the
/// screen window, lies inside a tile vector that covers the whole map.
proof fn lemma_v_tunnel_in_bounds(y1: int, y2: int, x: int, width: u32, height: u32, len: int)
    requires
        1 <= y1 <= height as int - 3,
        1 <= y2 <= height as int - 3,
        1 <= x <= width as int - 3,
        (height as int - 3) * (GRID_WIDTH as int) + (width as int - 3) < len,
        (height as int - 3) * (GRID_WIDTH as int) + (width as int - 3) < i32::MAX,
    ensures
        cell_index(x, high_of(y1, y2)) < i32::MAX,
        forall|idx: int|
            v_tunnel_covers(y1, y2, x, idx) && 0 < idx < GRID_CELLS as int ==> idx < len,
{
    assert(high_of(y1, y2) * (GRID_WIDTH as int) <= (height as int - 3) * (GRID_WIDTH as int));
    assert forall|idx: int|
        v_tunnel_covers(y1, y2, x, idx) && 0 < idx < GRID_CELLS as int implies idx < len by {
        let y0 = choose|y0: int|
            low_of(y1, y2) <= y0 <= high_of(y1, y2) && #[trigger] cell_index(x, y0) == idx;
        assert(y0 * (GRID_WIDTH as int) <= (height as int - 3) * (GRID_WIDTH as int));
    }
}

} // verus!
