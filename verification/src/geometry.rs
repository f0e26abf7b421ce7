//! Hexagonal-grid geometry: axial coordinates, the six axis directions,
//! and directed lines of cells.
//!
//! Coordinate arithmetic (neighbor stepping, the hex metric, enumerating a
//! filled hexagon) is delegated to the `hexx` crate through trusted wrappers;
//! the contracts state the exact arithmetic that `hexx` performs.

use vstd::prelude::*;

verus! {

/// Largest hexagon radius the engine accepts: keeps ring enumeration small
/// enough to allocate and all coordinate arithmetic far from `i32` overflow.
pub const MAX_RADIUS: usize = 1000;

/// Largest coordinate magnitude accepted for a configured line start.
pub const COORD_BOUND: i32 = 30000;

/// Coordinate magnitude up to which the trusted geometry wrappers are safe
/// from `i32` overflow (with a wide margin; `hexx` adds at most one unit per
/// step and sums three absolute values for the metric).
pub const GEOM_BOUND: i32 = 100000;

/// An axial coordinate of a cell in the hexagonal grid.
#[derive(Clone, Copy, Debug, PartialEq, Eq, Hash, Structural)]
pub struct Hex {
    pub x: i32,
    pub y: i32,
}

/// The six axis directions a line can follow, named for a pointy-top layout.
#[derive(Clone, Copy, Debug, PartialEq, Eq, Hash, Structural)]
pub enum HexDirection {
    Right,
    TopRight,
    TopLeft,
    Left,
    BottomLeft,
    BottomRight,
}

/// The six diagonal (vertex) directions, used by puzzle configurations to
/// name a family of parallel lines; `direction_cw` resolves each to the axis
/// direction clockwise-adjacent to that vertex.
#[derive(Clone, Copy, Debug, PartialEq, Eq, Hash, Structural)]
pub enum DiagonalDirection {
    Right,
    TopRight,
    TopLeft,
    Left,
    BottomLeft,
    BottomRight,
}

/// A directed ray of grid cells: a start coordinate and an axis direction.
/// Identity is value equality of the two fields.
#[derive(Clone, Copy, Debug, PartialEq, Eq, Hash, Structural)]
pub struct Line {
    pub start: Hex,
    pub direction: HexDirection,
}

/// Axial x-offset of one step in direction `d`.
pub open spec fn dir_dx(d: HexDirection) -> int {
    match d {
        HexDirection::Right => 1,
        HexDirection::TopRight => 1,
        HexDirection::TopLeft => 0,
        HexDirection::Left => -1,
        HexDirection::BottomLeft => -1,
        HexDirection::BottomRight => 0,
    }
}

/// Axial y-offset of one step in direction `d`.
pub open spec fn dir_dy(d: HexDirection) -> int {
    match d {
        HexDirection::Right => 0,
        HexDirection::TopRight => -1,
        HexDirection::TopLeft => -1,
        HexDirection::Left => 0,
        HexDirection::BottomLeft => 1,
        HexDirection::BottomRight => 1,
    }
}

pub open spec fn abs_val(v: int) -> int {
    if v < 0 { -v } else { v }
}

pub open spec fn max2(a: int, b: int) -> int {
    if a >= b { a } else { b }
}

/// The hex metric: distance of axial coordinate `(x, y)` from the origin.
/// Equal to the largest absolute cube component.
pub open spec fn hex_len(x: int, y: int) -> int {
    max2(abs_val(x), max2(abs_val(y), abs_val(x + y)))
}

/// Distance between two cells under the hex metric.
pub open spec fn hex_dist(a: Hex, b: Hex) -> int {
    hex_len(a.x - b.x, a.y - b.y)
}

/// The pair of mathematical integers held by a coordinate.
pub open spec fn hex_at(h: Hex) -> (int, int) {
    (h.x as int, h.y as int)
}

/// Hex length of an integer coordinate pair.
pub open spec fn len_of(p: (int, int)) -> int {
    hex_len(p.0, p.1)
}

pub open spec fn in_bounds(h: Hex) -> bool {
    -(COORD_BOUND as int) <= h.x as int <= COORD_BOUND as int
        && -(COORD_BOUND as int) <= h.y as int <= COORD_BOUND as int
}

/// The coordinate reached after `k` steps from the start of line `l`.
pub open spec fn line_at(l: Line, k: int) -> (int, int)
    decreases k,
{
    if k <= 0 {
        (l.start.x as int, l.start.y as int)
    } else {
        let p = line_at(l, k - 1);
        (p.0 + dir_dx(l.direction), p.1 + dir_dy(l.direction))
    }
}

/// A linear functional that strictly increases with every step in direction
/// `d` and never exceeds the hex length; it bounds how long a walk can stay
/// inside a hexagon.
pub open spec fn dir_phi(d: HexDirection, x: int, y: int) -> int {
    match d {
        HexDirection::Right => x,
        HexDirection::TopRight => x,
        HexDirection::TopLeft => -y,
        HexDirection::Left => -x,
        HexDirection::BottomLeft => -x,
        HexDirection::BottomRight => y,
    }
}

/// Relies on `hexx::Hex::neighbor`: steps one cell in the given direction by
/// adding the direction's constant axial offset (`Hex::NEIGHBORS_COORDS`).
#[verifier::external_body]
fn hex_neighbor(c: Hex, d: HexDirection) -> (r: Hex)
    requires
        -(GEOM_BOUND as int) <= c.x as int <= GEOM_BOUND as int,
        -(GEOM_BOUND as int) <= c.y as int <= GEOM_BOUND as int,
    ensures
        r.x as int == c.x as int + dir_dx(d),
        r.y as int == c.y as int + dir_dy(d),
{
    let dir = match d {
        HexDirection::Right => hexx::EdgeDirection::POINTY_RIGHT,
        HexDirection::TopRight => hexx::EdgeDirection::POINTY_TOP_RIGHT,
        HexDirection::TopLeft => hexx::EdgeDirection::POINTY_TOP_LEFT,
        HexDirection::Left => hexx::EdgeDirection::POINTY_LEFT,
        HexDirection::BottomLeft => hexx::EdgeDirection::POINTY_BOTTOM_LEFT,
        HexDirection::BottomRight => hexx::EdgeDirection::POINTY_BOTTOM_RIGHT,
    };
    let n = hexx::Hex::new(c.x, c.y).neighbor(dir);
    Hex { x: n.x, y: n.y }
}

/// Relies on `hexx::Hex::unsigned_distance_to`: the hex metric, computed as
/// the largest absolute cube component of the coordinate difference.
#[verifier::external_body]
fn hex_distance(a: Hex, b: Hex) -> (r: u32)
    requires
        -(GEOM_BOUND as int) <= a.x as int <= GEOM_BOUND as int,
        -(GEOM_BOUND as int) <= a.y as int <= GEOM_BOUND as int,
        -(GEOM_BOUND as int) <= b.x as int <= GEOM_BOUND as int,
        -(GEOM_BOUND as int) <= b.y as int <= GEOM_BOUND as int,
    ensures
        r as int == hex_dist(a, b),
{
    hexx::Hex::new(a.x, a.y).unsigned_distance_to(hexx::Hex::new(b.x, b.y))
}

/// Relies on `hexx::shapes::hexagon` (`Hex::range`): enumerates, exactly
/// once each, every cell within the given distance of the origin.
#[verifier::external_body]
fn hexagon_cells(radius: u32) -> (r: Vec<Hex>)
    requires
        radius <= MAX_RADIUS as u32,
    ensures
        forall|h: Hex| r@.contains(h) <==> hex_len(h.x as int, h.y as int) <= radius as int,
        forall|i: int, j: int| 0 <= i < j < r@.len() ==> r@[i] != r@[j],
{
    hexx::shapes::hexagon(hexx::Hex::ZERO, radius)
        .map(|h| Hex { x: h.x, y: h.y })
        .collect()
}

/// Every cell of the filled hexagon of the given radius around the origin,
/// each exactly once.
pub fn hexagon_area(radius: usize) -> (r: Vec<Hex>)
    requires
        radius <= MAX_RADIUS,
    ensures
        forall|h: Hex| r@.contains(h) <==> hex_len(h.x as int, h.y as int) <= radius as int,
        forall|i: int, j: int| 0 <= i < j < r@.len() ==> r@[i] != r@[j],
{
    hexagon_cells(radius as u32)
}

/// Distance of `c` from the origin under the hex metric.
pub fn distance_from_center(c: Hex) -> (r: u32)
    requires
        -(GEOM_BOUND as int) <= c.x as int <= GEOM_BOUND as int,
        -(GEOM_BOUND as int) <= c.y as int <= GEOM_BOUND as int,
    ensures
        r as int == hex_len(c.x as int, c.y as int),
{
    hex_distance(c, Hex { x: 0, y: 0 })
}

impl DiagonalDirection {
    /// The axis direction clockwise-adjacent to this vertex direction,
    /// following the correspondence of `hexx` (vertex index to the edge of
    /// the same index).
    pub fn direction_cw(self) -> (r: HexDirection)
        ensures
            r == self.spec_direction_cw(),
    {
        match self {
            DiagonalDirection::Right => HexDirection::Right,
            DiagonalDirection::TopRight => HexDirection::TopRight,
            DiagonalDirection::TopLeft => HexDirection::TopLeft,
            DiagonalDirection::Left => HexDirection::Left,
            DiagonalDirection::BottomLeft => HexDirection::BottomLeft,
            DiagonalDirection::BottomRight => HexDirection::BottomRight,
        }
    }

    pub open spec fn spec_direction_cw(self) -> HexDirection {
        match self {
            DiagonalDirection::Right => HexDirection::Right,
            DiagonalDirection::TopRight => HexDirection::TopRight,
            DiagonalDirection::TopLeft => HexDirection::TopLeft,
            DiagonalDirection::Left => HexDirection::Left,
            DiagonalDirection::BottomLeft => HexDirection::BottomLeft,
            DiagonalDirection::BottomRight => HexDirection::BottomRight,
        }
    }
}

/// Coordinates along a line stay within one unit per step of the start.
pub proof fn lemma_line_at_bounds(l: Line, k: int)
    requires
        0 <= k,
    ensures
        abs_val(line_at(l, k).0 - l.start.x as int) <= k,
        abs_val(line_at(l, k).1 - l.start.y as int) <= k,
    decreases k,
{
    if k > 0 {
        lemma_line_at_bounds(l, k - 1);
    }
}

/// Each step in a line's direction raises the direction's functional by one.
pub proof fn lemma_line_at_phi(l: Line, k: int)
    requires
        0 <= k,
    ensures
        dir_phi(l.direction, line_at(l, k).0, line_at(l, k).1)
            == dir_phi(l.direction, l.start.x as int, l.start.y as int) + k,
    decreases k,
{
    if k > 0 {
        lemma_line_at_phi(l, k - 1);
    }
}

impl Line {
    /// The coordinate reached after stepping `k` times from `start` along
    /// `direction`.
    pub fn at(&self, k: usize) -> (r: Hex)
        requires
            in_bounds(self.start),
            k <= MAX_RADIUS,
        ensures
            hex_at(r) == line_at(*self, k as int),
    {
        let mut current = self.start;
        let mut i: usize = 0;
        while i < k
            invariant
                i <= k,
                k <= MAX_RADIUS,
                in_bounds(self.start),
                hex_at(current) == line_at(*self, i as int),
                abs_val(current.x as int - self.start.x as int) <= i as int,
                abs_val(current.y as int - self.start.y as int) <= i as int,
            decreases k - i,
        {
            current = hex_neighbor(current, self.direction);
            i = i + 1;
        }
        current
    }

    /// The ordered run of coordinates visited from `start`: the walk stops
    /// once the next cell would lie strictly outside the bound `radius`
    /// (hex distance from the center). The start cell is always included.
    pub fn cells(&self, radius: usize) -> (r: Vec<Hex>)
        requires
            in_bounds(self.start),
            radius <= MAX_RADIUS,
        ensures
            r@.len() >= 1,
            forall|j: int| 0 <= j < r@.len() ==> hex_at(#[trigger] r@[j]) == line_at(*self, j),
            forall|j: int|
                1 <= j < r@.len() ==> len_of(#[trigger] line_at(*self, j)) <= radius as int,
            len_of(line_at(*self, r@.len() as int)) > radius as int,
    {
        let origin = Hex { x: 0, y: 0 };
        let mut cells: Vec<Hex> = Vec::new();
        let mut current = self.start;
        cells.push(current);
        let mut i: usize = 1;
        let mut next = hex_neighbor(current, self.direction);
        proof {
            assert(line_at(*self, 0) == (self.start.x as int, self.start.y as int));
            assert(hex_at(next) == line_at(*self, 1));
        }
        while hex_distance(next, origin) <= radius as u32
            invariant
                origin == (Hex { x: 0, y: 0 }),
                in_bounds(self.start),
                radius <= MAX_RADIUS,
                1 <= i as int <= radius as int + COORD_BOUND as int + 1,
                cells@.len() == i as int,
                hex_at(current) == line_at(*self, i as int - 1),
                hex_at(next) == line_at(*self, i as int),
                forall|j: int| 0 <= j < i as int ==> hex_at(#[trigger] cells@[j]) == line_at(*self, j),
                forall|j: int|
                    1 <= j < i as int ==> len_of(#[trigger] line_at(*self, j)) <= radius as int,
                abs_val(current.x as int - self.start.x as int) <= i as int - 1,
                abs_val(current.y as int - self.start.y as int) <= i as int - 1,
                abs_val(next.x as int - self.start.x as int) <= i as int,
                abs_val(next.y as int - self.start.y as int) <= i as int,
            decreases MAX_RADIUS as int + COORD_BOUND as int + 1 - i as int,
        {
            proof {
                // the walk has not left the hexagon, which bounds the step count
                lemma_line_at_phi(*self, i as int);
                assert(len_of(line_at(*self, i as int)) <= radius as int);
            }
            current = next;
            cells.push(current);
            i = i + 1;
            next = hex_neighbor(current, self.direction);
        }
        cells
    }
}

} // verus!
