//! Interactive ship placement: a cursor ship moved around the grid, and a
//! session that places the whole fleet one ship at a time.
use vstd::prelude::*;
use crate::board::{fleet_wf, Board, FLEET_SIZE};
use crate::grid::{fits, line_cell};
use crate::ship::{shares_cell, Ship};

verus! {

/// A key that acts on the ship being placed.
#[derive(PartialEq, Eq, Structural, Debug, Clone, Copy)]
pub enum PlacementKey {
    Up,
    Down,
    Left,
    Right,
    /// Switch between down and right.
    Rotate,
    /// Place the ship where it stands.
    Confirm,
}

/// How a cell looks while a ship is being placed.
#[derive(PartialEq, Eq, Structural, Debug, Clone, Copy)]
pub enum Shade {
    /// A free cell.
    Plain,
    /// A cell of a ship placed earlier.
    Taken,
    /// The origin of the ship being placed.
    Origin,
    /// Another cell of the ship being placed.
    Body,
}

/// The ship being placed: its origin `pos` as zero-based `(x, y)`, its
/// length, its orientation (`rotated` means down), and the cells that
/// earlier ships occupy.
#[derive(Debug, Clone, Copy)]
pub struct ShipPlacement {
    pub pos: (usize, usize),
    pub length: usize,
    pub rotated: bool,
    pub occupied: [bool; 100],
}

/// Whether a run of `length` cells from `(x, y)` lies within the grid.
pub open spec fn valid_at(length: int, x: int, y: int, rotated: bool) -> bool {
    (!rotated && x + length <= 10 && y < 10) || (rotated && y + length <= 10 && x < 10)
}

/// None of the `len` cells of the run from `(x, y)` is marked in `grid`.
pub open spec fn run_free(grid: Seq<bool>, x: int, y: int, len: int, down: bool) -> bool {
    forall|i: int| 0 <= i < len ==> !#[trigger] grid[line_cell(x, y, i, down)]
}

/// The origin and orientation that `key` asks for; moving up or left stops
/// at the edge.
pub open spec fn requested(pos: (usize, usize), rotated: bool, key: PlacementKey) -> (
    int,
    int,
    bool,
) {
    let (x, y) = (pos.0 as int, pos.1 as int);
    match key {
        PlacementKey::Up => (x, if y > 0 { y - 1 } else { 0 }, rotated),
        PlacementKey::Down => (x, y + 1, rotated),
        PlacementKey::Left => (if x > 0 { x - 1 } else { 0 }, y, rotated),
        PlacementKey::Right => (x + 1, y, rotated),
        PlacementKey::Rotate => (x, y, !rotated),
        PlacementKey::Confirm => (x, y, rotated),
    }
}

impl ShipPlacement {
    /// A ship of `length` at the top left corner, lying right.
    pub fn new(length: usize, occupied: [bool; 100]) -> (r: Self)
        ensures
            r.pos == (0usize, 0usize),
            r.length == length,
            !r.rotated,
            r.occupied == occupied,
    {
        ShipPlacement { pos: (0, 0), length, rotated: false, occupied }
    }

    /// Whether this ship may stand at `(x, y)` with orientation `rotated`
    /// without leaving the grid.
    pub fn valid(&self, x: usize, y: usize, rotated: bool) -> (r: bool)
        ensures
            r == valid_at(self.length as int, x as int, y as int, rotated),
    {
        (!rotated && x <= 10 && self.length <= 10 - x && y < 10) || (rotated && y <= 10
            && self.length <= 10 - y && x < 10)
    }

    /// `(x, y)` is one of this ship's cells where it stands now.
    pub open spec fn holds(&self, x: int, y: int) -> bool {
        ||| (!self.rotated && x >= self.pos.0 && x - self.pos.0 < self.length && self.pos.1 == y)
        ||| (self.rotated && y >= self.pos.1 && y - self.pos.1 < self.length && self.pos.0 == x)
    }

    /// Whether `(x, y)` is one of this ship's cells where it stands now.
    pub fn inship(&self, x: usize, y: usize) -> (r: bool)
        ensures
            r == self.holds(x as int, y as int),
    {
        (!self.rotated && x >= self.pos.0 && x - self.pos.0 < self.length && self.pos.1 == y) || (
        self.rotated && y >= self.pos.1 && y - self.pos.1 < self.length && self.pos.0 == x)
    }

    /// How cell `(x, y)` looks: the ship being placed shows over the
    /// ships placed before.
    pub fn shade(&self, x: usize, y: usize) -> (r: Shade)
        requires
            x < 10,
            y < 10,
        ensures
            r == if x == self.pos.0 && y == self.pos.1 {
                Shade::Origin
            } else if self.holds(x as int, y as int) {
                Shade::Body
            } else if self.occupied@[x + y * 10] {
                Shade::Taken
            } else {
                Shade::Plain
            },
    {
        if x == self.pos.0 && y == self.pos.1 {
            Shade::Origin
        } else if self.inship(x, y) {
            Shade::Body
        } else if self.occupied[x + y * 10] {
            Shade::Taken
        } else {
            Shade::Plain
        }
    }

    /// Moves or turns the ship as `key` asks, when it stays within the
    /// grid there; `Confirm` and refused moves change nothing.
    pub fn nudge(&mut self, key: PlacementKey)
        ensures
            final(self).length == old(self).length,
            final(self).occupied == old(self).occupied,
            ({
                let (x, y, rot) = requested(old(self).pos, old(self).rotated, key);
                if valid_at(old(self).length as int, x, y, rot) {
                    final(self).pos.0 == x && final(self).pos.1 == y && final(self).rotated == rot
                } else {
                    final(self).pos == old(self).pos && final(self).rotated == old(self).rotated
                }
            }),
    {
        let (x, y) = self.pos;
        match key {
            PlacementKey::Up => {
                let ny = if y > 0 { y - 1 } else { 0 };
                if self.valid(x, ny, self.rotated) {
                    self.pos = (x, ny);
                }
            },
            PlacementKey::Down => {
                if y < 10 && self.valid(x, y + 1, self.rotated) {
                    self.pos = (x, y + 1);
                }
            },
            PlacementKey::Left => {
                let nx = if x > 0 { x - 1 } else { 0 };
                if self.valid(nx, y, self.rotated) {
                    self.pos = (nx, y);
                }
            },
            PlacementKey::Right => {
                if x < 10 && self.valid(x + 1, y, self.rotated) {
                    self.pos = (x + 1, y);
                }
            },
            PlacementKey::Rotate => {
                if self.valid(x, y, !self.rotated) {
                    self.rotated = !self.rotated;
                }
            },
            PlacementKey::Confirm => {},
        }
    }

    /// Places the ship where it stands if it lies on the grid and none of
    /// its cells is marked in `other`; its cells are then marked there.
    /// Otherwise `None`, and `other` is unchanged.
    pub fn create_ship(&self, other: &mut [bool; 100]) -> (r: Option<Ship>)
        ensures
            r is Some <==> fits(self.pos.0 as int, self.pos.1 as int, self.length as int, self.rotated)
                && run_free(old(other)@, self.pos.0 as int, self.pos.1 as int, self.length as int, self.rotated),
            r is None ==> *final(other) == *old(other),
            r matches Some(s) ==> {
                &&& s.wf()
                &&& s.is_fresh()
                &&& s.x == self.pos.0
                &&& s.y == self.pos.1
                &&& s.down == self.rotated
                &&& s.pos@.len() == self.length
                &&& forall|c: int|
                    0 <= c < 100 ==> #[trigger] final(other)@[c] == (old(other)@[c] || s.covers(c))
            },
    {
        let (x, y) = self.pos;
        if !self.valid(x, y, self.rotated) || x >= 10 || y >= 10 {
            return None;
        }
        let ship = match Ship::create_with_pos_and_rotation(
            x as u8,
            y as u8,
            self.length as u8,
            self.rotated,
        ) {
            Some(s) => s,
            None => return None,
        };
        let mut i: usize = 0;
        while i < ship.pos.len()
            invariant
                ship.wf(),
                i <= ship.pos@.len(),
                *other == *old(other),
                x == self.pos.0 && y == self.pos.1,
                ship.x == x && ship.y == y && ship.down == self.rotated && ship.pos@.len()
                    == self.length,
                forall|j: int| 0 <= j < i ==> !#[trigger] other@[ship.pos@[j] as int],
            decreases ship.pos@.len() - i,
        {
            assert(ship.pos@[i as int] == line_cell(x as int, y as int, i as int, self.rotated));
            if other[ship.pos[i]] {
                proof {
                    assert(!run_free(other@, x as int, y as int, self.length as int, self.rotated)) by {
                        assert(other@[line_cell(x as int, y as int, i as int, self.rotated)]);
                    }
                }
                return None;
            }
            i += 1;
        }
        assert(run_free(other@, x as int, y as int, self.length as int, self.rotated)) by {
            assert forall|j: int| 0 <= j < self.length implies !#[trigger] other@[line_cell(
                x as int,
                y as int,
                j,
                self.rotated,
            )] by {
                assert(ship.pos@[j] == line_cell(x as int, y as int, j, self.rotated));
            }
        }
        let ghost before = other@;
        let mut k: usize = 0;
        while k < ship.pos.len()
            invariant
                ship.wf(),
                k <= ship.pos@.len(),
                other@.len() == 100,
                forall|c: int| 0 <= c < 100 ==> before[c] == old(other)@[c],
                forall|c: int|
                    0 <= c < 100 ==> #[trigger] other@[c] == (before[c] || exists|j: int|
                        0 <= j < k && ship.pos@[j] == c),
            decreases ship.pos@.len() - k,
        {
            proof {
                ship.lemma_cells_distinct();
            }
            other[ship.pos[k]] = true;
            k += 1;
        }
        Some(ship)
    }
}

/// Placing a fleet: the ships still to place, the last one first, the
/// ships placed so far, and the cells they occupy.
#[derive(Debug)]
pub struct PlacementSession {
    pub placements: Vec<ShipPlacement>,
    pub ships: Vec<Ship>,
    pub grid: [bool; 100],
}

/// Cell `c` is one of the cells of `ships`.
pub open spec fn occupied_by(ships: Seq<Ship>, c: int) -> bool {
    exists|s: int| 0 <= s < ships.len() && #[trigger] ships[s].covers(c)
}

impl PlacementSession {
    /// The placed ships are well formed and pairwise apart, `grid` marks
    /// exactly their cells, the ship being placed sees that grid, and
    /// placed and waiting ships make a fleet.
    pub open spec fn wf(&self) -> bool {
        &&& self.ships@.len() + self.placements@.len() == FLEET_SIZE
        &&& fleet_wf(self.ships@)
        &&& forall|c: int| 0 <= c < 100 ==> (#[trigger] self.grid@[c] <==> occupied_by(self.ships@, c))
        &&& self.placements@.len() > 0 ==> self.placements@.last().occupied == self.grid
    }

    /// A session for the fleet of lengths 5, 4, 3, 3 and 2, placed in that
    /// order, on an empty grid.
    pub fn new() -> (r: Self)
        ensures
            r.wf(),
            r.ships@.len() == 0,
            r.placements@.len() == FLEET_SIZE,
            r.placements@[0].length == 2,
            r.placements@[1].length == 3,
            r.placements@[2].length == 3,
            r.placements@[3].length == 4,
            r.placements@[4].length == 5,
            forall|c: int| 0 <= c < 100 ==> !#[trigger] r.grid@[c],
    {
        let grid = [false; 100];
        let placements = vec![
            ShipPlacement::new(2, grid),
            ShipPlacement::new(3, grid),
            ShipPlacement::new(3, grid),
            ShipPlacement::new(4, grid),
            ShipPlacement::new(5, grid),
        ];
        PlacementSession { placements, ships: Vec::new(), grid }
    }

    /// Whether every ship of the fleet has been placed.
    pub fn is_complete(&self) -> (r: bool)
        ensures
            r == (self.placements@.len() == 0),
    {
        self.placements.len() == 0
    }

    /// Acts on the ship being placed. A move or a turn goes through when
    /// the ship stays within the grid. `Confirm` places the ship when it
    /// lies on the grid clear of the ships placed before, and the result is
    /// then `true`; otherwise nothing changes.
    pub fn handle_key(&mut self, key: PlacementKey) -> (placed: bool)
        requires
            old(self).wf(),
            old(self).placements@.len() > 0,
        ensures
            final(self).wf(),
            key != PlacementKey::Confirm ==> {
                let p = old(self).placements@.last();
                let q = final(self).placements@.last();
                let (x, y, rot) = requested(p.pos, p.rotated, key);
                &&& !placed
                &&& final(self).ships == old(self).ships
                &&& final(self).grid == old(self).grid
                &&& final(self).placements@.len() == old(self).placements@.len()
                &&& final(self).placements@.drop_last() == old(self).placements@.drop_last()
                &&& q.length == p.length
                &&& if valid_at(p.length as int, x, y, rot) {
                    q.pos.0 == x && q.pos.1 == y && q.rotated == rot
                } else {
                    q.pos == p.pos && q.rotated == p.rotated
                }
            },
            key == PlacementKey::Confirm ==> {
                let p = old(self).placements@.last();
                &&& placed <==> fits(p.pos.0 as int, p.pos.1 as int, p.length as int, p.rotated)
                    && run_free(old(self).grid@, p.pos.0 as int, p.pos.1 as int, p.length as int, p.rotated)
                &&& !placed ==> *final(self) == *old(self)
                &&& placed ==> {
                    let s = final(self).ships@.last();
                    &&& final(self).ships@.len() == old(self).ships@.len() + 1
                    &&& final(self).ships@.drop_last() == old(self).ships@
                    &&& s.x == p.pos.0 && s.y == p.pos.1 && s.down == p.rotated
                    &&& s.pos@.len() == p.length
                    &&& s.is_fresh()
                    &&& final(self).placements@.len() == old(self).placements@.len() - 1
                    &&& forall|i: int|
                        0 <= i < final(self).placements@.len() ==> (
                        #[trigger] final(self).placements@[i]).length == old(self).placements@[i].length
                }
            },
    {
        let last = self.placements.len() - 1;
        if key != PlacementKey::Confirm {
            self.placements[last].nudge(key);
            return false;
        }
        let ghost old_grid = self.grid@;
        let ghost old_ships = self.ships@;
        match self.placements[last].create_ship(&mut self.grid) {
            None => false,
            Some(ship) => {
                proof {
                    lemma_clear_ship_apart(old_ships, old_grid, ship);
                }
                self.ships.push(ship);
                assert(self.ships@.drop_last() =~= old_ships);
                proof {
                    lemma_grid_after_push(old_ships, old_grid, self.ships@, self.grid@);
                }
                self.placements.pop();
                if self.placements.len() > 0 {
                    let next = self.placements.len() - 1;
                    self.placements[next].occupied = self.grid;
                }
                true
            },
        }
    }

    /// The board of the placed fleet, both grids blank and no attack in
    /// flight.
    pub fn into_board(self) -> (r: Board)
        requires
            self.wf(),
            self.placements@.len() == 0,
        ensures
            r.wf(),
            r.ships == self.ships,
            r.pending_attack is None,
            forall|i: int| 0 <= i < 100 ==> #[trigger] r.your_attacks@[i] == crate::board::Mark::Unknown,
            forall|i: int| 0 <= i < 100 ==> #[trigger] r.enemy_attacks@[i] == crate::board::Mark::Unknown,
    {
        Board {
            ships: self.ships,
            your_attacks: [crate::board::Mark::Unknown; 100],
            enemy_attacks: [crate::board::Mark::Unknown; 100],
            pending_attack: None,
        }
    }
}

/// A ship whose cells are all clear in a grid that marks exactly the
/// cells of `ships` shares no cell with any of them.
proof fn lemma_clear_ship_apart(ships: Seq<Ship>, grid: Seq<bool>, ship: Ship)
    requires
        fleet_wf(ships),
        ship.wf(),
        forall|c: int| 0 <= c < 100 ==> (#[trigger] grid[c] <==> occupied_by(ships, c)),
        run_free(grid, ship.x as int, ship.y as int, ship.pos@.len() as int, ship.down),
    ensures
        fleet_wf(ships.push(ship)),
{
    ship.lemma_cells_distinct();
    let all = ships.push(ship);
    assert forall|s: int| 0 <= s < ships.len() implies !shares_cell(
        #[trigger] ships[s].pos@,
        ship.pos@,
    ) by {
        if shares_cell(ships[s].pos@, ship.pos@) {
            let (i, j) = choose|i: int, j: int|
                0 <= i < ships[s].pos@.len() && 0 <= j < ship.pos@.len() && #[trigger] ships[s].pos@[i]
                    == #[trigger] ship.pos@[j];
            assert(ship.pos@[j] == line_cell(ship.x as int, ship.y as int, j, ship.down));
            assert(ships[s].covers(ship.pos@[j] as int));
            assert(occupied_by(ships, ship.pos@[j] as int));
            assert(grid[ship.pos@[j] as int]);
        }
    }
    assert forall|s: int| 0 <= s < all.len() implies #[trigger] all[s].wf() by {
        if s < ships.len() {
            assert(all[s] == ships[s]);
        }
    }
    assert forall|s: int, t: int|
        0 <= s < all.len() && 0 <= t < all.len() && s != t implies !shares_cell(
        #[trigger] all[s].pos@,
        #[trigger] all[t].pos@,
    ) by {
        if s < ships.len() && t < ships.len() {
            assert(all[s] == ships[s]);
            assert(all[t] == ships[t]);
        } else if s < ships.len() {
            assert(all[s] == ships[s]);
            assert(!shares_cell(ships[s].pos@, ship.pos@));
        } else {
            assert(all[t] == ships[t]);
            assert(!shares_cell(ships[t].pos@, ship.pos@));
            if shares_cell(ship.pos@, ships[t].pos@) {
                let (i, j) = choose|i: int, j: int|
                    0 <= i < ship.pos@.len() && 0 <= j < ships[t].pos@.len() && #[trigger] ship.pos@[i]
                        == #[trigger] ships[t].pos@[j];
                assert(shares_cell(ships[t].pos@, ship.pos@));
            }
        }
    }
}

/// Marking a new ship's cells keeps the grid equal to the fleet's cells.
proof fn lemma_grid_after_push(
    ships: Seq<Ship>,
    grid: Seq<bool>,
    after_ships: Seq<Ship>,
    after_grid: Seq<bool>,
)
    requires
        after_ships.len() == ships.len() + 1,
        after_ships.drop_last() == ships,
        forall|c: int| 0 <= c < 100 ==> (#[trigger] grid[c] <==> occupied_by(ships, c)),
        forall|c: int|
            0 <= c < 100 ==> #[trigger] after_grid[c] == (grid[c] || after_ships.last().covers(c)),
    ensures
        forall|c: int| 0 <= c < 100 ==> (#[trigger] after_grid[c] <==> occupied_by(after_ships, c)),
{
    assert forall|c: int| 0 <= c < 100 implies (#[trigger] after_grid[c] <==> occupied_by(
        after_ships,
        c,
    )) by {
        if occupied_by(ships, c) {
            let s = choose|s: int| 0 <= s < ships.len() && #[trigger] ships[s].covers(c);
            assert(after_ships[s] == ships[s]);
        }
        if occupied_by(after_ships, c) {
            let s = choose|s: int| 0 <= s < after_ships.len() && #[trigger] after_ships[s].covers(c);
            if s < ships.len() {
                assert(after_ships[s] == ships[s]);
            }
        }
        if after_ships.last().covers(c) {
            assert(after_ships[after_ships.len() - 1].covers(c));
        }
    }
}

} // verus!
