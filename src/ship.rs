//! Ships: a straight run of cells with a hit marker per cell.
use vstd::prelude::*;
use vstd::set_lib::{lemma_int_range, lemma_len_subset, lemma_subset_equality, set_int_range};
use crate::grid::{fits, line_cell};

verus! {

/// Why a placement was refused.
#[derive(PartialEq, Eq, Structural, Debug, Clone, Copy)]
pub enum PlacementError {
    /// Some cell of the run would leave the 10×10 grid.
    OutOfBounds,
    /// Some cell of the run is taken by a ship placed earlier.
    Overlap,
}

/// Some cell of the run of `len` cells from `(x, y)` is taken by one of
/// `placed`.
pub open spec fn collides(x: int, y: int, len: int, down: bool, placed: Seq<Ship>) -> bool {
    exists|k: int, i: int|
        0 <= k < placed.len() && 0 <= i < len && #[trigger] placed[k].covers(
            line_cell(x, y, i, down),
        )
}

/// Why the run of `len` cells from `(x, y)` cannot join `placed`, if it
/// cannot: leaving the grid comes before overlapping.
pub open spec fn refusal(x: int, y: int, len: int, down: bool, placed: Seq<Ship>) -> Option<
    PlacementError,
> {
    if !fits(x, y, len, down) {
        Some(PlacementError::OutOfBounds)
    } else if collides(x, y, len, down, placed) {
        Some(PlacementError::Overlap)
    } else {
        None
    }
}

/// Every marker is set.
pub open spec fn all_hit(hits: Seq<bool>) -> bool {
    forall|i: int| 0 <= i < hits.len() ==> #[trigger] hits[i]
}

/// The hit markers `hits` after hits at positions `ks`, in order.
pub open spec fn hit_all(hits: Seq<bool>, ks: Seq<int>) -> Seq<bool>
    decreases ks.len(),
{
    if ks.len() == 0 {
        hits
    } else {
        hit_all(hits, ks.drop_last()).update(ks.last(), true)
    }
}

/// The hit markers of a ship of `len` cells that nothing has hit.
pub open spec fn unhit(len: nat) -> Seq<bool> {
    Seq::new(len, |i: int| false)
}

/// After hits at positions `ks` on an unhit ship, a marker is set exactly
/// where some hit landed.
pub proof fn lemma_hit_all_marks(len: nat, ks: Seq<int>)
    requires
        forall|i: int| 0 <= i < ks.len() ==> 0 <= #[trigger] ks[i] < len,
    ensures
        hit_all(unhit(len), ks).len() == len,
        forall|c: int| 0 <= c < len ==> (#[trigger] hit_all(unhit(len), ks)[c] <==> ks.contains(c)),
    decreases ks.len(),
{
    if ks.len() > 0 {
        let rest = ks.drop_last();
        assert forall|i: int| 0 <= i < rest.len() implies 0 <= #[trigger] rest[i] < len by {
            assert(rest[i] == ks[i]);
        }
        lemma_hit_all_marks(len, rest);
        assert forall|c: int| 0 <= c < len implies (#[trigger] hit_all(unhit(len), ks)[c]
            <==> ks.contains(c)) by {
            if ks.contains(c) && c != ks.last() {
                let i = choose|i: int| 0 <= i < ks.len() && ks[i] == c;
                assert(i != ks.len() - 1);
                assert(rest[i] == c);
            }
            if rest.contains(c) {
                let i = choose|i: int| 0 <= i < rest.len() && rest[i] == c;
                assert(ks[i] == c);
            }
            assert(ks[ks.len() - 1] == ks.last());
        }
    }
}

/// A ship of `len` cells that nothing has hit is sunk after hits on
/// distinct cells `ks` exactly when there are `len` of them: no fewer
/// sink it.
pub proof fn lemma_sunk_after_len_hits(len: nat, ks: Seq<int>)
    requires
        ks.no_duplicates(),
        forall|i: int| 0 <= i < ks.len() ==> 0 <= #[trigger] ks[i] < len,
    ensures
        all_hit(hit_all(unhit(len), ks)) <==> ks.len() == len,
{
    lemma_hit_all_marks(len, ks);
    let h = hit_all(unhit(len), ks);
    let found = ks.to_set();
    let range = set_int_range(0, len as int);
    ks.unique_seq_to_set();
    lemma_int_range(0, len as int);
    assert(found.subset_of(range));
    lemma_len_subset(found, range);
    if ks.len() == len {
        lemma_subset_equality(found, range);
        assert forall|i: int| 0 <= i < h.len() implies #[trigger] h[i] by {
            assert(range.contains(i));
        }
    }
    if all_hit(h) {
        assert forall|i: int| range.contains(i) implies found.contains(i) by {
            assert(h[i]);
        }
        assert(range.subset_of(found));
        lemma_len_subset(range, found);
    }
}

/// Two runs of cells have a cell in common.
pub open spec fn shares_cell(a: Seq<usize>, b: Seq<usize>) -> bool {
    exists|i: int, j: int| 0 <= i < a.len() && 0 <= j < b.len() && #[trigger] a[i] == #[trigger] b[j]
}

/// A placed ship: the run of `pos.len()` cells starting at `(x, y)`,
/// going down when `down` holds and right otherwise, and whether each
/// cell has been hit.
#[derive(Debug, Clone)]
pub struct Ship {
    pub x: u8,
    pub y: u8,
    pub down: bool,
    pub pos: Vec<usize>,
    pub hits: Vec<bool>,
}

impl Ship {
    /// The ship's cells are exactly the run its origin, length and
    /// orientation describe, and it has one hit marker per cell.
    pub open spec fn wf(&self) -> bool {
        &&& fits(self.x as int, self.y as int, self.pos@.len() as int, self.down)
        &&& self.hits@.len() == self.pos@.len()
        &&& forall|i: int|
            0 <= i < self.pos@.len() ==> #[trigger] self.pos@[i] == line_cell(
                self.x as int,
                self.y as int,
                i,
                self.down,
            )
    }

    /// Every cell of the ship has been hit.
    pub open spec fn is_sunk(&self) -> bool {
        all_hit(self.hits@)
    }

    /// No cell of the ship has been hit.
    pub open spec fn is_fresh(&self) -> bool {
        forall|i: int| 0 <= i < self.hits@.len() ==> !#[trigger] self.hits@[i]
    }

    /// The ship occupies cell `c`.
    pub open spec fn covers(&self, c: int) -> bool {
        exists|i: int| 0 <= i < self.pos@.len() && #[trigger] self.pos@[i] == c
    }

    /// The run of `len` cells from zero-based `(x, y)`, going down when
    /// `down` holds and right otherwise, as a ship with no hits; `None`
    /// when the run leaves the grid.
    pub fn create_with_pos_and_rotation(x: u8, y: u8, len: u8, down: bool) -> (r: Option<Ship>)
        ensures
            r is Some <==> fits(x as int, y as int, len as int, down),
            r matches Some(s) ==> {
                &&& s.wf()
                &&& s.is_fresh()
                &&& s.x == x
                &&& s.y == y
                &&& s.down == down
                &&& s.pos@.len() == len
            },
    {
        if x >= 10 || y >= 10 {
            return None;
        }
        if down && y as u16 + len as u16 > 10 {
            return None;
        }
        if !down && x as u16 + len as u16 > 10 {
            return None;
        }
        let idx: usize = x as usize + y as usize * 10;
        let mut pos: Vec<usize> = Vec::new();
        let mut hits: Vec<bool> = Vec::new();
        let mut offset: usize = 0;
        while offset < len as usize
            invariant
                fits(x as int, y as int, len as int, down),
                idx == x + y * 10,
                offset <= len,
                pos@.len() == offset,
                hits@.len() == offset,
                forall|i: int| 0 <= i < offset ==> #[trigger] pos@[i] == line_cell(x as int, y as int, i, down),
                forall|i: int| 0 <= i < offset ==> !#[trigger] hits@[i],
            decreases len - offset,
        {
            if down {
                pos.push(offset * 10 + idx);
            } else {
                pos.push(offset + idx);
            }
            hits.push(false);
            offset += 1;
        }
        Some(Ship { x, y, down, pos, hits })
    }

    /// The cells of a well-formed ship lie on the grid and are distinct.
    pub proof fn lemma_cells_distinct(&self)
        requires
            self.wf(),
        ensures
            forall|i: int| 0 <= i < self.pos@.len() ==> #[trigger] self.pos@[i] < 100,
            self.pos@.no_duplicates(),
    {
        assert forall|i: int| 0 <= i < self.pos@.len() implies #[trigger] self.pos@[i] < 100 by {
            assert(self.pos@[i] == line_cell(self.x as int, self.y as int, i, self.down));
        }
        assert forall|i: int, j: int|
            0 <= i < self.pos@.len() && 0 <= j < self.pos@.len() && i != j implies self.pos@[i]
            != self.pos@[j] by {
            assert(self.pos@[i] == line_cell(self.x as int, self.y as int, i, self.down));
            assert(self.pos@[j] == line_cell(self.x as int, self.y as int, j, self.down));
        }
    }

    /// Places a ship of `len` cells at zero-based `(x, y)`, going down when
    /// `down` holds and right otherwise, beside the ships already `placed`.
    /// Refused with `OutOfBounds` when the run leaves the grid, else with
    /// `Overlap` when it takes a cell of a placed ship.
    pub fn place(x: u8, y: u8, len: u8, down: bool, placed: &Vec<Ship>) -> (r: Result<
        Ship,
        PlacementError,
    >)
        ensures
            r is Err <==> refusal(x as int, y as int, len as int, down, placed@) is Some,
            r matches Err(e) ==> refusal(x as int, y as int, len as int, down, placed@) == Some(e),
            r matches Ok(s) ==> {
                &&& s.wf()
                &&& s.is_fresh()
                &&& s.x == x
                &&& s.y == y
                &&& s.down == down
                &&& s.pos@.len() == len
                &&& s.pos@.no_duplicates()
                &&& forall|i: int| 0 <= i < len ==> #[trigger] s.pos@[i] < 100
            },
    {
        let ship = match Ship::create_with_pos_and_rotation(x, y, len, down) {
            Some(s) => s,
            None => return Err(PlacementError::OutOfBounds),
        };
        proof {
            ship.lemma_cells_distinct();
        }
        let mut k: usize = 0;
        while k < placed.len()
            invariant
                k <= placed@.len(),
                ship.wf(),
                ship.x == x && ship.y == y && ship.down == down && ship.pos@.len() == len,
                forall|m: int, i: int|
                    0 <= m < k && 0 <= i < len ==> !#[trigger] placed@[m].covers(
                        line_cell(x as int, y as int, i, down),
                    ),
            decreases placed@.len() - k,
        {
            if placed[k].intersects_ship(&ship) {
                proof {
                    let (i, j) = choose|i: int, j: int|
                        0 <= i < placed@[k as int].pos@.len() && 0 <= j < ship.pos@.len()
                            && #[trigger] placed@[k as int].pos@[i] == #[trigger] ship.pos@[j];
                    assert(ship.pos@[j] == line_cell(x as int, y as int, j, down));
                    assert(placed@[k as int].covers(line_cell(x as int, y as int, j, down)));
                }
                return Err(PlacementError::Overlap);
            }
            assert forall|i: int| 0 <= i < len implies !#[trigger] placed@[k as int].covers(
                line_cell(x as int, y as int, i, down),
            ) by {
                assert(ship.pos@[i] == line_cell(x as int, y as int, i, down));
                if placed@[k as int].covers(line_cell(x as int, y as int, i, down)) {
                    let j = choose|j: int|
                        0 <= j < placed@[k as int].pos@.len() && #[trigger] placed@[k as int].pos@[j]
                            == line_cell(x as int, y as int, i, down);
                    assert(placed@[k as int].pos@[j] == ship.pos@[i]);
                }
            }
            k += 1;
        }
        Ok(ship)
    }

    /// Position among the ship's cells of `c` if that cell is not hit yet.
    pub fn unhit_position(&self, c: usize) -> (r: Option<usize>)
        ensures
            r matches Some(k) ==> k < self.pos@.len() && k < self.hits@.len() && self.pos@[k as int]
                == c && !self.hits@[k as int],
            r is None ==> forall|k: int|
                0 <= k < self.pos@.len() && k < self.hits@.len() && self.pos@[k] == c
                    ==> #[trigger] self.hits@[k],
    {
        let mut k: usize = 0;
        while k < self.pos.len() && k < self.hits.len()
            invariant
                k <= self.pos@.len(),
                k <= self.hits@.len(),
                forall|j: int| 0 <= j < k && self.pos@[j] == c ==> #[trigger] self.hits@[j],
            decreases self.pos@.len() - k,
        {
            if self.pos[k] == c && !self.hits[k] {
                return Some(k);
            }
            k += 1;
        }
        None
    }

    /// A ship that shares a cell with one already placed is refused as an
    /// overlap, whichever of the two is placed first.
    pub proof fn lemma_overlap_either_order(a: Ship, b: Ship)
        requires
            a.wf(),
            b.wf(),
            shares_cell(a.pos@, b.pos@),
        ensures
            refusal(b.x as int, b.y as int, b.pos@.len() as int, b.down, seq![a]) == Some(
                PlacementError::Overlap,
            ),
            refusal(a.x as int, a.y as int, a.pos@.len() as int, a.down, seq![b]) == Some(
                PlacementError::Overlap,
            ),
    {
        let (i, j) = choose|i: int, j: int|
            0 <= i < a.pos@.len() && 0 <= j < b.pos@.len() && #[trigger] a.pos@[i] == #[trigger] b.pos@[j];
        assert(b.pos@[j] == line_cell(b.x as int, b.y as int, j, b.down));
        assert(a.pos@[i] == line_cell(a.x as int, a.y as int, i, a.down));
        assert(seq![a][0].covers(line_cell(b.x as int, b.y as int, j, b.down)));
        assert(seq![b][0].covers(line_cell(a.x as int, a.y as int, i, a.down)));
    }

    /// Whether every cell of the ship has been hit.
    pub fn sunk(&self) -> (r: bool)
        ensures
            r == self.is_sunk(),
    {
        let mut i: usize = 0;
        while i < self.hits.len()
            invariant
                i <= self.hits@.len(),
                forall|j: int| 0 <= j < i ==> #[trigger] self.hits@[j],
            decreases self.hits@.len() - i,
        {
            if !self.hits[i] {
                return false;
            }
            i += 1;
        }
        true
    }

    /// Whether the ship occupies cell `c`.
    pub fn contains(&self, c: usize) -> (r: bool)
        ensures
            r == self.covers(c as int),
    {
        let mut i: usize = 0;
        while i < self.pos.len()
            invariant
                i <= self.pos@.len(),
                forall|j: int| 0 <= j < i ==> #[trigger] self.pos@[j] != c,
            decreases self.pos@.len() - i,
        {
            if self.pos[i] == c {
                return true;
            }
            i += 1;
        }
        false
    }

    /// Whether the two ships have a cell in common.
    pub fn intersects_ship(&self, ship: &Ship) -> (r: bool)
        ensures
            r == shares_cell(self.pos@, ship.pos@),
    {
        let mut j: usize = 0;
        while j < ship.pos.len()
            invariant
                j <= ship.pos@.len(),
                forall|i: int, k: int|
                    0 <= i < self.pos@.len() && 0 <= k < j ==> #[trigger] self.pos@[i] != #[trigger] ship.pos@[k],
            decreases ship.pos@.len() - j,
        {
            if self.contains(ship.pos[j]) {
                return true;
            }
            j += 1;
        }
        false
    }
}

} // verus!
