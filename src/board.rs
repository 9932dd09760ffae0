//! A player's side of the game: the fleet, the two grids and the attack
//! in flight.
use vstd::prelude::*;
use crate::grid::{cell_index, is_wire_coord, wire_index};
use crate::ship::{
    all_hit, hit_all, lemma_hit_all_marks, lemma_sunk_after_len_hits, shares_cell, unhit, Ship,
};

verus! {

/// Number of ships in a fleet.
pub const FLEET_SIZE: usize = 5;

/// What a grid records of one cell.
#[derive(PartialEq, Eq, Structural, Debug, Clone, Copy)]
pub enum Mark {
    /// Not attacked, or attacked without effect.
    Unknown,
    /// Attacked, and a ship was hit there.
    Hit,
    /// Attacked, and no ship was there.
    Miss,
}

/// What an attack on a board did.
#[derive(PartialEq, Eq, Structural, Debug, Clone, Copy)]
pub enum AttackResult {
    Miss,
    Hit,
    /// The hit sank its ship and other ships remain.
    Sunk,
    /// The hit sank the last ship: the defending player has lost.
    Win,
}

/// How a game ended for the local player.
#[derive(PartialEq, Eq, Structural, Debug, Clone, Copy)]
pub enum Status {
    Won,
    Loss,
}

/// Every ship of the fleet is sunk.
pub open spec fn all_sunk(ships: Seq<Ship>) -> bool {
    forall|s: int| 0 <= s < ships.len() ==> #[trigger] ships[s].is_sunk()
}

/// Some ship has `c` among the cells not hit yet.
pub open spec fn has_target(ships: Seq<Ship>, c: int) -> bool {
    exists|s: int, k: int|
        0 <= s < ships.len() && 0 <= k < ships[s].pos@.len() && #[trigger] ships[s].pos@[k] == c
            && !#[trigger] ships[s].hits@[k]
}

/// The ship and the position in it of the unhit cell `c`.
pub open spec fn target(ships: Seq<Ship>, c: int) -> (int, int) {
    choose|s: int, k: int|
        0 <= s < ships.len() && 0 <= k < ships[s].pos@.len() && #[trigger] ships[s].pos@[k] == c
            && !#[trigger] ships[s].hits@[k]
}

/// The result of a hit on ship `s`, read from the fleet after the hit.
pub open spec fn verdict(ships: Seq<Ship>, s: int) -> AttackResult {
    if all_sunk(ships) {
        AttackResult::Win
    } else if ships[s].is_sunk() {
        AttackResult::Sunk
    } else {
        AttackResult::Hit
    }
}

/// Well-formed ships that pairwise share no cell.
pub open spec fn fleet_wf(ships: Seq<Ship>) -> bool {
    &&& forall|s: int| 0 <= s < ships.len() ==> #[trigger] ships[s].wf()
    &&& forall|s: int, t: int|
        0 <= s < ships.len() && 0 <= t < ships.len() && s != t ==> !shares_cell(
            #[trigger] ships[s].pos@,
            #[trigger] ships[t].pos@,
        )
}

impl AttackResult {
    /// The result byte sent back to the attacker.
    pub open spec fn spec_code(self) -> u8 {
        match self {
            AttackResult::Miss => 0,
            AttackResult::Hit => 1,
            AttackResult::Sunk => 2,
            AttackResult::Win => 3,
        }
    }

    /// The result byte sent back to the attacker.
    pub fn code(self) -> (r: u8)
        ensures
            r == self.spec_code(),
    {
        match self {
            AttackResult::Miss => 0,
            AttackResult::Hit => 1,
            AttackResult::Sunk => 2,
            AttackResult::Win => 3,
        }
    }
}

impl Mark {
    /// The character a grid shows for this mark.
    pub open spec fn spec_symbol(self) -> char {
        match self {
            Mark::Unknown => '.',
            Mark::Hit => 'X',
            Mark::Miss => '#',
        }
    }

    /// The character a grid shows for this mark.
    pub fn symbol(self) -> (r: char)
        ensures
            r == self.spec_symbol(),
    {
        match self {
            Mark::Unknown => '.',
            Mark::Hit => 'X',
            Mark::Miss => '#',
        }
    }
}

/// The characters that row `row` of `grid` shows, left to right.
pub fn render_row(grid: &[Mark; 100], row: usize) -> (r: Vec<char>)
    requires
        row < 10,
    ensures
        r@.len() == 10,
        forall|i: int| 0 <= i < 10 ==> #[trigger] r@[i] == grid@[row * 10 + i].spec_symbol(),
{
    let mut r: Vec<char> = Vec::new();
    let mut col: usize = 0;
    while col < 10
        invariant
            row < 10,
            col <= 10,
            r@.len() == col,
            forall|i: int| 0 <= i < col ==> #[trigger] r@[i] == grid@[row * 10 + i].spec_symbol(),
        decreases 10 - col,
    {
        r.push(grid[row * 10 + col].symbol());
        col += 1;
    }
    r
}

/// One player's state: the fleet, the record of this player's own attacks
/// (`your_attacks`), the record of the opponent's hits on the fleet
/// (`enemy_attacks`), and the attack sent and not yet answered.
#[derive(Debug)]
pub struct Board {
    pub ships: Vec<Ship>,
    pub your_attacks: [Mark; 100],
    pub enemy_attacks: [Mark; 100],
    pub pending_attack: Option<(u8, u8)>,
}

impl Board {
    /// Five well-formed ships that share no cell, and an attack in flight
    /// only on a cell of the grid not attacked before.
    pub open spec fn wf(&self) -> bool {
        &&& self.ships@.len() == FLEET_SIZE
        &&& fleet_wf(self.ships@)
        &&& self.pending_attack matches Some((x, y)) ==> {
            &&& is_wire_coord(x as int)
            &&& is_wire_coord(y as int)
            &&& self.your_attacks@[wire_index(x as int, y as int)] == Mark::Unknown
        }
    }

    /// Whether the player may attack wire coordinates `(x, y)`: on the grid,
    /// not the attack in flight, and not attacked before.
    pub open spec fn may_attack(&self, x: int, y: int) -> bool {
        &&& is_wire_coord(x)
        &&& is_wire_coord(y)
        &&& self.pending_attack != Some((x as u8, y as u8))
        &&& self.your_attacks@[wire_index(x, y)] == Mark::Unknown
    }

    /// A board for `ships`, with both grids blank and no attack in flight;
    /// `None` unless there are exactly five ships, no two sharing a cell.
    pub fn from_ships(ships: Vec<Ship>) -> (r: Option<Board>)
        requires
            forall|s: int| 0 <= s < ships@.len() ==> #[trigger] ships@[s].wf(),
        ensures
            r is Some <==> ships@.len() == FLEET_SIZE && fleet_wf(ships@),
            r matches Some(b) ==> {
                &&& b.wf()
                &&& b.ships@ == ships@
                &&& b.pending_attack is None
                &&& forall|i: int| 0 <= i < 100 ==> #[trigger] b.your_attacks@[i] == Mark::Unknown
                &&& forall|i: int| 0 <= i < 100 ==> #[trigger] b.enemy_attacks@[i] == Mark::Unknown
            },
    {
        if ships.len() != FLEET_SIZE {
            return None;
        }
        let mut s: usize = 0;
        while s < ships.len()
            invariant
                s <= ships@.len(),
                forall|a: int, b: int|
                    0 <= a < s && 0 <= b < ships@.len() && a != b ==> !shares_cell(
                        #[trigger] ships@[a].pos@,
                        #[trigger] ships@[b].pos@,
                    ),
            decreases ships@.len() - s,
        {
            let mut t: usize = 0;
            while t < ships.len()
                invariant
                    s < ships@.len(),
                    t <= ships@.len(),
                    forall|a: int, b: int|
                        0 <= a < s && 0 <= b < ships@.len() && a != b ==> !shares_cell(
                            #[trigger] ships@[a].pos@,
                            #[trigger] ships@[b].pos@,
                        ),
                    forall|b: int|
                        0 <= b < t && b != s ==> !shares_cell(
                            ships@[s as int].pos@,
                            #[trigger] ships@[b].pos@,
                        ),
                decreases ships@.len() - t,
            {
                if t != s && ships[s].intersects_ship(&ships[t]) {
                    return None;
                }
                t += 1;
            }
            s += 1;
        }
        Some(
            Board {
                ships,
                your_attacks: [Mark::Unknown; 100],
                enemy_attacks: [Mark::Unknown; 100],
                pending_attack: None,
            },
        )
    }

    /// Whether the player may attack wire coordinates `(x, y)`.
    pub fn can_attack(&self, x: u8, y: u8) -> (r: bool)
        ensures
            r == self.may_attack(x as int, y as int),
    {
        if x < 1 || x > 10 || y < 1 || y > 10 {
            return false;
        }
        if let Some((px, py)) = self.pending_attack {
            if px == x && py == y {
                return false;
            }
        }
        self.your_attacks[cell_index(x, y)] == Mark::Unknown
    }

    /// Sends an attack on wire coordinates `(x, y)`: when the player may
    /// attack there it becomes the attack in flight and the result is
    /// `true`; otherwise nothing changes.
    pub fn make_move(&mut self, x: u8, y: u8) -> (r: bool)
        requires
            old(self).wf(),
        ensures
            r == old(self).may_attack(x as int, y as int),
            final(self).wf(),
            final(self).ships == old(self).ships,
            final(self).your_attacks == old(self).your_attacks,
            final(self).enemy_attacks == old(self).enemy_attacks,
            final(self).pending_attack == if r {
                Some((x, y))
            } else {
                old(self).pending_attack
            },
    {
        if !self.can_attack(x, y) {
            return false;
        }
        self.pending_attack = Some((x, y));
        true
    }

    /// Records the answer to the attack in flight in the player's own
    /// grid and clears it.
    pub fn update_pending(&mut self, mark: Mark)
        requires
            old(self).wf(),
            old(self).pending_attack is Some,
            mark != Mark::Unknown,
        ensures
            final(self).wf(),
            final(self).ships == old(self).ships,
            final(self).enemy_attacks == old(self).enemy_attacks,
            final(self).pending_attack is None,
            old(self).pending_attack matches Some((x, y)) && final(self).your_attacks@
                == old(self).your_attacks@.update(wire_index(x as int, y as int), mark),
    {
        if let Some((x, y)) = self.pending_attack {
            self.your_attacks[cell_index(x, y)] = mark;
        }
        self.pending_attack = None;
    }

    /// Whether every ship of the fleet is sunk.
    pub fn all_ships_sunk(&self) -> (r: bool)
        ensures
            r == all_sunk(self.ships@),
    {
        let mut s: usize = 0;
        while s < self.ships.len()
            invariant
                s <= self.ships@.len(),
                forall|t: int| 0 <= t < s ==> #[trigger] self.ships@[t].is_sunk(),
            decreases self.ships@.len() - s,
        {
            if !self.ships[s].sunk() {
                return false;
            }
            s += 1;
        }
        true
    }

    /// Resolves the opponent's attack on one-based wire coordinates
    /// `(x, y)`. The ship that has that cell among its unhit cells gets it
    /// marked hit, and the result is `Win` when the whole fleet is now sunk,
    /// `Sunk` when that ship is, `Hit` otherwise; the defense grid records
    /// the hit. With no such ship nothing changes and the result is `Miss`:
    /// a cell hit before counts only once.
    pub fn attack(&mut self, x: u8, y: u8) -> (r: AttackResult)
        requires
            old(self).wf(),
            is_wire_coord(x as int),
            is_wire_coord(y as int),
        ensures
            final(self).wf(),
            is_attack_of(*old(self), *final(self), wire_index(x as int, y as int), r),
    {
        let idx = cell_index(x, y);
        let ghost c = wire_index(x as int, y as int);
        let mut s: usize = 0;
        while s < self.ships.len()
            invariant
                *self == *old(self),
                self.wf(),
                idx == c,
                c == wire_index(x as int, y as int),
                0 <= c < 100,
                s <= self.ships@.len(),
                forall|t: int, k: int|
                    0 <= t < s && 0 <= k < self.ships@[t].pos@.len() && self.ships@[t].pos@[k] == c
                        ==> #[trigger] self.ships@[t].hits@[k],
            decreases self.ships@.len() - s,
        {
            assert(self.ships@[s as int].wf());
            match self.ships[s].unhit_position(idx) {
                Some(k) => {
                    proof {
                        lemma_target_unique(self.ships@, c, s as int, k as int);
                    }
                    let ghost before = self.ships@;
                    self.ships[s].hits.set(k, true);
                    proof {
                        lemma_hit_keeps_fleet(before, self.ships@, s as int);
                    }
                    let sunk = self.ships[s].sunk();
                    let r = if sunk && self.all_ships_sunk() {
                        AttackResult::Win
                    } else if sunk {
                        AttackResult::Sunk
                    } else {
                        AttackResult::Hit
                    };
                    self.enemy_attacks[idx] = Mark::Hit;
                    return r;
                },
                None => {},
            }
            s += 1;
        }
        assert(!has_target(self.ships@, c));
        AttackResult::Miss
    }
}

/// `after` is `before` once the opponent's attack on cell `c` has been
/// resolved with result `r`: only the hit markers of the struck ship and
/// the defense grid may change.
pub open spec fn is_attack_of(before: Board, after: Board, c: int, r: AttackResult) -> bool {
    &&& after.your_attacks == before.your_attacks
    &&& after.pending_attack == before.pending_attack
    &&& after.ships@.len() == before.ships@.len()
    &&& forall|s: int|
        0 <= s < before.ships@.len() ==> {
            &&& (#[trigger] after.ships@[s]).pos == before.ships@[s].pos
            &&& after.ships@[s].x == before.ships@[s].x
            &&& after.ships@[s].y == before.ships@[s].y
            &&& after.ships@[s].down == before.ships@[s].down
        }
    &&& has_target(before.ships@, c) ==> {
        let (s, k) = target(before.ships@, c);
        &&& after.ships@[s].hits@ == before.ships@[s].hits@.update(k, true)
        &&& forall|t: int|
            0 <= t < before.ships@.len() && t != s ==> #[trigger] after.ships@[t]
                == before.ships@[t]
        &&& after.enemy_attacks@ == before.enemy_attacks@.update(c, Mark::Hit)
        &&& r == verdict(after.ships@, s)
    }
    &&& !has_target(before.ships@, c) ==> {
        &&& after == before
        &&& r == AttackResult::Miss
    }
}

/// Attacking a cell a second time changes nothing and misses: the first
/// attack already took the cell, so it never counts twice toward sinking.
pub proof fn lemma_attack_twice(
    b0: Board,
    b1: Board,
    b2: Board,
    c: int,
    r1: AttackResult,
    r2: AttackResult,
)
    requires
        b0.wf(),
        0 <= c < 100,
        is_attack_of(b0, b1, c, r1),
        is_attack_of(b1, b2, c, r2),
    ensures
        b2 == b1,
        r2 == AttackResult::Miss,
{
    if has_target(b0.ships@, c) {
        let (s, k) = target(b0.ships@, c);
        assert(b0.ships@[s].wf());
        if has_target(b1.ships@, c) {
            let (s2, k2) = target(b1.ships@, c);
            assert(b1.ships@[s2].pos == b0.ships@[s2].pos);
            assert(b0.ships@[s2].pos@[k2] == c);
            if s2 == s {
                assert(b1.ships@[s].hits@[k]);
            } else {
                assert(b1.ships@[s2] == b0.ships@[s2]);
            }
            lemma_target_unique(b0.ships@, c, s, k);
            if s2 != s || k2 != k {
                assert(b0.ships@[s2].wf());
                if s2 != s {
                    assert(shares_cell(b0.ships@[s].pos@, b0.ships@[s2].pos@));
                } else {
                    b0.ships@[s].lemma_cells_distinct();
                }
            }
        }
    }
}

/// Between `before` and `after`, a cell of the player's own grid keeps its
/// mark once it has one, and a cell of the defense grid once hit stays hit.
pub open spec fn marks_kept(before: Board, after: Board) -> bool {
    &&& forall|i: int|
        0 <= i < 100 && before.your_attacks@[i] != Mark::Unknown ==> #[trigger] after.your_attacks@[i]
            == before.your_attacks@[i]
    &&& forall|i: int|
        0 <= i < 100 && before.enemy_attacks@[i] == Mark::Hit ==> #[trigger] after.enemy_attacks@[i]
            == Mark::Hit
}

/// Resolving an attack keeps a board well formed.
pub proof fn lemma_attack_keeps_wf(before: Board, after: Board, c: int, r: AttackResult)
    requires
        before.wf(),
        is_attack_of(before, after, c, r),
    ensures
        after.wf(),
{
    if has_target(before.ships@, c) {
        let (s, k) = target(before.ships@, c);
        assert(before.ships@[s].wf());
        assert(after.ships@[s].pos == before.ships@[s].pos);
        lemma_hit_keeps_fleet(before.ships@, after.ships@, s);
    }
}

/// The attacks `ks` hit, one after another, distinct cells of ship `s`
/// (positions in the ship), turning board `bs[i]` into `bs[i + 1]` with
/// result `rs[i]`.
pub open spec fn attacks_on_ship(
    bs: Seq<Board>,
    rs: Seq<AttackResult>,
    s: int,
    ks: Seq<int>,
) -> bool {
    &&& bs.len() == ks.len() + 1
    &&& rs.len() == ks.len()
    &&& bs[0].wf()
    &&& 0 <= s < bs[0].ships@.len()
    &&& ks.no_duplicates()
    &&& forall|i: int| 0 <= i < ks.len() ==> 0 <= #[trigger] ks[i] < bs[0].ships@[s].pos@.len()
    &&& forall|i: int|
        0 <= i < ks.len() ==> is_attack_of(
            #[trigger] bs[i],
            bs[i + 1],
            bs[0].ships@[s].pos@[ks[i]] as int,
            rs[i],
        )
}

/// How the attacks of `attacks_on_ship` stand after the first `n`.
proof fn lemma_attacks_so_far(bs: Seq<Board>, rs: Seq<AttackResult>, s: int, ks: Seq<int>, n: int)
    requires
        attacks_on_ship(bs, rs, s, ks),
        bs[0].ships@[s].is_fresh(),
        0 <= n <= ks.len(),
    ensures
        bs[n].wf(),
        bs[n].ships@[s].pos == bs[0].ships@[s].pos,
        bs[n].ships@[s].hits@ == hit_all(unhit(bs[0].ships@[s].pos@.len()), ks.take(n)),
        forall|i: int|
            0 <= i < n ==> {
                &&& i + 1 < bs[0].ships@[s].pos@.len() ==> #[trigger] rs[i] == AttackResult::Hit
                &&& i + 1 == bs[0].ships@[s].pos@.len() ==> (rs[i] == AttackResult::Sunk || rs[i]
                    == AttackResult::Win)
            },
    decreases n,
{
    let len = bs[0].ships@[s].pos@.len();
    assert(bs[0].ships@[s].wf());
    if n == 0 {
        assert(ks.take(0) =~= Seq::<int>::empty());
        assert(bs[0].ships@[s].hits@ =~= unhit(len));
    } else {
        let m = n - 1;
        lemma_attacks_so_far(bs, rs, s, ks, m);
        let b = bs[m];
        let k = ks[m];
        let c = bs[0].ships@[s].pos@[k] as int;
        assert(is_attack_of(bs[m], bs[m + 1], c, rs[m]));
        let prefix = ks.take(m);
        assert forall|i: int| 0 <= i < prefix.len() implies 0 <= #[trigger] prefix[i] < len by {
            assert(prefix[i] == ks[i]);
        }
        lemma_hit_all_marks(len, prefix);
        assert(!prefix.contains(k)) by {
            if prefix.contains(k) {
                let i = choose|i: int| 0 <= i < prefix.len() && prefix[i] == k;
                assert(ks[i] == ks[m]);
            }
        }
        assert(b.ships@[s].wf());
        assert(b.ships@[s].pos@[k] == c);
        assert(!b.ships@[s].hits@[k]);
        lemma_target_unique(b.ships@, c, s, k);
        lemma_attack_keeps_wf(b, bs[n], c, rs[m]);
        let taken = ks.take(n);
        assert(taken.drop_last() =~= prefix);
        assert(taken.last() == k);
        assert(bs[n].ships@[s].hits@ == hit_all(unhit(len), taken));
        assert forall|i: int| 0 <= i < taken.len() implies 0 <= #[trigger] taken[i] < len by {
            assert(taken[i] == ks[i]);
        }
        assert(taken.no_duplicates()) by {
            assert forall|i: int, j: int|
                0 <= i < taken.len() && 0 <= j < taken.len() && i != j implies taken[i]
                != taken[j] by {
                assert(taken[i] == ks[i] && taken[j] == ks[j]);
            }
        }
        lemma_sunk_after_len_hits(len, taken);
        assert(bs[n].ships@[s].is_sunk() <==> n == len);
        if n < len {
            assert(!all_sunk(bs[n].ships@));
        }
    }
}

/// A ship of `len` cells that nothing has hit, attacked on distinct cells
/// of its own: every attack but the `len`-th answers `Hit`, the `len`-th
/// answers `Sunk`, or `Win` when no other ship was left afloat, and the
/// ship is sunk exactly when all `len` cells have been attacked.
pub proof fn lemma_ship_sinks_on_last_cell(
    bs: Seq<Board>,
    rs: Seq<AttackResult>,
    s: int,
    ks: Seq<int>,
)
    requires
        attacks_on_ship(bs, rs, s, ks),
        bs[0].ships@[s].is_fresh(),
    ensures
        forall|i: int|
            0 <= i < ks.len() ==> {
                &&& i + 1 < bs[0].ships@[s].pos@.len() ==> #[trigger] rs[i] == AttackResult::Hit
                &&& i + 1 == bs[0].ships@[s].pos@.len() ==> (rs[i] == AttackResult::Sunk || rs[i]
                    == AttackResult::Win)
            },
        bs.last().ships@[s].is_sunk() <==> ks.len() == bs[0].ships@[s].pos@.len(),
{
    let n = ks.len() as int;
    lemma_attacks_so_far(bs, rs, s, ks, n);
    assert(ks.take(n) =~= ks);
    assert forall|i: int| 0 <= i < ks.len() implies 0 <= #[trigger] ks[i] < bs[0].ships@[s].pos@.len() by {}
    lemma_sunk_after_len_hits(bs[0].ships@[s].pos@.len(), ks);
}

/// Marking a hit on ship `s` keeps the fleet well formed.
proof fn lemma_hit_keeps_fleet(before: Seq<Ship>, after: Seq<Ship>, s: int)
    requires
        fleet_wf(before),
        0 <= s < before.len(),
        after.len() == before.len(),
        forall|t: int| 0 <= t < before.len() && t != s ==> #[trigger] after[t] == before[t],
        after[s].pos == before[s].pos,
        after[s].x == before[s].x,
        after[s].y == before[s].y,
        after[s].down == before[s].down,
        after[s].hits@.len() == before[s].hits@.len(),
    ensures
        fleet_wf(after),
{
    assert forall|t: int| 0 <= t < after.len() implies #[trigger] after[t].wf() by {
        assert(before[t].wf());
    }
    assert forall|t: int, u: int|
        0 <= t < after.len() && 0 <= u < after.len() && t != u implies !shares_cell(
        #[trigger] after[t].pos@,
        #[trigger] after[u].pos@,
    ) by {
        assert(after[t].pos@ == before[t].pos@);
        assert(after[u].pos@ == before[u].pos@);
        assert(!shares_cell(before[t].pos@, before[u].pos@));
    }
}

/// In a fleet whose ships share no cell, the unhit cell `c` found at
/// position `k` of ship `s` is the one `target` names.
proof fn lemma_target_unique(ships: Seq<Ship>, c: int, s: int, k: int)
    requires
        fleet_wf(ships),
        0 <= s < ships.len(),
        0 <= k < ships[s].pos@.len(),
        ships[s].pos@[k] == c,
        !ships[s].hits@[k],
    ensures
        has_target(ships, c),
        target(ships, c) == (s, k),
{
    assert(ships[s].pos@[k] == c && !ships[s].hits@[k]);
    let (s2, k2) = target(ships, c);
    assert(ships[s].wf());
    assert(ships[s2].wf());
    if s2 != s {
        assert(shares_cell(ships[s].pos@, ships[s2].pos@));
    } else {
        ships[s].lemma_cells_distinct();
    }
}

} // verus!
