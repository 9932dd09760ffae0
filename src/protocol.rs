//! The turn protocol: who moves first, and what each received message does
//! to the local player's state and what goes back over the wire.
use vstd::prelude::*;
use crate::board::{is_attack_of, marks_kept, AttackResult, Board, Mark, Status};
use crate::grid::{is_wire_coord, wire_index};

verus! {

/// Status byte by which the first mover announces its opening attack.
pub const OPENING_MOVE: u8 = 4;

/// Where the local player stands in the exchange.
#[derive(PartialEq, Eq, Structural, Debug, Clone, Copy)]
pub enum Phase {
    /// Waiting for the host's one-byte first-move flag.
    AwaitingFirstMove,
    /// Waiting for one status byte: the answer to the attack in flight, or
    /// the opponent's opening marker.
    AwaitingStatus,
    /// Waiting for the opponent's two coordinate bytes.
    AwaitingAttack,
    /// The local player picks a cell to attack.
    ChoosingAttack,
    /// The game has ended.
    Over(Status),
}

/// A message that breaks the protocol. None of them can be recovered from.
#[derive(PartialEq, Eq, Structural, Debug, Clone, Copy)]
pub enum ProtocolError {
    /// The first-move flag was neither 0 nor 1.
    MalformedFirstMove(u8),
    /// The status byte was none of 0 to 4.
    MalformedStatus(u8),
    /// A result byte with no attack in flight, or the opening marker with one.
    UnexpectedStatus(u8),
    /// An attacked coordinate was outside 1 to 10.
    CoordinateOutOfRange(u8, u8),
}

/// What the player who sent an attack writes in its own grid for result
/// byte `b`.
pub open spec fn result_mark(b: u8) -> Mark {
    if b == 0 {
        Mark::Miss
    } else {
        Mark::Hit
    }
}

/// The phase after status byte `b`, with or without an attack in flight;
/// `None` when the byte breaks the protocol.
pub open spec fn phase_after_status(b: u8, in_flight: bool) -> Option<Phase> {
    if b > 4 {
        None
    } else if b == 4 {
        if in_flight {
            None
        } else {
            Some(Phase::AwaitingAttack)
        }
    } else if !in_flight {
        None
    } else if b == 3 {
        Some(Phase::Over(Status::Won))
    } else {
        Some(Phase::AwaitingAttack)
    }
}

/// The defender's phase after answering an attack with `r`.
pub open spec fn phase_after_reply(r: AttackResult) -> Phase {
    if r == AttackResult::Win {
        Phase::Over(Status::Loss)
    } else {
        Phase::ChoosingAttack
    }
}

/// The phase and the bytes the host sends when the coin says whether the
/// host moves first: the flag (1 when the joining peer moves first), then
/// the opening marker if the host does.
pub open spec fn host_opening(first: bool) -> (Phase, Seq<u8>) {
    if first {
        (Phase::ChoosingAttack, seq![0u8, OPENING_MOVE])
    } else {
        (Phase::AwaitingStatus, seq![1u8])
    }
}

/// The phase and the bytes the joining peer sends once the flag has said
/// whether it moves first: the opening marker if it does, nothing otherwise.
pub open spec fn joiner_opening(first: bool) -> (Phase, Seq<u8>) {
    if first {
        (Phase::ChoosingAttack, seq![OPENING_MOVE])
    } else {
        (Phase::AwaitingStatus, Seq::empty())
    }
}

/// After one attack, the defender's phase `d` and the attacker's phase
/// `a` agree: the defender has lost exactly when the attacker has won,
/// and one game is over exactly when the other is.
pub open spec fn outcomes_agree(d: Phase, a: Phase) -> bool {
    &&& d == Phase::Over(Status::Loss) <==> a == Phase::Over(Status::Won)
    &&& d != Phase::Over(Status::Won)
    &&& a != Phase::Over(Status::Loss)
    &&& d is Over <==> a is Over
}

/// Whatever the result of an attack, the result byte the defender sends
/// is accepted by the attacker, and the two peers then agree on the
/// outcome: never both won, never both lost, never one ended alone.
pub proof fn lemma_outcomes_agree(r: AttackResult)
    ensures
        phase_after_status(r.spec_code(), true) is Some,
        outcomes_agree(phase_after_reply(r), phase_after_status(r.spec_code(), true)->Some_0),
{
}

/// Relies on rand::random::<bool>: a fair coin drawn from the thread-local
/// generator; nothing is known of its value.
#[verifier::external_body]
fn coin_flip() -> bool {
    rand::random::<bool>()
}

/// A player's board and where the player stands in the exchange.
#[derive(Debug)]
pub struct Game {
    pub board: Board,
    pub phase: Phase,
}

impl Game {
    /// The board is well formed, and an attack is in flight only while
    /// its answer is awaited.
    pub open spec fn wf(&self) -> bool {
        &&& self.board.wf()
        &&& self.phase != Phase::AwaitingStatus ==> self.board.pending_attack is None
    }

    /// Starts the host's side once the coin has said whether the host moves
    /// first; also returns the bytes to send.
    pub fn host(board: Board, first: bool) -> (r: (Game, Vec<u8>))
        requires
            board.wf(),
            board.pending_attack is None,
        ensures
            r.0.wf(),
            r.0.board == board,
            (r.0.phase, r.1@) == host_opening(first),
    {
        if first {
            (Game { board, phase: Phase::ChoosingAttack }, vec![0u8, OPENING_MOVE])
        } else {
            (Game { board, phase: Phase::AwaitingStatus }, vec![1u8])
        }
    }

    /// Starts the host's side with a coin flip for the first move; also
    /// returns the bytes to send.
    pub fn host_random(board: Board) -> (r: (Game, Vec<u8>))
        requires
            board.wf(),
            board.pending_attack is None,
        ensures
            r.0.wf(),
            r.0.board == board,
            (r.0.phase, r.1@) == host_opening(true) || (r.0.phase, r.1@) == host_opening(false),
    {
        let first = coin_flip();
        Game::host(board, first)
    }

    /// Starts the joining peer's side: it waits for the first-move flag.
    pub fn join(board: Board) -> (r: Game)
        requires
            board.wf(),
            board.pending_attack is None,
        ensures
            r.wf(),
            r.board == board,
            r.phase == Phase::AwaitingFirstMove,
    {
        Game { board, phase: Phase::AwaitingFirstMove }
    }

    /// Handles the host's first-move flag: 1 means this player moves first
    /// and announces it with the opening marker, which is returned to be
    /// sent; 0 means the opponent moves first.
    pub fn receive_first_move(&mut self, flag: u8) -> (r: Result<Vec<u8>, ProtocolError>)
        requires
            old(self).wf(),
            old(self).phase == Phase::AwaitingFirstMove,
        ensures
            final(self).wf(),
            final(self).board == old(self).board,
            r is Ok <==> flag <= 1,
            r matches Ok(out) ==> (final(self).phase, out@) == joiner_opening(flag == 1),
            r matches Err(e) ==> e == ProtocolError::MalformedFirstMove(flag) && final(self).phase
                == old(self).phase,
    {
        if flag == 1 {
            self.phase = Phase::ChoosingAttack;
            Ok(vec![OPENING_MOVE])
        } else if flag == 0 {
            self.phase = Phase::AwaitingStatus;
            Ok(Vec::new())
        } else {
            Err(ProtocolError::MalformedFirstMove(flag))
        }
    }

    /// Handles a status byte. A result byte (0 miss, 1 hit, 2 sunk, 3 sunk
    /// and won) answers the attack in flight: it is recorded in the
    /// player's own grid and the attack cleared; 3 ends the game won,
    /// the others hand the turn to the opponent. The opening marker 4
    /// announces the opponent's first attack. Any other byte, or a byte
    /// at the wrong moment, breaks the protocol and changes nothing.
    pub fn receive_status(&mut self, b: u8) -> (r: Result<(), ProtocolError>)
        requires
            old(self).wf(),
            old(self).phase == Phase::AwaitingStatus,
        ensures
            final(self).wf(),
            marks_kept(old(self).board, final(self).board),
            r is Ok <==> phase_after_status(b, old(self).board.pending_attack is Some) is Some,
            r is Ok ==> phase_after_status(b, old(self).board.pending_attack is Some) == Some(
                final(self).phase,
            ),
            r matches Err(e) ==> *final(self) == *old(self) && e == if b > 4 {
                ProtocolError::MalformedStatus(b)
            } else {
                ProtocolError::UnexpectedStatus(b)
            },
            r is Ok && b == OPENING_MOVE ==> final(self).board == old(self).board,
            r is Ok && b < OPENING_MOVE ==> {
                &&& final(self).board.ships == old(self).board.ships
                &&& final(self).board.enemy_attacks == old(self).board.enemy_attacks
                &&& final(self).board.pending_attack is None
                &&& old(self).board.pending_attack matches Some((x, y))
                    && final(self).board.your_attacks@ == old(self).board.your_attacks@.update(
                    wire_index(x as int, y as int),
                    result_mark(b),
                )
            },
    {
        if b > OPENING_MOVE {
            return Err(ProtocolError::MalformedStatus(b));
        }
        if b == OPENING_MOVE {
            if self.board.pending_attack.is_some() {
                return Err(ProtocolError::UnexpectedStatus(b));
            }
            self.phase = Phase::AwaitingAttack;
            return Ok(());
        }
        if self.board.pending_attack.is_none() {
            return Err(ProtocolError::UnexpectedStatus(b));
        }
        let mark = if b == 0 {
            Mark::Miss
        } else {
            Mark::Hit
        };
        self.board.update_pending(mark);
        self.phase = if b == 3 {
            Phase::Over(Status::Won)
        } else {
            Phase::AwaitingAttack
        };
        Ok(())
    }

    /// Handles the opponent's attack on wire coordinates `(x, y)`:
    /// resolves it on the board and returns the result, whose byte goes
    /// back to the opponent. `Win` ends the game lost; otherwise it is
    /// this player's turn. A coordinate outside 1 to 10 breaks the
    /// protocol and reaches no ship.
    pub fn receive_attack(&mut self, x: u8, y: u8) -> (r: Result<AttackResult, ProtocolError>)
        requires
            old(self).wf(),
            old(self).phase == Phase::AwaitingAttack,
        ensures
            final(self).wf(),
            marks_kept(old(self).board, final(self).board),
            r is Ok <==> is_wire_coord(x as int) && is_wire_coord(y as int),
            r matches Err(e) ==> *final(self) == *old(self) && e
                == ProtocolError::CoordinateOutOfRange(x, y),
            r matches Ok(res) ==> {
                &&& is_attack_of(old(self).board, final(self).board, wire_index(x as int, y as int), res)
                &&& final(self).phase == phase_after_reply(res)
            },
    {
        if x < 1 || x > 10 || y < 1 || y > 10 {
            return Err(ProtocolError::CoordinateOutOfRange(x, y));
        }
        let res = self.board.attack(x, y);
        self.phase = if res == AttackResult::Win {
            Phase::Over(Status::Loss)
        } else {
            Phase::ChoosingAttack
        };
        Ok(res)
    }

    /// The local player picks wire coordinates `(x, y)` to attack. When the
    /// player may attack there, the attack goes in flight and its two bytes
    /// are returned to be sent; otherwise nothing changes and the player
    /// picks again.
    pub fn choose_attack(&mut self, x: u8, y: u8) -> (r: Option<Vec<u8>>)
        requires
            old(self).wf(),
            old(self).phase == Phase::ChoosingAttack,
        ensures
            final(self).wf(),
            marks_kept(old(self).board, final(self).board),
            r is Some <==> old(self).board.may_attack(x as int, y as int),
            r matches Some(out) ==> {
                &&& out@ == seq![x, y]
                &&& final(self).phase == Phase::AwaitingStatus
                &&& final(self).board.ships == old(self).board.ships
                &&& final(self).board.your_attacks == old(self).board.your_attacks
                &&& final(self).board.enemy_attacks == old(self).board.enemy_attacks
                &&& final(self).board.pending_attack == Some((x, y))
            },
            r is None ==> *final(self) == *old(self),
    {
        if self.board.make_move(x, y) {
            self.phase = Phase::AwaitingStatus;
            Some(vec![x, y])
        } else {
            None
        }
    }
}

} // verus!
