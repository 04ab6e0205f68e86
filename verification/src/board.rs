//! The bitboard: per-player occupancy masks per sub-board, the active
//! constraint, and the incrementally maintained caches (per-sub-board
//! status, per-player meta occupancy, decided count, game-over flag).
//!
//! Every mutation is specified against the functional model in
//! `model`: `make_move` produces exactly `apply_move` of the old view
//! and keeps the caches coherent, `undo_move` produces exactly
//! `undo_view`, and `get_all_moves` returns exactly the model's legal
//! move list, each move carrying the snapshot its undo needs.

use vstd::prelude::*;

use crate::model::bit_mask;
use crate::model::cell_of;
use crate::model::init_board;
use crate::model::lemma_init_wf;
use crate::model::lemma_open_field_bound;
use crate::model::poses;
use crate::model::single_bit9;
use crate::model::BoardV;
use crate::model::FieldStatus;
use crate::model::Move;
use crate::model::Pos;
use crate::oracle::is_tied;
use crate::oracle::is_won;

verus! {

/// Index of the single set bit of a one-bit cell mask; names the
/// sub-board the opponent is sent to.
fn bit_index(square: u16) -> (r: u8)
    ensures
        r as int == cell_of(square),
        r < 9,
{
    if square == 1 {
        0
    } else if square == 2 {
        1
    } else if square == 4 {
        2
    } else if square == 8 {
        3
    } else if square == 16 {
        4
    } else if square == 32 {
        5
    } else if square == 64 {
        6
    } else if square == 128 {
        7
    } else {
        8
    }
}

/// Board state of a game in progress, mutated in place through a
/// make/undo stack discipline.
#[derive(Copy, Clone)]
pub struct Bitboard {
    board0: [u16; 9],
    board1: [u16; 9],
    turn: usize,
    valid_field: Option<u8>,
    field_status: [FieldStatus; 9],
    meta0: u16,
    meta1: u16,
    n_blocked: u8,
    game_over: bool,
}

impl View for Bitboard {
    type V = BoardV;

    closed spec fn view(&self) -> BoardV {
        BoardV {
            board0: self.board0@,
            board1: self.board1@,
            turn: self.turn as int,
            valid_field: self.valid_field,
            field_status: self.field_status@,
            meta0: self.meta0,
            meta1: self.meta1,
            n_blocked: self.n_blocked as int,
            game_over: self.game_over,
        }
    }
}

impl Bitboard {
    /// A fresh board: empty occupancies, all sub-boards legal, player
    /// 0 to move, nothing decided, game not over.
    pub fn new() -> (b: Bitboard)
        ensures
            b@ == init_board(),
            b@.wf(),
    {
        let b = Bitboard {
            board0: [0u16;9],
            board1: [0u16;9],
            turn: 0,
            valid_field: None,
            field_status: [FieldStatus::Undecided;9],
            meta0: 0,
            meta1: 0,
            n_blocked: 0,
            game_over: false,
        };
        proof {
            assert(b@ =~= init_board());
            lemma_init_wf();
        }
        b
    }

    /// Whether the match has ended: a player owns a line of sub-boards
    /// or all nine are decided.  O(1) read of the cached flag.
    pub fn game_over(&self) -> (r: bool)
        ensures
            r == self@.game_over,
    {
        self.game_over
    }

    /// Both players' occupancy masks for one sub-board.
    pub fn get_fields(&self, field: u8) -> (r: (u16, u16))
        requires
            field < 9,
        ensures
            r.0 == self@.board0[field as int],
            r.1 == self@.board1[field as int],
    {
        (self.board0[field as usize], self.board1[field as usize])
    }

    /// The cached status of one sub-board.
    pub fn get_field_status(&self, field: u8) -> (r: FieldStatus)
        requires
            field < 9,
        ensures
            r == self@.field_status[field as int],
    {
        self.field_status[field as usize]
    }

    /// Play a legal move for the player whose turn it is: set the bit,
    /// recompute the affected sub-board's status, maintain meta
    /// occupancy, decided count and game-over flag, derive the next
    /// constraint from the played cell, and flip the turn.  The result
    /// is exactly `apply_move` of the previous state and stays
    /// well-formed.
    pub fn make_move(&mut self, pos: Pos)
        requires
            old(self)@.wf(),
            old(self)@.move_legal(pos),
        ensures
            final(self)@ == old(self)@.apply_move(pos),
            final(self)@.wf(),
    {
        let f = pos.field as usize;
        let t = self.turn;
        let mine: u16;
        let other: u16;
        if t == 0 {
            mine = self.board0[f] | pos.square;
            other = self.board1[f];
            self.board0[f] = mine;
        } else {
            mine = self.board1[f] | pos.square;
            other = self.board0[f];
            self.board1[f] = mine;
        }
        if is_won(mine) {
            proof {
                lemma_open_field_bound(old(self)@, f as int);
            }
            self.field_status[f] = FieldStatus::WonBy(t as u8);
            let meta: u16;
            if t == 0 {
                meta = self.meta0 | (1u16 << (pos.field as u16));
                self.meta0 = meta;
            } else {
                meta = self.meta1 | (1u16 << (pos.field as u16));
                self.meta1 = meta;
            }
            self.n_blocked = self.n_blocked + 1;
            if self.n_blocked == 9 || is_won(meta) {
                self.game_over = true;
            }
        } else if is_tied(mine | other) {
            proof {
                lemma_open_field_bound(old(self)@, f as int);
            }
            self.field_status[f] = FieldStatus::Tied;
            self.n_blocked = self.n_blocked + 1;
            if self.n_blocked == 9 {
                self.game_over = true;
            }
        }
        let target = bit_index(pos.square);
        self.valid_field = if self.field_status[target as usize].blocked() {
            None
        } else {
            Some(target)
        };
        self.turn = 1 - t;
        proof {
            old(self)@.lemma_apply_preserves_wf(pos);
            assert(self@ =~= old(self)@.apply_move(pos));
        }
    }

    /// Reverse a move using the snapshot captured when it was made:
    /// flip the turn back, clear the bit, and restore constraint,
    /// status, meta occupancy and decided count; the game-over flag
    /// returns to its pre-move value, false.  The result is exactly
    /// `undo_view` of the current state; undoing the matching record
    /// in LIFO order therefore restores the pre-move state bit for
    /// bit (`lemma_move_undo_roundtrip`).
    pub fn undo_move(&mut self, mov: &Move)
        requires
            old(self)@.turn == 0 || old(self)@.turn == 1,
            mov.pos.field < 9,
        ensures
            final(self)@ == old(self)@.undo_view(*mov),
    {
        self.turn = 1 - self.turn;
        let f = mov.pos.field as usize;
        if self.turn == 0 {
            self.board0[f] = self.board0[f] & !mov.pos.square;
            self.meta0 = mov.meta_field;
        } else {
            self.board1[f] = self.board1[f] & !mov.pos.square;
            self.meta1 = mov.meta_field;
        }
        self.valid_field = if mov.all_valid {
            None
        } else {
            Some(mov.pos.field)
        };
        self.field_status[f] = mov.field_status;
        self.n_blocked = mov.n_blocked;
        self.game_over = false;
        proof {
            assert(self@ =~= old(self)@.undo_view(*mov));
        }
    }

    /// Enumerate every legal move - sub-board index ascending, then
    /// cell index ascending - skipping decided sub-boards and occupied
    /// cells, each with the snapshot its undo needs.  Yields nothing
    /// once the game is over; at most nine moves under a
    /// single-sub-board constraint and at most 81 in all.
    pub fn get_all_moves(&self) -> (r: Vec<Move>)
        requires
            self@.wf(),
        ensures
            r@.len() == self@.legal_moves().len(),
            forall|i: int|
                0 <= i < r@.len() ==> #[trigger] r@[i] == self@.record_of(self@.legal_moves()[i]),
            forall|i: int| 0 <= i < r@.len() ==> #[trigger] r@[i].pos == self@.legal_moves()[i],
            forall|i: int| 0 <= i < r@.len() ==> self@.move_legal(#[trigger] r@[i].pos),
            r@.len() <= 81,
            self@.valid_field is Some ==> r@.len() <= 9,
            self@.game_over ==> r@.len() == 0,
    {
        let ghost v = self@;
        let mut r: Vec<Move> = Vec::new();
        if self.game_over {
            return r;
        }
        let all_valid = self.valid_field.is_none();
        let meta_field = if self.turn == 0 {
            self.meta0
        } else {
            self.meta1
        };
        let n_blocked = self.n_blocked;
        let mut field: u8 = 0;
        while field < 9
            invariant
                v == self@,
                v.wf(),
                !v.game_over,
                field <= 9,
                all_valid == (v.valid_field is None),
                meta_field == v.player_meta(v.turn),
                n_blocked as int == v.n_blocked,
                v.moves_from(0) == poses(r@) + v.moves_from(field as int),
                forall|j: int| 0 <= j < r@.len() ==> #[trigger] r@[j] == v.record_of(r@[j].pos),
            decreases 9 - field,
        {
            let ghost fi = field as int;
            let status = self.field_status[field as usize];
            let allowed = match self.valid_field {
                Some(k) => k == field,
                None => true,
            };
            if allowed && !status.blocked() {
                assert(v.field_open(fi));
                assert(v.moves_from(fi) == v.moves_in_field(fi, 0) + v.moves_from(fi + 1));
                assert(poses(r@) + (v.moves_in_field(fi, 0) + v.moves_from(fi + 1)) =~= poses(r@)
                    + v.moves_in_field(fi, 0) + v.moves_from(fi + 1));
                let occupied = self.board0[field as usize] | self.board1[field as usize];
                let mut c: u8 = 0;
                while c < 9
                    invariant
                        v == self@,
                        v.wf(),
                        !v.game_over,
                        field < 9,
                        fi == field as int,
                        c <= 9,
                        all_valid == (v.valid_field is None),
                        meta_field == v.player_meta(v.turn),
                        n_blocked as int == v.n_blocked,
                        v.field_open(fi),
                        status == v.field_status[fi],
                        occupied == (v.board0[fi] | v.board1[fi]),
                        v.moves_from(0) == poses(r@) + v.moves_in_field(fi, c as int)
                            + v.moves_from(fi + 1),
                        forall|j: int|
                            0 <= j < r@.len() ==> #[trigger] r@[j] == v.record_of(r@[j].pos),
                    decreases 9 - c,
                {
                    let ghost ci = c as int;
                    let ghost r0 = r@;
                    let square: u16 = 1u16 << (c as u16);
                    proof {
                        assert(square == bit_mask(ci));
                    }
                    if occupied & square == 0 {
                        let pos = Pos { field, square };
                        r.push(
                            Move { pos, all_valid, field_status: status, meta_field, n_blocked },
                        );
                        proof {
                            assert(poses(r@) =~= poses(r0).push(pos));
                            assert(v.moves_in_field(fi, ci) == seq![pos] + v.moves_in_field(
                                fi,
                                ci + 1,
                            ));
                            assert(poses(r0) + (seq![pos] + v.moves_in_field(fi, ci + 1)) =~= poses(
                                r@,
                            ) + v.moves_in_field(fi, ci + 1));
                            assert(poses(r0) + (seq![pos] + v.moves_in_field(fi, ci + 1))
                                + v.moves_from(fi + 1) =~= poses(r0) + (seq![pos]
                                + v.moves_in_field(fi, ci + 1)) + v.moves_from(fi + 1));
                            assert(poses(r0) + seq![pos] + v.moves_in_field(fi, ci + 1) =~= poses(
                                r0,
                            ) + (seq![pos] + v.moves_in_field(fi, ci + 1)));
                            assert(poses(r@) + v.moves_in_field(fi, ci + 1) + v.moves_from(fi + 1)
                                =~= poses(r0) + v.moves_in_field(fi, ci) + v.moves_from(fi + 1));
                        }
                    } else {
                        proof {
                            assert(v.moves_in_field(fi, ci) == v.moves_in_field(fi, ci + 1));
                        }
                    }
                    c = c + 1;
                }
                proof {
                    assert(v.moves_in_field(fi, 9) == Seq::<Pos>::empty());
                    assert(poses(r@) + Seq::<Pos>::empty() + v.moves_from(fi + 1) =~= poses(r@)
                        + v.moves_from(fi + 1));
                }
            } else {
                proof {
                    assert(!v.field_open(fi));
                    assert(v.moves_from(fi) =~= v.moves_from(fi + 1));
                }
            }
            field = field + 1;
        }
        proof {
            assert(v.moves_from(9) == Seq::<Pos>::empty());
            assert(poses(r@) + Seq::<Pos>::empty() =~= poses(r@));
            assert(poses(r@) == v.moves_from(0));
            assert(v.legal_moves() == v.moves_from(0));
            v.lemma_moves_from_legal(0);
            v.lemma_moves_from_len(0);
            assert forall|i: int| 0 <= i < r@.len() implies #[trigger] r@[i].pos
                == v.legal_moves()[i] by {
                assert(poses(r@)[i] == r@[i].pos);
            }
        }
        r
    }
}

} // verus!
