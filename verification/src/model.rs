//! Mathematical model of the board.
//!
//! `BoardV` is the ghost view of a `Bitboard`: per-player occupancy
//! masks, the cached per-sub-board statuses, the per-player meta
//! occupancy, the active constraint, the decided-sub-board count and
//! the game-over flag.  `wf` states the invariants tying the caches to
//! the occupancy; `apply_move` and `undo_view` are the functional
//! versions of making and undoing a move, and the round-trip lemma
//! proves that undoing with the record captured at move time restores
//! the exact pre-move state.

use vstd::prelude::*;

use crate::oracle::line_won;
use crate::oracle::ALL_FIELDS;

verus! {

/// A move destination: sub-board index (0..9) and a single-bit mask
/// naming one of that sub-board's nine cells.
#[derive(Copy, Clone, PartialEq, Eq, Structural)]
pub struct Pos {
    pub field: u8,
    pub square: u16,
}

/// Status of one sub-board: won by a player, tied, or still open.
#[derive(Copy, Clone, PartialEq, Eq, Structural, Debug)]
pub enum FieldStatus {
    WonBy(u8),
    Tied,
    Undecided,
}

/// A move together with the snapshot of exactly the fields that making
/// it overwrites, sufficient to reverse the move in O(1): the
/// constraint in effect before the move, the prior status of the
/// affected sub-board, the mover's prior meta occupancy and the prior
/// decided count.
#[derive(Copy, Clone)]
pub struct Move {
    pub pos: Pos,
    pub all_valid: bool,
    pub field_status: FieldStatus,
    pub meta_field: u16,
    pub n_blocked: u8,
}

/// A sub-board is blocked (excluded from further play) once it is won
/// or tied.
pub open spec fn spec_blocked(s: FieldStatus) -> bool {
    !(s is Undecided)
}

/// The status records a win for player `p`.
pub open spec fn spec_won_by(s: FieldStatus, p: int) -> bool {
    match s {
        FieldStatus::WonBy(q) => q as int == p,
        _ => false,
    }
}

impl FieldStatus {
    /// A decided (won or tied) sub-board admits no further moves.
    pub fn blocked(self) -> (r: bool)
        ensures
            r == spec_blocked(self),
    {
        match self {
            FieldStatus::Undecided => false,
            _ => true,
        }
    }

    /// Whether this status records a win for player `p`.
    pub fn won(self, p: usize) -> (r: bool)
        ensures
            r == spec_won_by(self, p as int),
    {
        match self {
            FieldStatus::WonBy(q) => q as usize == p,
            _ => false,
        }
    }
}

impl Default for FieldStatus {
    /// A fresh sub-board is undecided.
    fn default() -> (r: Self)
        ensures
            r is Undecided,
    {
        FieldStatus::Undecided
    }
}

/// The single-bit mask for bit `f`.
pub open spec fn bit_mask(f: int) -> u16 {
    1u16 << (f as u16)
}

/// Bit `f` of `mask` is set.
pub open spec fn has_bit(mask: u16, f: int) -> bool {
    mask & bit_mask(f) != 0
}

/// `sq` has exactly one of the nine low bits set.
pub open spec fn single_bit9(sq: u16) -> bool {
    ||| sq == 1
    ||| sq == 2
    ||| sq == 4
    ||| sq == 8
    ||| sq == 16
    ||| sq == 32
    ||| sq == 64
    ||| sq == 128
    ||| sq == 256
}

/// Index of the single set bit of a one-bit cell mask.
pub open spec fn cell_of(sq: u16) -> int {
    if sq == 1 {
        0
    } else if sq == 2 {
        1
    } else if sq == 4 {
        2
    } else if sq == 8 {
        3
    } else if sq == 16 {
        4
    } else if sq == 32 {
        5
    } else if sq == 64 {
        6
    } else if sq == 128 {
        7
    } else {
        8
    }
}

/// Status a sub-board must have, derived from the two players'
/// occupancy masks: won by whoever holds a full line, tied when full,
/// otherwise undecided.
pub open spec fn derived_status(mine0: u16, mine1: u16) -> FieldStatus {
    if line_won(mine0) {
        FieldStatus::WonBy(0)
    } else if line_won(mine1) {
        FieldStatus::WonBy(1)
    } else if (mine0 | mine1) == ALL_FIELDS {
        FieldStatus::Tied
    } else {
        FieldStatus::Undecided
    }
}

/// Number of blocked sub-boards among the first `n` statuses.
pub open spec fn count_blocked(s: Seq<FieldStatus>, n: int) -> int
    decreases n,
{
    if n <= 0 {
        0
    } else {
        count_blocked(s, n - 1) + if spec_blocked(s[n - 1]) {
            1int
        } else {
            0int
        }
    }
}

/// Ghost view of a `Bitboard`.
#[verifier::ext_equal]
pub struct BoardV {
    /// Player 0's occupancy mask per sub-board.
    pub board0: Seq<u16>,
    /// Player 1's occupancy mask per sub-board.
    pub board1: Seq<u16>,
    /// Whose move it is: 0 or 1.
    pub turn: int,
    /// `Some(k)`: only sub-board `k` is legal; `None`: all are.
    pub valid_field: Option<u8>,
    /// Cached status per sub-board.
    pub field_status: Seq<FieldStatus>,
    /// Mask of sub-boards won by player 0.
    pub meta0: u16,
    /// Mask of sub-boards won by player 1.
    pub meta1: u16,
    /// Count of decided (won or tied) sub-boards.
    pub n_blocked: int,
    /// Cached end-of-game flag.
    pub game_over: bool,
}

impl BoardV {
    /// Occupancy masks of player `p`.
    pub open spec fn player_board(self, p: int) -> Seq<u16> {
        if p == 0 {
            self.board0
        } else {
            self.board1
        }
    }

    /// Meta occupancy of player `p`.
    pub open spec fn player_meta(self, p: int) -> u16 {
        if p == 0 {
            self.meta0
        } else {
            self.meta1
        }
    }

    /// Per-sub-board invariants: masks are 9-bit and disjoint, the
    /// cached status matches the one derived from the occupancy, and
    /// each meta bit records exactly a win of that player.
    pub open spec fn field_ok(self, f: int) -> bool {
        &&& self.board0[f] < 512
        &&& self.board1[f] < 512
        &&& self.board0[f] & self.board1[f] == 0
        &&& self.field_status[f] == derived_status(self.board0[f], self.board1[f])
        &&& has_bit(self.meta0, f) == spec_won_by(self.field_status[f], 0)
        &&& has_bit(self.meta1, f) == spec_won_by(self.field_status[f], 1)
    }

    /// Well-formedness: the shape of the board plus coherence of every
    /// incrementally maintained cache.
    pub open spec fn wf(self) -> bool {
        &&& self.board0.len() == 9
        &&& self.board1.len() == 9
        &&& self.field_status.len() == 9
        &&& (self.turn == 0 || self.turn == 1)
        &&& forall|f: int| 0 <= f < 9 ==> #[trigger] self.field_ok(f)
        &&& self.meta0 < 512
        &&& self.meta1 < 512
        &&& self.n_blocked == count_blocked(self.field_status, 9)
        &&& 0 <= self.n_blocked <= 9
        &&& (self.valid_field matches Some(k) ==> k < 9 && self.field_status[k as int] is Undecided)
        &&& self.game_over == (self.n_blocked == 9 || line_won(self.meta0) || line_won(
            self.meta1,
        ))
    }

    /// The move is legal: the game is open, the named cell exists and
    /// is empty, its sub-board is undecided and allowed by the active
    /// constraint.
    pub open spec fn move_legal(self, pos: Pos) -> bool {
        &&& !self.game_over
        &&& pos.field < 9
        &&& single_bit9(pos.square)
        &&& self.field_status[pos.field as int] is Undecided
        &&& (self.board0[pos.field as int] | self.board1[pos.field as int]) & pos.square == 0
        &&& (self.valid_field matches Some(k) ==> k == pos.field)
    }

    /// The board after playing `pos`: the mover's bit is set, the
    /// affected sub-board's status is recomputed, meta occupancy and
    /// decided count are updated if it became decided, the game-over
    /// flag is raised on a meta line or full exhaustion, the next
    /// constraint names the sub-board matching the played cell unless
    /// that sub-board is decided, and the turn flips.
    pub open spec fn apply_move(self, pos: Pos) -> BoardV {
        let t = self.turn;
        let f = pos.field as int;
        let mine = self.player_board(t)[f] | pos.square;
        let other = self.player_board(1 - t)[f];
        let won = line_won(mine);
        let tied = !won && (mine | other) == ALL_FIELDS;
        let status1 = if won {
            self.field_status.update(f, FieldStatus::WonBy(t as u8))
        } else if tied {
            self.field_status.update(f, FieldStatus::Tied)
        } else {
            self.field_status
        };
        let meta0 = if won && t == 0 {
            self.meta0 | bit_mask(f)
        } else {
            self.meta0
        };
        let meta1 = if won && t == 1 {
            self.meta1 | bit_mask(f)
        } else {
            self.meta1
        };
        let n_blocked = if won || tied {
            self.n_blocked + 1
        } else {
            self.n_blocked
        };
        let game_over = self.game_over || ((won || tied) && n_blocked == 9) || (won && line_won(
            if t == 0 {
                meta0
            } else {
                meta1
            },
        ));
        let target = cell_of(pos.square);
        let valid_field = if spec_blocked(status1[target]) {
            None
        } else {
            Some(target as u8)
        };
        BoardV {
            board0: if t == 0 {
                self.board0.update(f, mine)
            } else {
                self.board0
            },
            board1: if t == 1 {
                self.board1.update(f, mine)
            } else {
                self.board1
            },
            turn: 1 - t,
            valid_field,
            field_status: status1,
            meta0,
            meta1,
            n_blocked,
            game_over,
        }
    }

    /// The snapshot a move from this state carries for its undo.
    pub open spec fn record_of(self, pos: Pos) -> Move {
        Move {
            pos,
            all_valid: self.valid_field is None,
            field_status: self.field_status[pos.field as int],
            meta_field: self.player_meta(self.turn),
            n_blocked: self.n_blocked as u8,
        }
    }

    /// The board after reversing `mov`: the turn flips back, the
    /// mover's bit is cleared, and constraint, status, meta occupancy
    /// and decided count are restored from the snapshot; the game-over
    /// flag returns to its pre-move value, false.
    pub open spec fn undo_view(self, mov: Move) -> BoardV {
        let t = 1 - self.turn;
        let f = mov.pos.field as int;
        let restored = self.player_board(t)[f] & !mov.pos.square;
        BoardV {
            board0: if t == 0 {
                self.board0.update(f, restored)
            } else {
                self.board0
            },
            board1: if t == 1 {
                self.board1.update(f, restored)
            } else {
                self.board1
            },
            turn: t,
            valid_field: if mov.all_valid {
                None
            } else {
                Some(mov.pos.field)
            },
            field_status: self.field_status.update(f, mov.field_status),
            meta0: if t == 0 {
                mov.meta_field
            } else {
                self.meta0
            },
            meta1: if t == 1 {
                mov.meta_field
            } else {
                self.meta1
            },
            n_blocked: mov.n_blocked as int,
            game_over: false,
        }
    }

    /// Undoing a move with the record captured when it was made
    /// restores every field of the pre-move state exactly.
    pub proof fn lemma_move_undo_roundtrip(self, pos: Pos)
        requires
            self.wf(),
            self.move_legal(pos),
        ensures
            self.apply_move(pos).undo_view(self.record_of(pos)) == self,
    {
        let t = self.turn;
        let f = pos.field as int;
        let mine = self.player_board(t)[f];
        let b0 = self.board0[f];
        let b1 = self.board1[f];
        let sq = pos.square;
        assert(mine & sq == 0 && (mine | sq) & !sq == mine) by (bit_vector)
            requires
                (b0 | b1) & sq == 0,
                mine == b0 || mine == b1,
        ;
        assert(self.field_ok(f));
        let a = self.apply_move(pos);
        let u = a.undo_view(self.record_of(pos));
        assert(u.board0 =~= self.board0);
        assert(u.board1 =~= self.board1);
        assert(u.field_status =~= self.field_status);
        assert(u =~= self);
    }

    /// Making a legal move keeps every cache coherent: the updated
    /// status, meta occupancy, decided count and game-over flag again
    /// satisfy `wf`.
    pub proof fn lemma_apply_preserves_wf(self, pos: Pos)
        requires
            self.wf(),
            self.move_legal(pos),
        ensures
            self.apply_move(pos).wf(),
    {
        let t = self.turn;
        let f = pos.field as int;
        let sq = pos.square;
        let b0 = self.board0[f];
        let b1 = self.board1[f];
        let a = self.apply_move(pos);
        assert(self.field_ok(f));
        assert((b0 | sq) < 512 && (b1 | sq) < 512 && ((b0 | sq) & b1) == 0 && ((b1 | sq) & b0)
            == 0 && (b1 & (b0 | sq)) == 0 && (b0 & (b1 | sq)) == 0 && (((b0 | sq) | b1) == (b1 | (b0
            | sq))) && ((b1 | sq) | b0) == (b0 | (b1 | sq)) && ((b0 | sq) | b1) == ((b0 | b1) | sq)
            && ((b1 | sq) | b0) == ((b0 | b1) | sq)) by (bit_vector)
            requires
                b0 < 512,
                b1 < 512,
                sq < 512,
                (b0 | b1) & sq == 0,
                b0 & b1 == 0,
        ;
        let fu = pos.field as u16;
        let mt = self.player_meta(t);
        assert((mt | (1u16 << fu)) < 512 && forall|g: u16|
            g < 9 ==> ((mt | (1u16 << fu)) & (1u16 << g) != 0) == (g == fu || (mt & (1u16 << g)
                != 0))) by (bit_vector)
            requires
                fu < 9,
                mt < 512,
        ;
        assert forall|g: int| 0 <= g < 9 implies has_bit(mt | bit_mask(f), g) == (g == f
            || has_bit(mt, g)) by {
            let gu = g as u16;
            assert(((mt | (1u16 << fu)) & (1u16 << gu) != 0) == (gu == fu || (mt & (1u16 << gu)
                != 0)));
        }
        let won = line_won(self.player_board(t)[f] | sq);
        let tied = !won && ((self.player_board(t)[f] | sq) | self.player_board(1 - t)[f])
            == ALL_FIELDS;
        if won || tied {
            let ns = if won {
                FieldStatus::WonBy(t as u8)
            } else {
                FieldStatus::Tied
            };
            lemma_count_blocked_update(self.field_status, f, ns, 9);
        }
        lemma_count_blocked_bounds(a.field_status, 9);
        assert forall|g: int| 0 <= g < 9 implies a.field_ok(g) by {
            assert(self.field_ok(g));
            if won {
                assert(has_bit(mt | bit_mask(f), g) == (g == f || has_bit(mt, g)));
            }
        }
    }

    /// Sub-board `f` is enumerated: allowed by the constraint and not
    /// yet decided.
    pub open spec fn field_open(self, f: int) -> bool {
        &&& (self.valid_field matches Some(k) ==> k as int == f)
        &&& !spec_blocked(self.field_status[f])
    }

    /// The legal moves in sub-board `f` among cells `c..9`, in cell
    /// order.
    pub open spec fn moves_in_field(self, f: int, c: int) -> Seq<Pos>
        decreases 9 - c,
    {
        if c < 0 || c >= 9 {
            Seq::empty()
        } else {
            let rest = self.moves_in_field(f, c + 1);
            if (self.board0[f] | self.board1[f]) & bit_mask(c) == 0 {
                seq![Pos { field: f as u8, square: bit_mask(c) }] + rest
            } else {
                rest
            }
        }
    }

    /// The legal moves in sub-boards `f..9`, in sub-board order.
    pub open spec fn moves_from(self, f: int) -> Seq<Pos>
        decreases 9 - f,
    {
        if f < 0 || f >= 9 {
            Seq::empty()
        } else {
            (if self.field_open(f) {
                self.moves_in_field(f, 0)
            } else {
                Seq::empty()
            }) + self.moves_from(f + 1)
        }
    }

    /// All legal moves of this state: sub-board index ascending, then
    /// cell index ascending; none once the game is over.
    pub open spec fn legal_moves(self) -> Seq<Pos> {
        if self.game_over {
            Seq::empty()
        } else {
            self.moves_from(0)
        }
    }

    /// Every enumerated move within a sub-board names that sub-board,
    /// a single empty cell, and there are at most `9 - c` of them.
    proof fn lemma_moves_in_field_props(self, f: int, c: int)
        requires
            0 <= f < 9,
            0 <= c <= 9,
        ensures
            self.moves_in_field(f, c).len() <= 9 - c,
            forall|i: int|
                0 <= i < self.moves_in_field(f, c).len() ==> {
                    let pos = #[trigger] self.moves_in_field(f, c)[i];
                    &&& pos.field as int == f
                    &&& single_bit9(pos.square)
                    &&& (self.board0[f] | self.board1[f]) & pos.square == 0
                },
        decreases 9 - c,
    {
        if c < 9 {
            self.lemma_moves_in_field_props(f, c + 1);
            let cu = c as u16;
            assert(1u16 << cu == 1 || 1u16 << cu == 2 || 1u16 << cu == 4 || 1u16 << cu == 8
                || 1u16 << cu == 16 || 1u16 << cu == 32 || 1u16 << cu == 64 || 1u16 << cu == 128
                || 1u16 << cu == 256) by (bit_vector)
                requires
                    cu < 9,
            ;
            let ms = self.moves_in_field(f, c);
            let rest = self.moves_in_field(f, c + 1);
            if (self.board0[f] | self.board1[f]) & bit_mask(c) == 0 {
                let pos0 = Pos { field: f as u8, square: bit_mask(c) };
                assert(ms == seq![pos0] + rest);
                assert forall|i: int| 0 <= i < ms.len() implies {
                    let pos = #[trigger] ms[i];
                    &&& pos.field as int == f
                    &&& single_bit9(pos.square)
                    &&& (self.board0[f] | self.board1[f]) & pos.square == 0
                } by {
                    if i == 0 {
                        assert(ms[i] == pos0);
                    } else {
                        assert(ms[i] == rest[i - 1]);
                    }
                }
            } else {
                assert(ms == rest);
            }
        }
    }

    /// Every move enumerated from sub-boards `f..9` is legal.
    pub proof fn lemma_moves_from_legal(self, f: int)
        requires
            self.wf(),
            !self.game_over,
            0 <= f <= 9,
        ensures
            forall|i: int|
                0 <= i < self.moves_from(f).len() ==> self.move_legal(
                    #[trigger] self.moves_from(f)[i],
                ),
        decreases 9 - f,
    {
        if f < 9 {
            self.lemma_moves_from_legal(f + 1);
            let ms = self.moves_from(f);
            let rest = self.moves_from(f + 1);
            let pre = if self.field_open(f) {
                self.moves_in_field(f, 0)
            } else {
                Seq::<Pos>::empty()
            };
            assert(ms == pre + rest);
            if self.field_open(f) {
                self.lemma_moves_in_field_props(f, 0);
            }
            assert forall|i: int| 0 <= i < ms.len() implies self.move_legal(ms[i]) by {
                if i < pre.len() {
                    assert(ms[i] == pre[i]);
                    assert(self.field_ok(f));
                } else {
                    assert(ms[i] == rest[i - pre.len()]);
                }
            }
        }
    }

    /// At most nine moves per sub-board, so at most `(9 - f) * 9` in
    /// all, and at most nine under a single-sub-board constraint.
    pub proof fn lemma_moves_from_len(self, f: int)
        requires
            0 <= f <= 9,
        ensures
            self.moves_from(f).len() <= (9 - f) * 9,
            self.valid_field is Some ==> self.moves_from(f).len() <= 9,
        decreases 9 - f,
    {
        if f < 9 {
            self.lemma_moves_from_len(f + 1);
            if self.field_open(f) {
                self.lemma_moves_in_field_props(f, 0);
            }
            match self.valid_field {
                Some(k) => {
                    if k as int == f {
                        self.lemma_moves_from_empty_past(k, f + 1);
                    } else {
                        assert(!self.field_open(f));
                    }
                },
                None => {},
            }
        }
    }

    /// With the constraint naming sub-board `k`, no moves come from
    /// any later sub-board.
    proof fn lemma_moves_from_empty_past(self, k: u8, f: int)
        requires
            self.valid_field == Some(k),
            (k as int) < f,
        ensures
            self.moves_from(f).len() == 0,
        decreases 9 - f,
    {
        if 0 <= f < 9 {
            assert(!self.field_open(f));
            self.lemma_moves_from_empty_past(k, f + 1);
        }
    }
}

/// `count_blocked` only looks at the first `n` entries.
proof fn lemma_count_blocked_congruence(s: Seq<FieldStatus>, t: Seq<FieldStatus>, n: int)
    requires
        forall|i: int| 0 <= i < n ==> s[i] == t[i],
    ensures
        count_blocked(s, n) == count_blocked(t, n),
    decreases n,
{
    if n > 0 {
        lemma_count_blocked_congruence(s, t, n - 1);
    }
}

/// Updating one status changes the blocked count by the difference of
/// the old and new entry.
proof fn lemma_count_blocked_update(s: Seq<FieldStatus>, f: int, x: FieldStatus, n: int)
    requires
        0 <= f < n,
        n <= s.len(),
    ensures
        count_blocked(s.update(f, x), n) == count_blocked(s, n) - (if spec_blocked(s[f]) {
            1int
        } else {
            0int
        }) + (if spec_blocked(x) {
            1int
        } else {
            0int
        }),
    decreases n,
{
    let su = s.update(f, x);
    if n - 1 == f {
        lemma_count_blocked_congruence(su, s, n - 1);
    } else {
        lemma_count_blocked_update(s, f, x, n - 1);
    }
}

/// The blocked count lies between 0 and `n`.
proof fn lemma_count_blocked_bounds(s: Seq<FieldStatus>, n: int)
    ensures
        0 <= count_blocked(s, n),
        n >= 0 ==> count_blocked(s, n) <= n,
    decreases n,
{
    if n > 0 {
        lemma_count_blocked_bounds(s, n - 1);
    }
}

/// With an undecided sub-board among the first `n`, the blocked count
/// stays below `n`.
proof fn lemma_count_blocked_open(s: Seq<FieldStatus>, f: int, n: int)
    requires
        0 <= f < n,
        !spec_blocked(s[f]),
    ensures
        count_blocked(s, n) <= n - 1,
    decreases n,
{
    lemma_count_blocked_bounds(s, n - 1);
    if n - 1 != f {
        lemma_count_blocked_open(s, f, n - 1);
    }
}

/// The destinations of a sequence of recorded moves.
pub open spec fn poses(s: Seq<Move>) -> Seq<Pos> {
    s.map_values(|m: Move| m.pos)
}

/// An all-open status row has a blocked count of zero.
proof fn lemma_count_blocked_all_open(s: Seq<FieldStatus>, n: int)
    requires
        forall|i: int| 0 <= i < n ==> !spec_blocked(#[trigger] s[i]),
    ensures
        count_blocked(s, n) == 0,
    decreases n,
{
    if n > 0 {
        lemma_count_blocked_all_open(s, n - 1);
    }
}

/// While some sub-board is still undecided, fewer than nine are
/// decided.
pub proof fn lemma_open_field_bound(v: BoardV, f: int)
    requires
        v.wf(),
        0 <= f < 9,
        !spec_blocked(v.field_status[f]),
    ensures
        v.n_blocked <= 8,
{
    lemma_count_blocked_open(v.field_status, f, 9);
}

/// The initial state satisfies every board invariant.
pub proof fn lemma_init_wf()
    ensures
        init_board().wf(),
{
    let v = init_board();
    assert(!line_won(0u16) && (0u16 | 0u16) != ALL_FIELDS && (0u16 & 0u16) == 0) by (bit_vector);
    assert(forall|g: u16| g < 9 ==> (0u16 & (1u16 << g)) == 0) by (bit_vector);
    assert forall|f: int| 0 <= f < 9 implies v.field_ok(f) by {
        assert(v.board0[f] == 0 && v.board1[f] == 0);
        assert(0u16 & (1u16 << (f as u16)) == 0);
    }
    lemma_count_blocked_all_open(v.field_status, 9);
}

/// The fixed initial state: empty occupancies, all sub-boards open,
/// player 0 to move, no constraint, nothing decided, game not over.
pub open spec fn init_board() -> BoardV {
    BoardV {
        board0: Seq::new(9, |i: int| 0u16),
        board1: Seq::new(9, |i: int| 0u16),
        turn: 0,
        valid_field: None,
        field_status: Seq::new(9, |i: int| FieldStatus::Undecided),
        meta0: 0,
        meta1: 0,
        n_blocked: 0,
        game_over: false,
    }
}

} // verus!
