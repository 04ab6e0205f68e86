//! Recursive enumerator: a depth-first walk that, at each node, asks
//! the board for its legal moves, applies each, recurses, reverses,
//! and accumulates a node count.
//!
//! `spec_count` is the mathematical node count: a finished game
//! contributes nothing, depth zero counts the immediate legal moves
//! without applying them, and otherwise every legal move counts itself
//! plus its descendants.  `move_gen_impl` is proved to return exactly
//! that count and to leave the board bit for bit as it found it.

use vstd::prelude::*;

use crate::board::Bitboard;
use crate::model::init_board;
use crate::model::lemma_init_wf;
use crate::model::BoardV;
use crate::model::Pos;

verus! {

/// Nodes visited below a state at the given remaining depth: zero for
/// a finished game, the number of legal moves at depth zero, and
/// otherwise one per legal move plus that move's own subtree.
pub open spec fn spec_count(v: BoardV, depth: nat) -> nat
    decreases depth, v.legal_moves().len() + 1,
{
    if v.game_over {
        0
    } else if depth == 0 {
        v.legal_moves().len()
    } else {
        count_from(v, v.legal_moves(), depth)
    }
}

/// Nodes contributed by the remaining moves of one level: each counts
/// itself plus its subtree one level deeper.
pub open spec fn count_from(v: BoardV, moves: Seq<Pos>, depth: nat) -> nat
    decreases depth, moves.len(),
{
    if moves.len() == 0 || depth == 0 {
        0
    } else {
        1 + spec_count(v.apply_move(moves[0]), (depth - 1) as nat) + count_from(
            v,
            moves.subrange(1, moves.len() as int),
            depth,
        )
    }
}

/// Once a state is over it admits no legal move and contributes no
/// nodes: enumeration from it returns zero at every depth without
/// applying any move.
pub proof fn lemma_game_over_halts(v: BoardV, depth: nat)
    requires
        v.game_over,
    ensures
        v.legal_moves().len() == 0,
        spec_count(v, depth) == 0,
{
}

/// 82 to the `n`th power: a coarse branching bound used to show that
/// shallow node counts fit machine integers.
pub open spec fn pow82(n: nat) -> nat
    decreases n,
{
    if n == 0 {
        1
    } else {
        82 * pow82((n - 1) as nat)
    }
}

proof fn lemma_pow82_pos(n: nat)
    ensures
        pow82(n) >= 1,
    decreases n,
{
    if n > 0 {
        lemma_pow82_pos((n - 1) as nat);
    }
}

/// Each level multiplies the node count by at most one more than the
/// 81-move branching limit.
proof fn lemma_count_from_bounded(v: BoardV, moves: Seq<Pos>, depth: nat)
    requires
        v.wf(),
        depth >= 1,
        forall|i: int| 0 <= i < moves.len() ==> v.move_legal(#[trigger] moves[i]),
    ensures
        count_from(v, moves, depth) <= moves.len() * (1 + pow82(depth)),
    decreases depth, moves.len(),
{
    if moves.len() == 0 {
    } else {
        v.lemma_apply_preserves_wf(moves[0]);
        lemma_count_bounded(v.apply_move(moves[0]), (depth - 1) as nat);
        let rest = moves.subrange(1, moves.len() as int);
        assert forall|i: int| 0 <= i < rest.len() implies v.move_legal(#[trigger] rest[i]) by {
            assert(rest[i] == moves[i + 1]);
        }
        lemma_count_from_bounded(v, rest, depth);
        assert((moves.len() as int) * (1 + pow82(depth) as int) == (1 + pow82(depth) as int) + ((
        moves.len() - 1) as int) * (1 + pow82(depth) as int)) by (nonlinear_arith)
            requires
                moves.len() >= 1,
        ;
    }
}

/// The node count below any well-formed state is at most
/// `pow82(depth + 1)`.
pub proof fn lemma_count_bounded(v: BoardV, depth: nat)
    requires
        v.wf(),
    ensures
        spec_count(v, depth) <= pow82(depth + 1),
    decreases depth, v.legal_moves().len() + 1,
{
    lemma_pow82_pos(depth);
    if !v.game_over {
        v.lemma_moves_from_len(0);
        assert(v.legal_moves().len() <= 81);
        if depth == 0 {
            reveal_with_fuel(pow82, 3);
            assert(pow82(1) == 82);
        } else {
            v.lemma_moves_from_legal(0);
            lemma_count_from_bounded(v, v.legal_moves(), depth);
            let p = pow82(depth) as int;
            let n = v.legal_moves().len() as int;
            assert(n * (1 + p) <= 81 * (1 + p)) by (nonlinear_arith)
                requires
                    0 <= n <= 81,
                    p >= 0,
            ;
            assert(p >= 82) by {
                lemma_pow82_pos((depth - 1) as nat);
            }
            assert(pow82(depth + 1) == 82 * pow82(depth));
        }
    }
}

/// For depths up to three the node count fits in `usize` on every
/// platform, so `move_gen`'s precondition is dischargeable there.
pub proof fn lemma_count_fits_usize(v: BoardV, depth: nat)
    requires
        v.wf(),
        depth <= 3,
    ensures
        spec_count(v, depth) <= usize::MAX,
{
    lemma_count_bounded(v, depth);
    reveal_with_fuel(pow82, 6);
    assert(pow82(4) == 45212176);
    if depth == 0 {
        assert(pow82(1) == 82);
    } else if depth == 1 {
        assert(pow82(2) == 6724);
    } else if depth == 2 {
        assert(pow82(3) == 551368);
    }
    assert(usize::MAX >= 0xffff_ffff);
}

/// Walk the move tree below the current state down to the given
/// depth, counting one node per move visited; the board is returned
/// bit for bit in its entry state.
pub fn move_gen_impl(board: &mut Bitboard, depth: usize) -> (r: usize)
    requires
        old(board)@.wf(),
        spec_count(old(board)@, depth as nat) <= usize::MAX,
    ensures
        final(board)@ == old(board)@,
        r as nat == spec_count(old(board)@, depth as nat),
    decreases depth,
{
    if board.game_over() {
        return 0;
    }
    let moves = board.get_all_moves();
    if depth == 0 {
        return moves.len();
    }
    let ghost pre = board@;
    let ghost legal = pre.legal_moves();
    let mut sum: usize = 0;
    let mut i: usize = 0;
    proof {
        assert(legal.subrange(0, legal.len() as int) =~= legal);
    }
    while i < moves.len()
        invariant
            board@ == pre,
            pre.wf(),
            !pre.game_over,
            depth >= 1,
            legal == pre.legal_moves(),
            moves@.len() == legal.len(),
            i <= moves@.len(),
            forall|j: int|
                0 <= j < moves@.len() ==> #[trigger] moves@[j] == pre.record_of(legal[j]),
            forall|j: int| 0 <= j < moves@.len() ==> #[trigger] moves@[j].pos == legal[j],
            forall|j: int| 0 <= j < moves@.len() ==> pre.move_legal(#[trigger] moves@[j].pos),
            sum as nat + count_from(pre, legal.subrange(i as int, legal.len() as int), depth as nat)
                == spec_count(pre, depth as nat),
            spec_count(pre, depth as nat) <= usize::MAX,
        decreases moves@.len() - i,
    {
        let mov = moves[i];
        let ghost rest = legal.subrange(i as int, legal.len() as int);
        proof {
            assert(rest[0] == legal[i as int]);
            assert(rest.subrange(1, rest.len() as int) =~= legal.subrange(
                i as int + 1,
                legal.len() as int,
            ));
        }
        board.make_move(mov.pos);
        let sub = move_gen_impl(board, depth - 1);
        board.undo_move(&mov);
        proof {
            pre.lemma_move_undo_roundtrip(mov.pos);
            assert(board@ == pre);
        }
        sum = sum + 1 + sub;
        i = i + 1;
    }
    proof {
        assert(legal.subrange(legal.len() as int, legal.len() as int) =~= Seq::<Pos>::empty());
    }
    sum
}

/// Count the move tree of a fresh board down to the given depth: the
/// crate's entry point.
pub fn move_gen(depth: usize) -> (r: usize)
    requires
        spec_count(init_board(), depth as nat) <= usize::MAX,
    ensures
        r as nat == spec_count(init_board(), depth as nat),
{
    let mut board = Bitboard::new();
    proof {
        lemma_init_wf();
    }
    move_gen_impl(&mut board, depth)
}

} // verus!

