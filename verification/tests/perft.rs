use ultimate_ttt::move_gen;
use ultimate_ttt::move_gen_impl;
use ultimate_ttt::Bitboard;

const LINES: [u16; 8] = [0o421, 0o124, 0o700, 0o070, 0o007, 0o111, 0o222, 0o444];

/// Independent reference implementation: no caches, no undo; every
/// query recomputes statuses and the game-over flag from the raw
/// occupancy, and recursion copies the whole position.
#[derive(Copy, Clone)]
struct Naive {
    occ: [[u16; 9]; 2],
    turn: usize,
    valid: Option<u8>,
}

fn line_won(m: u16) -> bool {
    LINES.iter().any(|&w| m & w == w)
}

/// 0 or 1: won by that player; 2: tied; 3: open.
fn status(n: &Naive, f: usize) -> u8 {
    if line_won(n.occ[0][f]) {
        0
    } else if line_won(n.occ[1][f]) {
        1
    } else if n.occ[0][f] | n.occ[1][f] == 0o777 {
        2
    } else {
        3
    }
}

fn game_over(n: &Naive) -> bool {
    let mut blocked: u32 = 0;
    let mut meta = [0u16; 2];
    for f in 0..9 {
        let s = status(n, f);
        if s != 3 {
            blocked += 1;
        }
        if s < 2 {
            meta[s as usize] |= 1 << f;
        }
    }
    blocked == 9 || line_won(meta[0]) || line_won(meta[1])
}

fn legal(n: &Naive) -> Vec<(u8, u16)> {
    let mut out = Vec::new();
    if game_over(n) {
        return out;
    }
    for f in 0..9u8 {
        if let Some(k) = n.valid {
            if k != f {
                continue;
            }
        }
        if status(n, f as usize) != 3 {
            continue;
        }
        for c in 0..9 {
            let sq = 1u16 << c;
            if (n.occ[0][f as usize] | n.occ[1][f as usize]) & sq == 0 {
                out.push((f, sq));
            }
        }
    }
    out
}

fn apply(n: &Naive, f: u8, sq: u16) -> Naive {
    let mut m = *n;
    m.occ[n.turn][f as usize] |= sq;
    let target = sq.trailing_zeros() as u8;
    m.valid = if status(&m, target as usize) == 3 {
        Some(target)
    } else {
        None
    };
    m.turn = 1 - n.turn;
    m
}

fn count(n: &Naive, depth: usize) -> usize {
    if game_over(n) {
        return 0;
    }
    let moves = legal(n);
    if depth == 0 {
        return moves.len();
    }
    let mut sum: usize = 0;
    for (f, sq) in moves {
        sum += 1 + count(&apply(n, f, sq), depth - 1);
    }
    sum
}

fn initial() -> Naive {
    Naive { occ: [[0; 9]; 2], turn: 0, valid: None }
}

#[test]
fn depth_zero_counts_the_first_moves() {
    // The fresh board is unconstrained: 9 sub-boards of 9 empty cells.
    assert_eq!(move_gen(0), 81);
}

#[test]
fn depth_one_matches_hand_enumeration() {
    // 81 first moves; the reply is forced into the sub-board named by
    // the played cell, which holds 8 free cells when the move pointed
    // back at its own sub-board and 9 otherwise:
    // 81 + 9 * (8 + 8 * 9) = 801.
    assert_eq!(move_gen(1), 801);
}

#[test]
fn counts_match_an_independent_recount() {
    for depth in 0..4 {
        assert_eq!(move_gen(depth), count(&initial(), depth));
    }
}

#[test]
fn finished_game_counts_zero_at_any_depth() {
    let mut b = Bitboard::new();
    let script = [
        (0u8, 3u8),
        (3, 0),
        (0, 4),
        (4, 0),
        (0, 5),
        (5, 1),
        (1, 3),
        (3, 1),
        (1, 4),
        (4, 1),
        (1, 5),
        (5, 2),
        (2, 6),
        (6, 2),
        (2, 7),
        (7, 2),
        (2, 8),
    ];
    for &(f, c) in script.iter() {
        let square = 1u16 << c;
        let mov = b
            .get_all_moves()
            .into_iter()
            .find(|m| m.pos.field == f && m.pos.square == square)
            .expect("scripted move must be legal");
        b.make_move(mov.pos);
    }
    assert!(b.game_over());
    assert_eq!(move_gen_impl(&mut b, 0), 0);
    assert_eq!(move_gen_impl(&mut b, 3), 0);
}
