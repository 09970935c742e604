use takmcts::eval::{default_policy_params, default_value_params, inverse_sigmoid, sigmoid};
use takmcts::history::{our_last_placement, their_last_placement};
use takmcts::komi::{GameResult, Komi};
use takmcts::moves::{Move, ReverseMove, StackMovement};
use takmcts::piece::{Color, Role};
use takmcts::position::Position;
use takmcts::search::{mcts, MctsSetting, Tree};
use takmcts::square::Direction;

fn start5() -> Position {
    Position::start_position(5)
}

fn sq(file: u8, rank: u8) -> u8 {
    // file a..e is 0..4, rank 1..5 counts from the bottom of the board
    (5 - rank) * 5 + file
}

fn place(p: &mut Position, role: Role, square: u8) -> ReverseMove {
    let mv = Move::Place(role, square);
    assert!(p.is_legal_move(&mv), "placement should be legal");
    p.do_move(mv)
}

/// A position where White's only immediate win is the flat `e2`,
/// finishing the rank-2 road; the white capstone is already spent.
fn one_move_from_road() -> Position {
    let mut p = start5();
    place(&mut p, Role::Flat, sq(0, 5)); // a5: black flat
    place(&mut p, Role::Flat, sq(4, 5)); // e5: white flat
    place(&mut p, Role::Cap, sq(0, 1)); // a1: white capstone
    place(&mut p, Role::Flat, sq(0, 4)); // a4: black flat
    for file in 0..4 {
        place(&mut p, Role::Flat, sq(file, 2)); // white builds rank 2
        if file < 3 {
            place(&mut p, Role::Flat, sq(file + 1, 4)); // black builds rank 4
        } else {
            place(&mut p, Role::Wall, sq(4, 3)); // black wall e3
        }
    }
    assert!(p.game_result().is_none());
    assert_eq!(p.side_to_move(), Color::White);
    p
}

#[test]
fn flat_count_win_with_komi() {
    // Komi 2.0 counts for Black: 13 white flats against 12 black flats
    // is a loss for White on flats.
    let komi = Komi::from_half_komi(4).unwrap();
    assert_eq!(komi.game_result_with_flatcounts(13, 12), GameResult::BlackWin);
    assert_eq!(komi.game_result_with_flatcounts(14, 12), GameResult::Draw);
    assert_eq!(komi.game_result_with_flatcounts(15, 12), GameResult::WhiteWin);
    let zero = Komi::from_half_komi(0).unwrap();
    assert_eq!(zero.game_result_with_flatcounts(13, 12), GameResult::WhiteWin);
    assert_eq!(zero.game_result_with_flatcounts(12, 12), GameResult::Draw);
    assert!(Komi::from_half_komi(10).is_none());
    assert!(Komi::from_half_komi(-10).is_none());
}

#[test]
fn perft_start_position() {
    let mut p = start5();
    assert_eq!(p.perft(0), 1);
    assert_eq!(p.perft(1), 25);
    assert_eq!(p.perft(2), 600);
}

#[test]
fn bulk_perft_matches_perft() {
    let mut p = start5();
    for depth in 0..3 {
        assert_eq!(p.perft(depth), p.bulk_perft(depth), "depth {}", depth);
    }
}

#[test]
fn undo_chain_restores_position() {
    // Apply ten legal moves, then reverse them in reverse order: the
    // position and its hash come back exactly.
    let mut p = start5();
    let reference = p.duplicate();
    let start_hash = p.zobrist_hash();
    let mut tokens = Vec::new();
    for ply in 0..10 {
        let mut moves = Vec::new();
        p.generate_moves(&mut moves);
        assert!(!moves.is_empty());
        let mv = moves.swap_remove(ply % moves.len());
        tokens.push(p.do_move(mv));
    }
    assert_ne!(p.zobrist_hash(), start_hash);
    while let Some(tok) = tokens.pop() {
        p.reverse_move(tok);
    }
    assert_eq!(p, reference);
    assert_eq!(p.zobrist_hash(), start_hash);
}

#[test]
fn road_win_is_detected() {
    // White builds a road along rank 1 while Black stacks on rank 5.
    let mut p = start5();
    place(&mut p, Role::Flat, sq(0, 1)); // white places a black flat
    place(&mut p, Role::Flat, sq(0, 5)); // black places a white flat
    for file in 1..5 {
        place(&mut p, Role::Flat, sq(file, 1)); // white extends rank 1
        assert!(p.game_result().is_none() || file == 4);
        if file < 4 {
            place(&mut p, Role::Flat, sq(file, 5)); // black answers on rank 5
        }
    }
    // The board holds a black flat on a1 plus white flats b1..e1: no
    // road yet. White closes the road by capturing a1? Instead White
    // already owns b1..e1; it needs a1 too, so place on a2..: build the
    // elbow a2, a1 is black. Simply finish a straight road on rank 2.
    let mut p = start5();
    place(&mut p, Role::Flat, sq(0, 5)); // white places black flat far away
    place(&mut p, Role::Flat, sq(4, 5)); // black places white flat far away
    for file in 0..4 {
        place(&mut p, Role::Flat, sq(file, 2)); // white builds rank 2
        place(&mut p, Role::Flat, sq(file, 4)); // black builds rank 4
    }
    assert!(p.game_result().is_none());
    place(&mut p, Role::Flat, sq(4, 2)); // white completes the road
    assert_eq!(p.game_result(), Some(GameResult::WhiteWin));
}

#[test]
fn winning_placement_gets_high_prior() {
    // White is one flat short of a road, with its capstone already
    // used: the policy must put at least half the probability mass on
    // the one winning placement.
    let mut p = one_move_from_road();
    let params = default_policy_params();
    let priors = p.generate_moves_with_probabilities(&params);
    let total: u64 = priors.iter().map(|(_, pr)| *pr as u64).sum();
    assert_eq!(total, 1_000_000);
    let floor = 50_000 / priors.len() as u32;
    for (_, pr) in priors.iter() {
        assert!(*pr >= floor);
    }
    let winning = Move::Place(Role::Flat, sq(4, 2));
    let win_prior = priors
        .iter()
        .find(|(mv, _)| *mv == winning)
        .expect("the winning move must be generated")
        .1;
    assert!(win_prior >= 500_000, "winning prior was {}", win_prior);
}

#[test]
fn search_finds_the_winning_move() {
    let p = one_move_from_road();
    let (mv, score) = mcts(p, 500).expect("search should produce a move");
    assert_eq!(mv, Move::Place(Role::Flat, sq(4, 2)));
    assert!(score > 900_000, "score was {}", score);
}

#[test]
fn arena_cap_limits_visits() {
    // With an arena sized for 100 iterations, the search stops with the
    // sentinel; the root has at most 100 visits and still yields a
    // legal best move.
    let p = start5();
    let reference = p.duplicate();
    let settings = MctsSetting::default_setting().arena_size_for_nodes(100);
    let mut tree = Tree::new_root(p, settings);
    let mut stopped = false;
    for _ in 0..1000 {
        let before = tree.visits();
        match tree.select() {
            None => {
                assert_eq!(tree.visits(), before);
                stopped = true;
                break;
            }
            Some(_) => {
                // Visits grow by one per successful iteration unless a
                // proven result rewrote the root.
                assert!(tree.visits() == before + 1 || tree.known_result().is_some());
            }
        }
    }
    assert!(stopped, "the arena budget should run out");
    assert!(tree.visits() <= 100, "visits were {}", tree.visits());
    let (mv, _) = tree.best_move(1).expect("a best move must exist");
    assert!(reference.is_legal_move(&mv));
}

#[test]
fn pv_moves_are_legal() {
    let p = start5();
    let reference = p.duplicate();
    let mut tree = Tree::new_root(p, MctsSetting::default_setting());
    for _ in 0..200 {
        if tree.select().is_none() {
            break;
        }
    }
    let pv = tree.pv();
    assert!(!pv.is_empty());
    let mut walk = reference;
    for mv in pv {
        assert!(walk.is_legal_move(&mv), "pv move must be legal");
        walk.do_move(mv);
    }
}

#[test]
fn cap_flattens_wall_and_undo_restores_it() {
    let mut p = start5();
    place(&mut p, Role::Flat, sq(0, 5)); // a5: black flat (white's opening move)
    place(&mut p, Role::Flat, sq(4, 5)); // e5: white flat (black's opening move)
    place(&mut p, Role::Flat, sq(2, 2)); // white flat c2
    place(&mut p, Role::Wall, sq(2, 3)); // black wall c3
    place(&mut p, Role::Cap, sq(2, 1)); // white capstone c1
    place(&mut p, Role::Flat, sq(0, 4)); // black flat a4
    // The capstone walks c1 -> c2 -> c3, flattening the wall with its
    // final lone drop.
    let spread = Move::Spread(
        sq(2, 1),
        Direction::North,
        StackMovement { pieces_to_take: 1, drops: vec![1] },
    );
    assert!(p.is_legal_move(&spread), "cap onto own flat is legal");
    let before = p.duplicate();
    let tok = p.do_move(spread);
    p.reverse_move(tok);
    assert_eq!(p, before);
    let step1 = Move::Spread(
        sq(2, 1),
        Direction::North,
        StackMovement { pieces_to_take: 1, drops: vec![1] },
    );
    p.do_move(step1);
    place(&mut p, Role::Flat, sq(1, 4)); // black flat b4
    let flatten = Move::Spread(
        sq(2, 2),
        Direction::North,
        StackMovement { pieces_to_take: 1, drops: vec![1] },
    );
    assert!(p.is_legal_move(&flatten), "lone cap drop onto a wall is legal");
    let before = p.duplicate();
    let tok = p.do_move(flatten);
    // The wall has been flattened under the capstone.
    let stack = p.get_stack(sq(2, 3));
    assert_eq!(stack.len(), 2);
    assert_eq!(stack.get(0).unwrap().role, Role::Flat);
    assert_eq!(stack.get(0).unwrap().color, Color::Black);
    assert_eq!(stack.get(1).unwrap().role, Role::Cap);
    p.reverse_move(tok);
    assert_eq!(p, before);
    // A flat may not be dropped onto a wall.
    let illegal = Move::Spread(
        sq(2, 2),
        Direction::North,
        StackMovement { pieces_to_take: 2, drops: vec![2] },
    );
    assert!(!p.is_legal_move(&illegal));
}

#[test]
fn spread_onto_capstone_is_illegal() {
    let mut p = start5();
    place(&mut p, Role::Flat, sq(0, 5));
    place(&mut p, Role::Flat, sq(4, 5));
    place(&mut p, Role::Flat, sq(2, 2)); // white flat c2
    place(&mut p, Role::Cap, sq(2, 3)); // black capstone c3
    let spread = Move::Spread(
        sq(2, 2),
        Direction::North,
        StackMovement { pieces_to_take: 1, drops: vec![1] },
    );
    assert!(!p.is_legal_move(&spread), "no piece may land on a capstone");
}

#[test]
fn sigmoid_basics() {
    assert_eq!(sigmoid(0), 500_000);
    assert!(sigmoid(1_000_000) > 700_000);
    assert!(sigmoid(-1_000_000) < 300_000);
    assert_eq!(sigmoid(2_000_000) + sigmoid(-2_000_000), 1_000_000);
    assert!(inverse_sigmoid(500_000) == 0);
    assert!(inverse_sigmoid(750_000) > 0);
    assert!(inverse_sigmoid(250_000) < 0);
}

#[test]
fn phase_factors_follow_the_ply() {
    let (o, m, e) = takmcts::eval::phase_factors(0);
    assert_eq!((o, m, e), (1000, 0, 0));
    let (o, m, e) = takmcts::eval::phase_factors(24);
    assert_eq!((o, m, e), (0, 1000, 0));
    let (o, m, e) = takmcts::eval::phase_factors(48);
    assert_eq!((o, m, e), (0, 0, 1000));
    let (o, m, e) = takmcts::eval::phase_factors(18);
    assert_eq!(o + m + e, 1000);
}

#[test]
fn history_reports_last_placements() {
    let mut p = start5();
    place(&mut p, Role::Flat, sq(0, 5));
    place(&mut p, Role::Flat, sq(4, 5));
    place(&mut p, Role::Flat, sq(2, 2));
    // Black to move: their last placement is White's c2, ours is e5.
    assert_eq!(their_last_placement(&p), Some((Role::Flat, sq(2, 2))));
    assert_eq!(our_last_placement(&p), Some((Role::Flat, sq(4, 5))));
}

#[test]
fn static_eval_prefers_more_flats() {
    let mut p = start5();
    place(&mut p, Role::Flat, sq(0, 5));
    place(&mut p, Role::Flat, sq(4, 5));
    place(&mut p, Role::Flat, sq(2, 2)); // white flat
    place(&mut p, Role::Flat, sq(0, 4)); // black flat
    place(&mut p, Role::Flat, sq(3, 2)); // white flat
    let params = default_value_params();
    let eval = p.static_eval_with_params(&params);
    assert!(eval > 0, "white is a flat up, eval was {}", eval);
}

#[test]
fn reserves_are_conserved() {
    // After any sequence of legal moves, reserves plus pieces on the
    // board equal the starting reserves.
    let mut p = start5();
    for ply in 0..12 {
        let mut moves = Vec::new();
        p.generate_moves(&mut moves);
        let mv = moves.swap_remove((ply * 3) % moves.len());
        p.do_move(mv);
        let mut white = 0u32;
        let mut black = 0u32;
        for square in 0..25 {
            let stack = p.get_stack(square);
            for i in 0..stack.len() {
                match stack.get(i).unwrap().color {
                    Color::White => white += 1,
                    Color::Black => black += 1,
                }
            }
        }
        assert_eq!(white + p.stones_left(Color::White) as u32 + p.caps_left(Color::White) as u32, 22);
        assert_eq!(black + p.stones_left(Color::Black) as u32 + p.caps_left(Color::Black) as u32, 22);
    }
}

#[test]
fn value_is_symmetric_under_mirroring() {
    // Two positions that are mirror images across the vertical axis
    // evaluate identically.
    let params = default_value_params();
    let mut a = start5();
    place(&mut a, Role::Flat, sq(0, 5)); // a5 black
    place(&mut a, Role::Flat, sq(4, 5)); // e5 white
    place(&mut a, Role::Flat, sq(1, 2)); // b2 white
    place(&mut a, Role::Wall, sq(0, 3)); // a3 black wall
    let mut b = start5();
    place(&mut b, Role::Flat, sq(4, 5)); // e5 black
    place(&mut b, Role::Flat, sq(0, 5)); // a5 white
    place(&mut b, Role::Flat, sq(3, 2)); // d2 white
    place(&mut b, Role::Wall, sq(4, 3)); // e3 black wall
    assert_eq!(
        a.static_eval_with_params(&params),
        b.static_eval_with_params(&params)
    );
}

#[test]
fn opening_plies_get_uniform_priors() {
    // During the first two plies every policy feature is zero, so all
    // opening placements share the probability mass evenly; rounding
    // debris goes to the first move.
    let p = start5();
    let params = default_policy_params();
    let priors = p.generate_moves_with_probabilities(&params);
    assert_eq!(priors.len(), 25);
    let total: u64 = priors.iter().map(|(_, pr)| *pr as u64).sum();
    assert_eq!(total, 1_000_000);
    for (_, pr) in priors.iter().skip(1) {
        assert_eq!(*pr, priors[1].1);
    }
    assert!(priors[0].1 >= priors[1].1);
}

#[test]
fn lone_stack_spread_damages_its_group() {
    // A spread from a stone with no neighbours leaves nothing connected:
    // the group-damage policy feature fires.
    let mut p = start5();
    place(&mut p, Role::Flat, sq(0, 5)); // a5: black flat
    place(&mut p, Role::Flat, sq(2, 3)); // c3: white flat
    place(&mut p, Role::Flat, sq(0, 1)); // a1: white flat
    place(&mut p, Role::Flat, sq(4, 5)); // e5: black flat
    assert_eq!(p.side_to_move(), Color::White);
    let mv = Move::Spread(
        sq(2, 3),
        Direction::North,
        StackMovement { pieces_to_take: 1, drops: vec![1] },
    );
    assert!(p.is_legal_move(&mv));
    let features = p.features_for_moves(&vec![mv]);
    assert_eq!(features[0][10], 1, "a lone spread damages its group");
    assert_eq!(features[0][11], 1, "spreads carry the movement marker");
}

#[test]
fn flanked_spread_keeps_its_group() {
    // The stone leaving c3 stays linked through the b-file flats, so the
    // group-damage policy feature stays quiet.
    let mut p = start5();
    place(&mut p, Role::Flat, sq(4, 5)); // e5: black flat
    place(&mut p, Role::Flat, sq(1, 3)); // b3: white flat
    place(&mut p, Role::Flat, sq(1, 4)); // b4: white flat
    place(&mut p, Role::Flat, sq(4, 4)); // e4: black flat
    place(&mut p, Role::Flat, sq(2, 3)); // c3: white flat
    place(&mut p, Role::Flat, sq(4, 3)); // e3: black flat
    assert_eq!(p.side_to_move(), Color::White);
    let mv = Move::Spread(
        sq(2, 3),
        Direction::North,
        StackMovement { pieces_to_take: 1, drops: vec![1] },
    );
    assert!(p.is_legal_move(&mv));
    let features = p.features_for_moves(&vec![mv]);
    assert_eq!(features[0][10], 0, "the flank keeps the group connected");
}

#[test]
fn value_features_count_the_board() {
    // The first value features are exact counts: flat, wall and capstone
    // tops, and the tall-stack slot stays zero without stacks.
    let mut p = start5();
    place(&mut p, Role::Flat, sq(0, 5)); // a5: black flat
    place(&mut p, Role::Flat, sq(2, 3)); // c3: white flat
    place(&mut p, Role::Wall, sq(3, 3)); // d3: white wall
    place(&mut p, Role::Flat, sq(0, 4)); // a4: black flat
    place(&mut p, Role::Cap, sq(2, 2)); // c2: white capstone
    let mut white = Vec::new();
    let mut black = Vec::new();
    p.static_eval_game_phase(&mut white, &mut black);
    assert_eq!(white[0], 1); // one white flat top
    assert_eq!(white[2], 1); // one white wall
    assert_eq!(white[3], 1); // one white capstone
    assert_eq!(black[0], 2); // two black flat tops
    assert_eq!(black[2], 0);
    assert_eq!(black[3], 0);
    assert_eq!(white[5], 0); // no tall stacks anywhere
    assert_eq!(black[5], 0);
}

#[test]
fn shallow_clone_keeps_root_statistics() {
    // The clone carries the root's visits and values; depth one drops
    // the children, so no further principal variation can be read.
    let p = one_move_from_road();
    let mut tree = Tree::new_root(p, MctsSetting::default_setting());
    for _ in 0..50 {
        if tree.select().is_none() {
            break;
        }
    }
    let clone = tree.shallow_clone(1);
    assert_eq!(clone.visits(), tree.visits());
    assert_eq!(clone.mean_action_value(), tree.mean_action_value());
    assert_eq!(clone.known_result(), tree.known_result());
    assert!(clone.pv().is_empty(), "depth one keeps no children");
    let deep = tree.shallow_clone(8);
    assert_eq!(deep.visits(), tree.visits());
    assert_eq!(deep.pv(), tree.pv(), "a deep clone walks the same line");
}

#[test]
fn flat_win_next_move_follows_komi() {
    // With komi 2.0, White up 13 to 12 still loses if Black may end the
    // game on flats with one more stone: 13 against 13 plus komi.
    let p = Position::start_position_with_komi(5, Komi::from_half_komi(4).unwrap());
    let (loss, draw, win) = p.check_flat_win_next_move(Color::White, 13, 12);
    assert_eq!((loss, draw, win), (1, 0, 0));
    let (loss2, draw2, win2) = p.check_flat_win_next_move(Color::White, 16, 12);
    assert_eq!((loss2, draw2, win2), (0, 0, 1));
    let zero = Position::start_position(5);
    let (l3, d3, w3) = zero.check_flat_win_next_move(Color::Black, 13, 13);
    assert_eq!((l3, d3, w3), (1, 0, 0)); // White ends at 14 against 13
    let (l5, d5, w5) = zero.check_flat_win_next_move(Color::Black, 15, 13);
    assert_eq!((l5, d5, w5), (0, 0, 1)); // Black holds 15 against 14
    let (l4, d4, w4) = zero.check_flat_win_next_move(Color::White, 13, 12);
    assert_eq!((l4, d4, w4), (0, 1, 0)); // 13 to 13 without komi draws
}
