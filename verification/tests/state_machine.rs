use pokerbot::moves::PokerMove;
use pokerbot::state::{RoundState, TerminalState};
use pokerbot::{BIG_BLIND, SMALL_BLIND, STARTING_STACK};

fn fresh_round(hands0: Vec<&str>) -> RoundState {
    RoundState {
        button: 0,
        street: 0,
        pips: [SMALL_BLIND, BIG_BLIND],
        stacks: [STARTING_STACK - SMALL_BLIND, STARTING_STACK - BIG_BLIND],
        hands: [hands0.into_iter().map(String::from).collect(), Vec::new()],
        bounties: ["-1".to_string(), "-1".to_string()],
        deck: Vec::new(),
        previous_state: None,
    }
}

#[test]
fn call_at_round_start_matches_blinds() {
    // Seat 0 acts first from the dealt state and calls: straight to
    // button 1 with both blinds matched, no street advance.
    let start = fresh_round(vec!["As", "Kd"]);
    assert_eq!(start.button % 2, 0);
    match start.proceed(PokerMove::Call) {
        Ok(next) => {
            assert_eq!(next.button, 1);
            assert_eq!(next.street, 0);
            assert_eq!(next.pips, [2, 2]);
            assert_eq!(next.stacks, [398, 398]);
            assert_eq!(next.hands[0], vec!["As".to_string(), "Kd".to_string()]);
        }
        Err(_) => panic!("the blind-matching call must not settle the round"),
    }
}

#[test]
fn check_after_blinds_advances_street() {
    let matched = RoundState {
        button: 1,
        street: 0,
        pips: [2, 2],
        stacks: [398, 398],
        hands: [Vec::new(), Vec::new()],
        bounties: ["-1".to_string(), "-1".to_string()],
        deck: Vec::new(),
        previous_state: None,
    };
    match matched.proceed(PokerMove::Check) {
        Ok(next) => {
            assert_eq!(next.street, 3);
            assert_eq!(next.button, 1);
            assert_eq!(next.pips, [0, 0]);
            assert_eq!(next.stacks, [398, 398]);
        }
        Err(_) => panic!("a preflop closing check must advance the street"),
    }
}

#[test]
fn all_in_stack_forbids_raise() {
    // Seat 0 already all-in with nothing owed: no raise among the legal
    // actions.
    let state = RoundState {
        button: 1,
        street: 3,
        pips: [5, 5],
        stacks: [0, 398],
        hands: [Vec::new(), Vec::new()],
        bounties: ["-1".to_string(), "-1".to_string()],
        deck: Vec::new(),
        previous_state: None,
    };
    let actions = state.legal_actions();
    assert!(actions.contains(&PokerMove::Check));
    assert!(actions.contains(&PokerMove::Fold));
    assert!(!actions.contains(&PokerMove::Raise(0)));
    assert!(!actions.contains(&PokerMove::Call));
}

#[test]
fn fold_settlement_is_zero_sum() {
    // Seat 1 folds while behind: the deltas are signed from seat 0's
    // perspective and sum to zero.
    let state = RoundState {
        button: 1,
        street: 3,
        pips: [20, 10],
        stacks: [380, 390],
        hands: [Vec::new(), Vec::new()],
        bounties: ["-1".to_string(), "-1".to_string()],
        deck: Vec::new(),
        previous_state: None,
    };
    let terminal: TerminalState = match state.proceed(PokerMove::Fold) {
        Err(t) => t,
        Ok(_) => panic!("a fold must settle the round"),
    };
    assert_eq!(terminal.deltas, [10, -10]);
    assert_eq!(terminal.deltas[0] + terminal.deltas[1], 0);
    assert_eq!(STARTING_STACK - terminal.previous_state.stacks[1], 10);
}

#[test]
fn streets_progress_in_order_to_showdown() {
    // Closing transitions from street 0 visit 3, 4, 5 in order and settle
    // at showdown after the river.
    let mut state = RoundState {
        button: 1,
        street: 0,
        pips: [2, 2],
        stacks: [398, 398],
        hands: [Vec::new(), Vec::new()],
        bounties: ["-1".to_string(), "-1".to_string()],
        deck: Vec::new(),
        previous_state: None,
    };
    let mut seen = vec![state.street];
    // Street 0 closes with one check from the big blind; later streets
    // need a non-closing check first.
    state = state.proceed(PokerMove::Check).expect("preflop close");
    seen.push(state.street);
    for _ in 0..2 {
        state = state.proceed(PokerMove::Check).expect("first check keeps the street");
        state = state.proceed(PokerMove::Check).expect("second check closes the street");
        seen.push(state.street);
    }
    assert_eq!(seen, vec![0, 3, 4, 5]);
    state = state.proceed(PokerMove::Check).expect("first river check");
    match state.proceed(PokerMove::Check) {
        Err(showdown) => {
            assert_eq!(showdown.deltas, [0, 0]);
            assert!(showdown.bounty_hits.is_none());
        }
        Ok(_) => panic!("closing the river must settle at showdown"),
    }
}

#[test]
fn chips_conserved_through_betting() {
    let mut state = fresh_round(vec!["As", "Kd"]);
    let total = |s: &RoundState| (s.pips[0] + s.stacks[0], s.pips[1] + s.stacks[1]);
    assert_eq!(total(&state), (STARTING_STACK, STARTING_STACK));
    state = state.proceed(PokerMove::Raise(6)).expect("open raise");
    assert_eq!(total(&state), (STARTING_STACK, STARTING_STACK));
    state = state.proceed(PokerMove::Raise(18)).expect("re-raise");
    assert_eq!(total(&state), (STARTING_STACK, STARTING_STACK));
    state = state.proceed(PokerMove::Call).expect("call closes the street");
    let (t0, t1) = total(&state);
    assert_eq!(t0, t1);
    assert_eq!(state.street, 3);
    assert_eq!(state.pips, [0, 0]);
    assert_eq!(state.stacks, [382, 382]);
}

#[test]
fn raise_bounds_at_round_start() {
    let start = fresh_round(vec!["As", "Kd"]);
    let (lo, hi) = start.raise_bounds();
    // Owed 1, minimum raise by the big blind: 1 + (1 + 2) = 4; at most
    // the whole stack: 1 + 399 = 400.
    assert_eq!((lo, hi), (4, STARTING_STACK));
}

#[test]
fn raise_bounds_never_exceed_commitment() {
    let state = RoundState {
        button: 2,
        street: 4,
        pips: [50, 150],
        stacks: [300, 200],
        hands: [Vec::new(), Vec::new()],
        bounties: ["-1".to_string(), "-1".to_string()],
        deck: Vec::new(),
        previous_state: None,
    };
    let (lo, hi) = state.raise_bounds();
    assert!(lo <= hi);
    assert_eq!(hi, state.pips[0] + state.stacks[0]);
    // Owed 100, raise by at least 100 more.
    assert_eq!(lo, 50 + 100 + 100);
}

#[test]
fn bounty_hits_read_hole_and_board_ranks() {
    let state = RoundState {
        button: 0,
        street: 3,
        pips: [10, 10],
        stacks: [390, 390],
        hands: [
            vec!["As".to_string(), "Kd".to_string()],
            vec!["2c".to_string(), "7h".to_string()],
        ],
        bounties: ["K".to_string(), "9".to_string()],
        deck: vec!["9h".to_string(), "3d".to_string(), "Qc".to_string()],
        previous_state: None,
    };
    // Seat 0 holds a king; seat 1's bounty nine sits on the board.
    assert_eq!(state.get_bounty_hits(), [true, true]);
    let missed = RoundState {
        bounties: ["5".to_string(), "-1".to_string()],
        ..state.clone()
    };
    assert_eq!(missed.get_bounty_hits(), [false, false]);
}

#[test]
fn fold_records_bounty_snapshot() {
    let state = RoundState {
        button: 0,
        street: 3,
        pips: [10, 10],
        stacks: [390, 390],
        hands: [
            vec!["9h".to_string(), "9c".to_string()],
            vec![],
        ],
        bounties: ["9".to_string(), "A".to_string()],
        deck: vec!["2c".to_string(), "3d".to_string(), "4s".to_string()],
        previous_state: None,
    };
    match state.proceed(PokerMove::Fold) {
        Err(t) => assert_eq!(t.bounty_hits, Some([true, false])),
        Ok(_) => panic!("a fold must settle the round"),
    }
}

#[test]
fn showdown_keeps_the_settled_state() {
    let state = fresh_round(vec!["As", "Kd"]);
    let t = state.showdown();
    assert_eq!(t.deltas, [0, 0]);
    assert!(t.bounty_hits.is_none());
    assert_eq!(t.previous_state.hands[0], vec!["As".to_string(), "Kd".to_string()]);
}

#[test]
fn move_codes_and_labels() {
    assert_eq!(PokerMove::Fold.code(), "F");
    assert_eq!(PokerMove::Call.code(), "C");
    assert_eq!(PokerMove::Check.code(), "K");
    assert_eq!(PokerMove::Raise(150).code(), "R150");
    assert_eq!(PokerMove::Raise(-7).code(), "R-7");
    assert_eq!(PokerMove::Fold.label(), "Fold");
    assert_eq!(PokerMove::Raise(150).label(), "Raise(150)");
}
