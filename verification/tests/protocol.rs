use pokerbot::moves::PokerMove;
use pokerbot::session::{BaseBot, LineOutcome, ProtocolSession, SessionError};
use pokerbot::state::{GameState, RoundState, TerminalState};

/// A scripted strategy that records every call the session makes.
struct ScriptBot {
    moves: Vec<PokerMove>,
    action_calls: Vec<(i32, u64, usize, Vec<String>, String)>,
    round_starts: Vec<(usize, Vec<String>)>,
    round_ends: Vec<(i32, [i32; 2], Option<[bool; 2]>, Vec<String>)>,
}

impl ScriptBot {
    fn new(moves: Vec<PokerMove>) -> Self {
        ScriptBot { moves, action_calls: Vec::new(), round_starts: Vec::new(), round_ends: Vec::new() }
    }
}

impl BaseBot for ScriptBot {
    fn handle_new_round(&mut self, _game_state: &GameState, round_state: &RoundState, active: usize) {
        self.round_starts.push((active, round_state.hands[active].clone()));
    }

    fn handle_round_over(
        &mut self,
        game_state: &GameState,
        terminal_state: &TerminalState,
        _active: usize,
    ) {
        self.round_ends.push((
            game_state.bankroll,
            terminal_state.deltas,
            terminal_state.bounty_hits,
            terminal_state.previous_state.hands[1].clone(),
        ));
    }

    fn get_action(&mut self, game_state: &GameState, round_state: &RoundState, active: usize) -> PokerMove {
        self.action_calls.push((
            game_state.bankroll,
            game_state.game_clock,
            active,
            round_state.hands[active].clone(),
            round_state.bounties[active].clone(),
        ));
        self.moves.remove(0)
    }
}

fn reply(r: Result<LineOutcome, SessionError>) -> String {
    match r {
        Ok(LineOutcome::Reply(code)) => code,
        other => panic!("expected a reply, got {:?}", describe(&other)),
    }
}

fn describe(r: &Result<LineOutcome, SessionError>) -> String {
    match r {
        Ok(LineOutcome::Reply(code)) => format!("Reply({})", code),
        Ok(LineOutcome::Silent) => "Silent".to_string(),
        Ok(LineOutcome::Quit) => "Quit".to_string(),
        Err(e) => format!("Err({:?})", e),
    }
}

#[test]
fn deal_line_asks_the_strategy_once() {
    // A clock, a seat, a deal and a bounty on one line: the strategy is
    // asked exactly once, as seat 0, with the dealt hand.
    let mut session = ProtocolSession::new(ScriptBot::new(vec![PokerMove::Call]));
    let out = session.process_line("T5.0 P0 H9h,9c G3");
    assert_eq!(reply(out), "C");
    assert_eq!(session.pokerbot.action_calls.len(), 1);
    let (_, clock, active, hand, bounty) = session.pokerbot.action_calls[0].clone();
    assert_eq!(clock, 5000);
    assert_eq!(active, 0);
    assert_eq!(hand, vec!["9h".to_string(), "9c".to_string()]);
    assert_eq!(bounty, "3");
    // The round-start hook fired exactly once, on the first bounty clause.
    assert_eq!(session.pokerbot.round_starts.len(), 1);
    // The chosen call was applied locally.
    let rs = session.round_state.as_ref().expect("round is live");
    assert_eq!(rs.pips, [2, 2]);
    assert_eq!(rs.button, 1);
}

#[test]
fn line_before_any_deal_auto_checks() {
    let mut session = ProtocolSession::new(ScriptBot::new(vec![]));
    let out = session.process_line("T1.0 P0");
    assert_eq!(reply(out), "K");
    assert_eq!(session.pokerbot.action_calls.len(), 0);
}

#[test]
fn quit_tag_ends_the_session() {
    let mut session = ProtocolSession::new(ScriptBot::new(vec![]));
    match session.process_line("Q") {
        Ok(LineOutcome::Quit) => {}
        other => panic!("expected Quit, got {}", describe(&other)),
    }
}

#[test]
fn engine_actions_replay_into_the_round() {
    let mut session = ProtocolSession::new(ScriptBot::new(vec![PokerMove::Call, PokerMove::Check]));
    reply(session.process_line("T5.0 P0 H9h,9c G3"));
    // The engine reports the opponent's bounty and a board, then asks
    // seat 1 to act.
    let out = session.process_line("T4.5 P1 G7 B2c,3d,4s");
    assert_eq!(reply(out), "K");
    let rs = session.round_state.as_ref().expect("round is live");
    assert_eq!(rs.deck, vec!["2c".to_string(), "3d".to_string(), "4s".to_string()]);
    assert_eq!(rs.bounties[1], "7");
}

#[test]
fn delta_and_finish_build_the_settlement() {
    let mut session = ProtocolSession::new(ScriptBot::new(vec![PokerMove::Call]));
    reply(session.process_line("T5.0 P0 H9h,9c G3"));
    // The engine reports this seat's realized delta, then finishes the
    // round with bounty flags; the reported delta is carried into the
    // settlement record.
    let out = session.process_line("T4.0 P0 D25 Y10");
    assert_eq!(reply(out), "K");
    assert_eq!(session.game_state.bankroll, 25);
    assert_eq!(session.game_state.round_num, 2);
    assert_eq!(session.pokerbot.round_ends.len(), 1);
    let (bankroll_at_end, deltas, hits, _) = session.pokerbot.round_ends[0].clone();
    assert_eq!(bankroll_at_end, 25);
    assert_eq!(deltas, [25, -25]);
    assert_eq!(hits, Some([true, false]));
}

#[test]
fn opponent_reveal_reaches_the_settlement() {
    let mut session = ProtocolSession::new(ScriptBot::new(vec![PokerMove::Call]));
    reply(session.process_line("T5.0 P0 H9h,9c G3"));
    // The reveal names the opponent's cards from one step back in the
    // round's history; the settlement record carries them.
    let out = session.process_line("T4.0 P0 O2s,2d D5 Y00");
    assert_eq!(reply(out), "K");
    let (_, _, _, shown) = session.pokerbot.round_ends[0].clone();
    assert_eq!(shown, vec!["2s".to_string(), "2d".to_string()]);
}

#[test]
fn bad_clock_payload_is_fatal() {
    let mut session = ProtocolSession::new(ScriptBot::new(vec![]));
    match session.process_line("Tabc") {
        Err(SessionError::BadPayload) => {}
        other => panic!("expected BadPayload, got {}", describe(&other)),
    }
}

#[test]
fn bad_seat_index_is_fatal() {
    let mut session = ProtocolSession::new(ScriptBot::new(vec![]));
    match session.process_line("P2") {
        Err(SessionError::BadSeat) => {}
        other => panic!("expected BadSeat, got {}", describe(&other)),
    }
}

#[test]
fn seat_disagreement_is_fatal() {
    let mut session = ProtocolSession::new(ScriptBot::new(vec![PokerMove::Call]));
    reply(session.process_line("T5.0 P0 H9h,9c G3"));
    // After the blind-matching call the turn owner is seat 1; the engine
    // claiming seat 0 is a desynchronization.
    match session.process_line("T4.0 P0 G7") {
        Err(SessionError::TurnMismatch) => {}
        other => panic!("expected TurnMismatch, got {}", describe(&other)),
    }
}

#[test]
fn illegal_engine_action_is_fatal() {
    let mut session = ProtocolSession::new(ScriptBot::new(vec![]));
    // Checking while the small blind still owes chips is illegal.
    match session.process_line("T5.0 P0 H9h,9c K") {
        Err(SessionError::IllegalAction) => {}
        other => panic!("expected IllegalAction, got {}", describe(&other)),
    }
}

#[test]
fn illegal_strategy_move_is_fatal() {
    let mut session = ProtocolSession::new(ScriptBot::new(vec![PokerMove::Check]));
    // The strategy answers Check where only Fold, Call or Raise are
    // legal.
    match session.process_line("T5.0 P0 H9h,9c G3") {
        Err(SessionError::IllegalAction) => {}
        other => panic!("expected IllegalAction, got {}", describe(&other)),
    }
}

#[test]
fn delta_overflow_is_fatal() {
    let mut session = ProtocolSession::new(ScriptBot::new(vec![]));
    match session.process_line("P0 H9h,9c D-2147483648") {
        Err(SessionError::CounterOverflow) => {}
        other => panic!("expected CounterOverflow, got {}", describe(&other)),
    }
}

#[test]
fn unknown_tags_are_ignored_silently() {
    let mut session = ProtocolSession::new(ScriptBot::new(vec![]));
    let out = session.process_line("Z99 T2.5 X");
    assert_eq!(reply(out), "K");
    assert_eq!(session.game_state.game_clock, 2500);
}

#[test]
fn second_round_starts_with_fresh_settlement_bookkeeping() {
    let mut session =
        ProtocolSession::new(ScriptBot::new(vec![PokerMove::Call, PokerMove::Check]));
    reply(session.process_line("T5.0 P0 H9h,9c G3"));
    // Round one settles with a reported delta of 25 chips.
    assert_eq!(reply(session.process_line("T4.0 P0 D25 Y10")), "K");
    // Round two as seat 1: the deal arrives with the opponent's
    // blind-matching call, and a settlement follows with no delta
    // clause; the carried delta pair must have been reset by the deal.
    assert_eq!(reply(session.process_line("T3.0 P1 H5s,5d G9 C")), "K");
    assert_eq!(reply(session.process_line("T2.0 P1 Y01")), "K");
    assert_eq!(session.pokerbot.round_ends.len(), 2);
    let (_, deltas, hits, _) = session.pokerbot.round_ends[1].clone();
    assert_eq!(deltas, [0, 0]);
    // Flags arrive hero-first and seat 1 is the hero here.
    assert_eq!(hits, Some([true, false]));
    assert_eq!(session.game_state.bankroll, 25);
    assert_eq!(session.game_state.round_num, 3);
    assert_eq!(session.pokerbot.round_starts.len(), 2);
}
