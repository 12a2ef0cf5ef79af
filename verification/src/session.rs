use crate::moves::{wire_code, PokerMove};
use crate::state::{
    round_prev, round_start, GameState, RoundState, RoundView, Step, TerminalState,
};
use crate::text::{
    clock_millis, clock_text_valid, clock_whole_value, int_text_valid, int_text_value, parse_clock_millis,
    parse_i32, split_char, split_spec,
};
use crate::{BIG_BLIND, SMALL_BLIND, STARTING_STACK};
use vstd::prelude::*;

verus! {

broadcast use vstd::array::group_array_axioms;

/// The strategy capability the session drives: notified at round start and
/// round end, and asked for a move at each decision point. The move it
/// returns must be legal for the given round state, or the session reports
/// an `IllegalAction` error.
pub trait BaseBot {
    /// Called once per round, when the opponent's bounty first becomes
    /// known.
    fn handle_new_round(&mut self, game_state: &GameState, round_state: &RoundState, active: usize);

    /// Called once per round, at settlement.
    fn handle_round_over(
        &mut self,
        game_state: &GameState,
        terminal_state: &TerminalState,
        active: usize,
    );

    /// Asked for the move to play at a decision point.
    fn get_action(
        &mut self,
        game_state: &GameState,
        round_state: &RoundState,
        active: usize,
    ) -> PokerMove;
}

/// A condition on which the session aborts: the remote engine is the sole
/// source of truth, so none is recoverable.
#[derive(Clone, Copy, Debug, PartialEq, Eq, Structural)]
pub enum SessionError {
    /// A numeric clause payload failed to parse or does not fit.
    BadPayload,
    /// A seat index clause named a seat other than 0 or 1.
    BadSeat,
    /// The engine-reported active seat disagrees with the turn owner
    /// computed from the button.
    TurnMismatch,
    /// An action clause, or the strategy's chosen move, is not legal in
    /// the current round state.
    IllegalAction,
    /// The bankroll or round counter left its machine range.
    CounterOverflow,
}

/// What the session does once a line is fully consumed.
pub enum LineOutcome {
    /// Send this move code to the engine.
    Reply(String),
    /// Nothing owed this line.
    Silent,
    /// The engine ended the session.
    Quit,
}

/// Mathematical model of the session state, without the strategy.
#[verifier::ext_equal]
pub ghost struct SessionView {
    pub bankroll: int,
    pub game_clock: int,
    pub round_num: int,
    pub round: Option<RoundView>,
    pub round_prev: Option<RoundView>,
    pub active: int,
    pub round_flag: bool,
    pub revealed: Option<RoundView>,
    pub pending: Seq<int>,
}

/// Outcome of folding one clause into the session state.
#[verifier::ext_equal]
pub ghost enum ClauseOutcome {
    Next(SessionView),
    Stop,
    Fail(SessionError),
}

/// One line-oriented protocol session: the match totals, the live round
/// (absent between rounds), the engine-reported active seat, the flag that
/// a new round has not yet asked for a decision, the opponent hand
/// revealed for the settling round, and the delta reported for it.
///
/// The delta clause and the opponent-reveal clause arrive before the
/// finishing clause; rather than being dropped, both are carried into the
/// settlement record the finishing clause builds: its `deltas` are the
/// last reported delta pair, and its `previous_state` is the revealed
/// state when one was given.
pub struct ProtocolSession<B: BaseBot> {
    pub pokerbot: B,
    pub game_state: GameState,
    pub round_state: Option<RoundState>,
    pub active: usize,
    pub round_flag: bool,
    pub revealed_state: Option<RoundState>,
    pub pending_deltas: [i32; 2],
}

impl<B: BaseBot> View for ProtocolSession<B> {
    type V = SessionView;

    open spec fn view(&self) -> SessionView {
        SessionView {
            bankroll: self.game_state.bankroll as int,
            game_clock: self.game_state.game_clock as int,
            round_num: self.game_state.round_num as int,
            round: match self.round_state {
                Option::None => Option::None,
                Option::Some(rs) => Option::Some(rs@),
            },
            round_prev: match self.round_state {
                Option::None => Option::None,
                Option::Some(rs) => round_prev(rs),
            },
            active: self.active as int,
            round_flag: self.round_flag,
            revealed: match self.revealed_state {
                Option::None => Option::None,
                Option::Some(rs) => Option::Some(rs@),
            },
            pending: seq![self.pending_deltas@[0] as int, self.pending_deltas@[1] as int],
        }
    }
}

/// The session state before the first line.
pub open spec fn initial_session() -> SessionView {
    SessionView {
        bankroll: 0,
        game_clock: 0,
        round_num: 1,
        round: Option::None,
        round_prev: Option::None,
        active: 0,
        round_flag: true,
        revealed: Option::None,
        pending: seq![0, 0],
    }
}

/// The hands dealt by an `H` clause: the given cards for the active seat,
/// nothing known of the other.
pub open spec fn dealt_hands(active: int, cards: Seq<Seq<char>>) -> Seq<Seq<Seq<char>>> {
    if active == 0 {
        seq![cards, seq![]]
    } else {
        seq![seq![], cards]
    }
}

/// Effect of an engine action clause: nothing without a live round; an
/// illegal action is a fatal desynchronization; a transition that goes on
/// replaces the round, and one that settles leaves the round for the
/// engine's own settlement clauses.
pub open spec fn action_step(v: SessionView, m: PokerMove) -> ClauseOutcome {
    match v.round {
        Option::None => ClauseOutcome::Next(v),
        Option::Some(r) => if !r.move_legal(m) {
            ClauseOutcome::Fail(SessionError::IllegalAction)
        } else {
            match r.spec_proceed(m) {
                Step::Goes(n) => ClauseOutcome::Next(
                    SessionView {
                        round: Option::Some(n),
                        round_prev: Option::Some(r.prev_after(m)),
                        ..v
                    },
                ),
                Step::Ends(_) => ClauseOutcome::Next(v),
            }
        },
    }
}

/// Effect of one clause on the session state, by its tag character;
/// clauses with unknown tags, and empty clauses, change nothing.
pub open spec fn clause_step(v: SessionView, c: Seq<char>) -> ClauseOutcome {
    if c.len() == 0 {
        ClauseOutcome::Next(v)
    } else {
        let p = c.subrange(1, c.len() as int);
        if c[0] == 'T' {
            if clock_text_valid(p) && clock_whole_value(p) <= u32::MAX as int {
                ClauseOutcome::Next(SessionView { game_clock: clock_millis(p), ..v })
            } else {
                ClauseOutcome::Fail(SessionError::BadPayload)
            }
        } else if c[0] == 'P' {
            if int_text_valid(p) && i32::MIN <= int_text_value(p) <= i32::MAX {
                if int_text_value(p) == 0 || int_text_value(p) == 1 {
                    ClauseOutcome::Next(SessionView { active: int_text_value(p), ..v })
                } else {
                    ClauseOutcome::Fail(SessionError::BadSeat)
                }
            } else {
                ClauseOutcome::Fail(SessionError::BadPayload)
            }
        } else if c[0] == 'H' {
            ClauseOutcome::Next(
                SessionView {
                    round: Option::Some(round_start(dealt_hands(v.active, split_spec(p, ',')), "-1"@)),
                    round_prev: Option::None,
                    revealed: Option::None,
                    pending: seq![0, 0],
                    ..v
                },
            )
        } else if c[0] == 'G' {
            match v.round {
                Option::None => ClauseOutcome::Next(v),
                Option::Some(r) => ClauseOutcome::Next(
                    SessionView {
                        round: Option::Some(
                            RoundView { bounties: r.bounties.update(v.active, p), ..r },
                        ),
                        round_flag: false,
                        ..v
                    },
                ),
            }
        } else if c[0] == 'F' {
            action_step(v, PokerMove::Fold)
        } else if c[0] == 'C' {
            action_step(v, PokerMove::Call)
        } else if c[0] == 'K' {
            action_step(v, PokerMove::Check)
        } else if c[0] == 'R' {
            match v.round {
                Option::None => ClauseOutcome::Next(v),
                Option::Some(_) => if int_text_valid(p) && i32::MIN <= int_text_value(p)
                    <= i32::MAX {
                    action_step(v, PokerMove::Raise(int_text_value(p) as i32))
                } else {
                    ClauseOutcome::Fail(SessionError::BadPayload)
                },
            }
        } else if c[0] == 'B' {
            match v.round {
                Option::None => ClauseOutcome::Next(v),
                Option::Some(r) => ClauseOutcome::Next(
                    SessionView {
                        round: Option::Some(RoundView { deck: split_spec(p, ','), ..r }),
                        ..v
                    },
                ),
            }
        } else if c[0] == 'O' {
            match v.round {
                Option::None => ClauseOutcome::Next(v),
                Option::Some(_) => match v.round_prev {
                    Option::None => ClauseOutcome::Next(v),
                    Option::Some(pv) => ClauseOutcome::Next(
                        SessionView {
                            revealed: Option::Some(
                                RoundView {
                                    hands: pv.hands.update(1 - v.active, split_spec(p, ',')),
                                    ..pv
                                },
                            ),
                            ..v
                        },
                    ),
                },
            }
        } else if c[0] == 'D' {
            match v.round {
                Option::None => ClauseOutcome::Next(v),
                Option::Some(_) => if int_text_valid(p) && i32::MIN <= int_text_value(p)
                    <= i32::MAX {
                    let d = int_text_value(p);
                    if d == i32::MIN as int || !(i32::MIN <= v.bankroll + d <= i32::MAX) {
                        ClauseOutcome::Fail(SessionError::CounterOverflow)
                    } else {
                        ClauseOutcome::Next(
                            SessionView {
                                bankroll: v.bankroll + d,
                                pending: if v.active == 0 {
                                    seq![d, -d]
                                } else {
                                    seq![-d, d]
                                },
                                ..v
                            },
                        )
                    }
                } else {
                    ClauseOutcome::Fail(SessionError::BadPayload)
                },
            }
        } else if c[0] == 'Y' {
            match v.round {
                Option::None => ClauseOutcome::Next(v),
                Option::Some(_) => if v.round_num == i32::MAX as int {
                    ClauseOutcome::Fail(SessionError::CounterOverflow)
                } else {
                    ClauseOutcome::Next(
                        SessionView {
                            round_num: v.round_num + 1,
                            round_flag: true,
                            revealed: Option::None,
                            ..v
                        },
                    )
                },
            }
        } else if c[0] == 'Q' {
            ClauseOutcome::Stop
        } else {
            ClauseOutcome::Next(v)
        }
    }
}

/// Folding a whole line's clauses, left to right; a failure or a quit cuts
/// the rest of the line off.
pub open spec fn clauses_step(v: SessionView, cs: Seq<Seq<char>>) -> ClauseOutcome
    decreases cs.len(),
{
    if cs.len() == 0 {
        ClauseOutcome::Next(v)
    } else {
        match clause_step(v, cs[0]) {
            ClauseOutcome::Next(v2) => clauses_step(v2, cs.drop_first()),
            ClauseOutcome::Stop => ClauseOutcome::Stop,
            ClauseOutcome::Fail(e) => ClauseOutcome::Fail(e),
        }
    }
}

/// What a decision reply means: the strategy chose the legal move `m`,
/// the reply is its wire code, and the session applied its transition
/// (keeping the round through a settling one, which the engine's own
/// clauses finish).
pub open spec fn decision_matches(
    v: SessionView,
    r: RoundView,
    m: PokerMove,
    code: Seq<char>,
    post: SessionView,
) -> bool {
    &&& r.move_legal(m)
    &&& code == wire_code(m)
    &&& post == (match r.spec_proceed(m) {
        Step::Goes(n) => SessionView {
            round: Option::Some(n),
            round_prev: Option::Some(r.prev_after(m)),
            ..v
        },
        Step::Ends(_) => v,
    })
}

/// Whether `code` is a reply the session may give from state `v` with
/// live round `r`: the wire code of some legal move whose transition led
/// to `post`.
pub open spec fn reply_matches(v: SessionView, r: RoundView, code: Seq<char>, post: SessionView) -> bool {
    exists|m: PokerMove| decision_matches(v, r, m, code, post)
}

/// The whole contract of feeding one line to the session: the clauses
/// fold left to right, then the line's one reply is owed — an auto-check
/// while no decision has been requested this round, silence with no live
/// round, and otherwise the strategy's move after the turn owner is
/// checked against the engine-reported seat.
pub open spec fn line_contract(
    pre: SessionView,
    line: Seq<char>,
    r: Result<LineOutcome, SessionError>,
    post: SessionView,
) -> bool {
    match clauses_step(pre, split_spec(line, ' ')) {
        ClauseOutcome::Fail(e) => r == Result::<LineOutcome, SessionError>::Err(e),
        ClauseOutcome::Stop => r matches Result::Ok(o) && o is Quit,
        ClauseOutcome::Next(v) => {
            let rv = v.round->0;
            &&& v.round_flag ==> (r matches Result::Ok(o) && o matches LineOutcome::Reply(code)
                && code@ == wire_code(PokerMove::Check) && post == v)
            &&& (!v.round_flag && v.round is None) ==> (r matches Result::Ok(o) && o is Silent
                && post == v)
            &&& (!v.round_flag && v.round is Some && v.active != rv.button % 2) ==> r == Result::<
                LineOutcome,
                SessionError,
            >::Err(SessionError::TurnMismatch)
            &&& (!v.round_flag && v.round is Some && v.active == rv.button % 2) ==> ((r matches
            Result::Ok(o) && o matches LineOutcome::Reply(code) && reply_matches(
                v,
                rv,
                code@,
                post,
            )) || r == Result::<LineOutcome, SessionError>::Err(SessionError::IllegalAction))
        },
    }
}

impl<B: BaseBot> ProtocolSession<B> {
    /// The session's internal invariant: a live round is well-formed and
    /// the active seat is 0 or 1.
    pub open spec fn inv(self) -> bool {
        &&& match self.round_state {
            Option::None => true,
            Option::Some(rs) => rs@.wf(),
        }
        &&& self.active < 2
    }

    /// A fresh session around a strategy, before the first line.
    pub fn new(pokerbot: B) -> (s: Self)
        ensures
            s.inv(),
            s@ == initial_session(),
    {
        let s = ProtocolSession {
            pokerbot,
            game_state: GameState { bankroll: 0, game_clock: 0, round_num: 1 },
            round_state: Option::None,
            active: 0,
            round_flag: true,
            revealed_state: Option::None,
            pending_deltas: [0, 0],
        };
        proof {
            assert(s@ =~= initial_session());
        }
        s
    }

    /// Apply an engine-reported action to the live round.
    fn apply_engine_action(&mut self, m: PokerMove) -> (r: Result<bool, SessionError>)
        requires
            old(self).inv(),
        ensures
            final(self).inv(),
            match action_step(old(self)@, m) {
                ClauseOutcome::Next(v) => r == Result::<bool, SessionError>::Ok(true) && final(self)@ == v,
                ClauseOutcome::Stop => false,
                ClauseOutcome::Fail(e) => r == Result::<bool, SessionError>::Err(e),
            },
    {
        let ghost pre = self@;
        let cur = self.round_state.take();
        match cur {
            Option::None => {
                proof {
                    assert(self@ =~= pre);
                }
                Result::Ok(true)
            },
            Option::Some(rs) => {
                if !rs.move_is_legal(m) {
                    self.round_state = Option::Some(rs);
                    return Result::Err(SessionError::IllegalAction);
                }
                let stepped = rs.proceed(m);
                match stepped {
                    Result::Ok(ns) => {
                        self.round_state = Option::Some(ns);
                        proof {
                            assert(action_step(pre, m) matches ClauseOutcome::Next(v) && self@
                                =~~= v);
                        }
                    },
                    Result::Err(_t) => {
                        self.round_state = Option::Some(rs);
                        proof {
                            assert(action_step(pre, m) matches ClauseOutcome::Next(v) && self@
                                =~~= v);
                        }
                    },
                }
                Result::Ok(true)
            },
        }
    }

    /// Fold one clause into the session state; `Ok(true)` to go on,
    /// `Ok(false)` on the quit tag, and an error on any fatal condition.
    pub fn handle_clause(&mut self, clause: &str) -> (r: Result<bool, SessionError>)
        requires
            old(self).inv(),
        ensures
            final(self).inv(),
            match clause_step(old(self)@, clause@) {
                ClauseOutcome::Next(v) => r == Result::<bool, SessionError>::Ok(true) && final(self)@ == v,
                ClauseOutcome::Stop => r == Result::<bool, SessionError>::Ok(false) && final(self)@
                    == old(self)@,
                ClauseOutcome::Fail(e) => r == Result::<bool, SessionError>::Err(e),
            },
    {
        let ghost pre = self@;
        let n = clause.unicode_len();
        if n == 0 {
            return Result::Ok(true);
        }
        let tag = clause.get_char(0);
        let rest = clause.substring_char(1, n);
        let ghost p = clause@.subrange(1, clause@.len() as int);
        proof {
            assert(rest@ == p);
        }
        if tag == 'T' {
            match parse_clock_millis(rest) {
                Option::Some(ms) => {
                    self.game_state.game_clock = ms;
                    proof {
                        assert(clause_step(pre, clause@) matches ClauseOutcome::Next(v) && self@
                            =~~= v);
                    }
                    Result::Ok(true)
                },
                Option::None => Result::Err(SessionError::BadPayload),
            }
        } else if tag == 'P' {
            match parse_i32(rest) {
                Option::Some(seat) => {
                    if seat == 0 || seat == 1 {
                        self.active = seat as usize;
                        proof {
                            assert(clause_step(pre, clause@) matches ClauseOutcome::Next(v) && self@
                                =~~= v);
                        }
                        Result::Ok(true)
                    } else {
                        Result::Err(SessionError::BadSeat)
                    }
                },
                Option::None => Result::Err(SessionError::BadPayload),
            }
        } else if tag == 'H' {
            let cards = split_char(rest, ',');
            let hands: [Vec<String>; 2] = if self.active == 0 {
                [cards, Vec::new()]
            } else {
                [Vec::new(), cards]
            };
            let rs = RoundState {
                button: 0,
                street: 0,
                pips: [SMALL_BLIND, BIG_BLIND],
                stacks: [STARTING_STACK - SMALL_BLIND, STARTING_STACK - BIG_BLIND],
                hands,
                bounties: ["-1".to_owned(), "-1".to_owned()],
                deck: Vec::new(),
                previous_state: Option::None,
            };
            proof {
                assert(rs@ =~~= round_start(dealt_hands(pre.active, split_spec(p, ',')), "-1"@));
            }
            self.round_state = Option::Some(rs);
            self.revealed_state = Option::None;
            self.pending_deltas = [0, 0];
            proof {
                assert(clause_step(pre, clause@) matches ClauseOutcome::Next(v) && self@ =~~= v);
            }
            Result::Ok(true)
        } else if tag == 'G' {
            let cur = self.round_state.take();
            match cur {
                Option::None => {
                    proof {
                        assert(self@ =~= pre);
                    }
                    Result::Ok(true)
                },
                Option::Some(rs) => {
                    let bounties: [String; 2] = if self.active == 0 {
                        [rest.to_owned(), rs.bounties[1].clone()]
                    } else {
                        [rs.bounties[0].clone(), rest.to_owned()]
                    };
                    let rs2 = RoundState {
                        button: rs.button,
                        street: rs.street,
                        pips: rs.pips,
                        stacks: rs.stacks,
                        hands: rs.hands,
                        bounties,
                        deck: rs.deck,
                        previous_state: rs.previous_state,
                    };
                    if self.round_flag {
                        self.pokerbot.handle_new_round(&self.game_state, &rs2, self.active);
                    }
                    self.round_flag = false;
                    self.round_state = Option::Some(rs2);
                    proof {
                        assert(clause_step(pre, clause@) matches ClauseOutcome::Next(v) && self@
                            =~~= v);
                    }
                    Result::Ok(true)
                },
            }
        } else if tag == 'F' {
            self.apply_engine_action(PokerMove::Fold)
        } else if tag == 'C' {
            self.apply_engine_action(PokerMove::Call)
        } else if tag == 'K' {
            self.apply_engine_action(PokerMove::Check)
        } else if tag == 'R' {
            if self.round_state.is_none() {
                proof {
                    assert(self@ =~= pre);
                }
                return Result::Ok(true);
            }
            match parse_i32(rest) {
                Option::Some(amount) => self.apply_engine_action(PokerMove::Raise(amount)),
                Option::None => Result::Err(SessionError::BadPayload),
            }
        } else if tag == 'B' {
            let cur = self.round_state.take();
            match cur {
                Option::None => {
                    proof {
                        assert(self@ =~= pre);
                    }
                    Result::Ok(true)
                },
                Option::Some(rs) => {
                    let rs2 = RoundState {
                        button: rs.button,
                        street: rs.street,
                        pips: rs.pips,
                        stacks: rs.stacks,
                        hands: rs.hands,
                        bounties: rs.bounties,
                        deck: split_char(rest, ','),
                        previous_state: rs.previous_state,
                    };
                    self.round_state = Option::Some(rs2);
                    proof {
                        assert(clause_step(pre, clause@) matches ClauseOutcome::Next(v) && self@
                            =~~= v);
                    }
                    Result::Ok(true)
                },
            }
        } else if tag == 'O' {
            match &self.round_state {
                Option::None => {
                    proof {
                        assert(self@ =~= pre);
                    }
                    Result::Ok(true)
                },
                Option::Some(rs) => {
                    match &rs.previous_state {
                        Option::None => {
                            proof {
                                assert(self@ =~= pre);
                            }
                            Result::Ok(true)
                        },
                        Option::Some(prev) => {
                            let cards = split_char(rest, ',');
                            let shown: &RoundState = &**prev;
                            let hands: [Vec<String>; 2] = if self.active == 0 {
                                [shown.hands[0].clone(), cards]
                            } else {
                                [cards, shown.hands[1].clone()]
                            };
                            let revealed = RoundState {
                                button: shown.button,
                                street: shown.street,
                                pips: shown.pips,
                                stacks: shown.stacks,
                                hands,
                                bounties: [shown.bounties[0].clone(), shown.bounties[1].clone()],
                                deck: shown.deck.clone(),
                                previous_state: Option::None,
                            };
                            self.revealed_state = Option::Some(revealed);
                            proof {
                                assert(clause_step(pre, clause@) matches ClauseOutcome::Next(v)
                                    && self@ =~~= v);
                            }
                            Result::Ok(true)
                        },
                    }
                },
            }
        } else if tag == 'D' {
            if self.round_state.is_none() {
                proof {
                    assert(self@ =~= pre);
                }
                return Result::Ok(true);
            }
            match parse_i32(rest) {
                Option::Some(delta) => {
                    if delta == i32::MIN {
                        return Result::Err(SessionError::CounterOverflow);
                    }
                    let b = self.game_state.bankroll;
                    if (delta > 0 && b > i32::MAX - delta) || (delta < 0 && b < i32::MIN - delta) {
                        return Result::Err(SessionError::CounterOverflow);
                    }
                    self.game_state.bankroll = b + delta;
                    self.pending_deltas = if self.active == 0 {
                        [delta, -delta]
                    } else {
                        [-delta, delta]
                    };
                    proof {
                        assert(clause_step(pre, clause@) matches ClauseOutcome::Next(v) && self@
                            =~~= v);
                    }
                    Result::Ok(true)
                },
                Option::None => Result::Err(SessionError::BadPayload),
            }
        } else if tag == 'Y' {
            let cur = self.round_state.take();
            match cur {
                Option::None => {
                    proof {
                        assert(self@ =~= pre);
                    }
                    Result::Ok(true)
                },
                Option::Some(rs) => {
                    if self.game_state.round_num == i32::MAX {
                        self.round_state = Option::Some(rs);
                        return Result::Err(SessionError::CounterOverflow);
                    }
                    let m = rest.unicode_len();
                    let hero_hit = m > 0 && rest.get_char(0) == '1';
                    let opponent_hit = m > 1 && rest.get_char(1) == '1';
                    let hits: [bool; 2] = if self.active == 1 {
                        [opponent_hit, hero_hit]
                    } else {
                        [hero_hit, opponent_hit]
                    };
                    let settled: Box<RoundState> = match self.revealed_state.take() {
                        Option::Some(shown) => Box::new(shown),
                        Option::None => Box::new(rs.clone()),
                    };
                    let terminal = TerminalState {
                        deltas: self.pending_deltas,
                        bounty_hits: Option::Some(hits),
                        previous_state: settled,
                    };
                    self.pokerbot.handle_round_over(&self.game_state, &terminal, self.active);
                    self.game_state.round_num = self.game_state.round_num + 1;
                    self.round_flag = true;
                    self.round_state = Option::Some(rs);
                    proof {
                        assert(clause_step(pre, clause@) matches ClauseOutcome::Next(v) && self@
                            =~~= v);
                    }
                    Result::Ok(true)
                },
            }
        } else if tag == 'Q' {
            Result::Ok(false)
        } else {
            proof {
                assert(self@ =~= pre);
            }
            Result::Ok(true)
        }
    }

    /// Consume one engine line: fold its clauses, then produce the line's
    /// reply — an auto-check before the round's first decision, the
    /// strategy's move at a decision point, silence with no live round,
    /// or the quit signal.
    pub fn process_line(&mut self, line: &str) -> (r: Result<LineOutcome, SessionError>)
        requires
            old(self).inv(),
        ensures
            final(self).inv(),
            line_contract(old(self)@, line@, r, final(self)@),
    {
        let ghost pre = self@;
        let ghost cs = split_spec(line@, ' ');
        let clauses = split_char(line, ' ');
        let mut idx: usize = 0;
        proof {
            assert(cs.skip(0) =~= cs);
        }
        while idx < clauses.len()
            invariant
                self.inv(),
                idx <= clauses.len(),
                pre == old(self)@,
                cs == split_spec(line@, ' '),
                clauses.deep_view() == cs,
                clauses_step(pre, cs) == clauses_step(self@, cs.skip(idx as int)),
            decreases clauses.len() - idx,
        {
            let ghost before = self@;
            let flow = self.handle_clause(clauses[idx].as_str());
            proof {
                assert(clauses@[idx as int]@ == cs[idx as int]);
                assert(cs.skip(idx as int)[0] == cs[idx as int]);
                assert(cs.skip(idx as int).drop_first() =~= cs.skip(idx as int + 1));
            }
            match flow {
                Result::Err(e) => {
                    proof {
                        assert(clause_step(before, cs[idx as int]) == ClauseOutcome::Fail(e));
                        assert(clauses_step(before, cs.skip(idx as int))
                            == ClauseOutcome::Fail(e));
                    }
                    return Result::Err(e);
                },
                Result::Ok(false) => {
                    proof {
                        assert(clause_step(before, cs[idx as int]) == ClauseOutcome::Stop);
                        assert(clauses_step(before, cs.skip(idx as int)) == ClauseOutcome::Stop);
                    }
                    return Result::Ok(LineOutcome::Quit);
                },
                Result::Ok(true) => {
                    idx += 1;
                },
            }
        }
        proof {
            assert(cs.skip(clauses.len() as int) =~= Seq::<Seq<char>>::empty());
        }
        let ghost v = self@;
        if self.round_flag {
            let code = PokerMove::Check.code();
            return Result::Ok(LineOutcome::Reply(code));
        }
        let cur = self.round_state.take();
        match cur {
            Option::None => {
                proof {
                    assert(self@ =~= v);
                }
                Result::Ok(LineOutcome::Silent)
            },
            Option::Some(rs) => {
                let seat = (rs.button % 2) as usize;
                if self.active != seat {
                    self.round_state = Option::Some(rs);
                    return Result::Err(SessionError::TurnMismatch);
                }
                let action = self.pokerbot.get_action(&self.game_state, &rs, self.active);
                if !rs.move_is_legal(action) {
                    self.round_state = Option::Some(rs);
                    return Result::Err(SessionError::IllegalAction);
                }
                let stepped = rs.proceed(action);
                let code = action.code();
                match stepped {
                    Result::Ok(ns) => {
                        self.round_state = Option::Some(ns);
                    },
                    Result::Err(_t) => {
                        self.round_state = Option::Some(rs);
                    },
                }
                proof {
                    let rv = v.round->0;
                    assert(clauses_step(pre, split_spec(line@, ' ')) == ClauseOutcome::Next(v));
                    assert(decision_matches(v, rv, action, code@, self@)) by {
                        match rv.spec_proceed(action) {
                            Step::Goes(n) => {
                                assert(self@ =~= SessionView {
                                    round: Option::Some(n),
                                    round_prev: Option::Some(rv.prev_after(action)),
                                    ..v
                                });
                            },
                            Step::Ends(_) => {
                                assert(self@ =~= v);
                            },
                        }
                    }
                    assert(reply_matches(v, rv, code@, self@));
                }
                Result::Ok(LineOutcome::Reply(code))
            },
        }
    }
}

} // verus!
