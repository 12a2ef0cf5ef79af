use crate::moves::PokerMove;
use crate::{BIG_BLIND, SMALL_BLIND, STARTING_STACK};
use vstd::prelude::*;

verus! {

broadcast use vstd::array::group_array_axioms;

/// Match-level running totals, mutated only by the protocol session and
/// handed to the strategy as an immutable snapshot. `game_clock` is the
/// engine-reported time budget in milliseconds.
#[derive(Debug)]
pub struct GameState {
    pub bankroll: i32,
    pub game_clock: u64,
    pub round_num: i32,
}

/// The betting round at one decision point. `button % 2` is the seat to
/// act; `street` counts board cards (0 preflop, then 3/4/5); `pips` are the
/// chips each seat has committed this street; `stacks` the chips behind;
/// `previous_state` the exclusively owned history chain within the round.
#[derive(Debug)]
pub struct RoundState {
    pub button: i32,
    pub street: i32,
    pub pips: [i32; 2],
    pub stacks: [i32; 2],
    pub hands: [Vec<String>; 2],
    pub bounties: [String; 2],
    pub deck: Vec<String>,
    pub previous_state: Option<Box<RoundState>>,
}

/// Settlement record of one round: signed chip change per seat (zero-sum),
/// optional per-seat bounty-hit flags, and the final round state it settles.
#[derive(Debug)]
pub struct TerminalState {
    pub deltas: [i32; 2],
    pub bounty_hits: Option<[bool; 2]>,
    pub previous_state: Box<RoundState>,
}

/// Mathematical model of a `RoundState`, without its history link.
#[verifier::ext_equal]
pub ghost struct RoundView {
    pub button: int,
    pub street: int,
    pub pips: Seq<int>,
    pub stacks: Seq<int>,
    pub hands: Seq<Seq<Seq<char>>>,
    pub bounties: Seq<Seq<char>>,
    pub deck: Seq<Seq<char>>,
}

/// Mathematical model of a `TerminalState`.
#[verifier::ext_equal]
pub ghost struct TerminalView {
    pub deltas: Seq<int>,
    pub bounty_hits: Option<Seq<bool>>,
    pub prev: RoundView,
}

/// Outcome of one transition: the round goes on, or settles.
#[verifier::ext_equal]
pub ghost enum Step {
    Goes(RoundView),
    Ends(TerminalView),
}

impl View for RoundState {
    type V = RoundView;

    open spec fn view(&self) -> RoundView {
        RoundView {
            button: self.button as int,
            street: self.street as int,
            pips: seq![self.pips@[0] as int, self.pips@[1] as int],
            stacks: seq![self.stacks@[0] as int, self.stacks@[1] as int],
            hands: seq![self.hands@[0].deep_view(), self.hands@[1].deep_view()],
            bounties: seq![self.bounties@[0]@, self.bounties@[1]@],
            deck: self.deck.deep_view(),
        }
    }
}

impl View for TerminalState {
    type V = TerminalView;

    open spec fn view(&self) -> TerminalView {
        TerminalView {
            deltas: seq![self.deltas@[0] as int, self.deltas@[1] as int],
            bounty_hits: match self.bounty_hits {
                Option::None => Option::None,
                Option::Some(b) => Option::Some(seq![b@[0], b@[1]]),
            },
            prev: (*self.previous_state)@,
        }
    }
}

/// The model of the state one step back in the history chain, if any.
pub open spec fn round_prev(rs: RoundState) -> Option<RoundView> {
    match rs.previous_state {
        Option::None => Option::None,
        Option::Some(b) => Option::Some((*b)@),
    }
}

/// The first character of a bounty marker, `'-'` when it is empty
/// (matching the unassigned marker `"-1"` starting with `'-'`).
pub open spec fn bounty_char(b: Seq<char>) -> char {
    if b.len() > 0 {
        b[0]
    } else {
        '-'
    }
}

/// Whether any card in `cards` has rank character `b` (card text begins
/// with its rank).
pub open spec fn cards_hit(cards: Seq<Seq<char>>, b: char) -> bool {
    exists|i: int| 0 <= i < cards.len() && cards[i].len() > 0 && cards[i][0] == b
}

impl RoundView {
    /// The seat to act.
    pub open spec fn active_seat(self) -> int {
        self.button % 2
    }

    /// The seat waiting.
    pub open spec fn opponent(self) -> int {
        1 - self.button % 2
    }

    /// Chips the active seat must add to match the opponent's pip.
    pub open spec fn continue_cost(self) -> int {
        self.pips[self.opponent()] - self.pips[self.active_seat()]
    }

    /// Well-formedness of a reachable round state: two seats with
    /// non-negative pips and stacks, both seats holding the same total of
    /// committed and remaining chips (conservation; the total shrinks only
    /// when matched pips move to the pot at a street close), a valid
    /// street, a bounded turn counter, and the seat to act never ahead of
    /// the opponent's pip.
    pub open spec fn wf(self) -> bool {
        &&& self.pips.len() == 2
        &&& self.stacks.len() == 2
        &&& self.hands.len() == 2
        &&& self.bounties.len() == 2
        &&& self.street == 0 || self.street == 3 || self.street == 4 || self.street == 5
        &&& 0 <= self.pips[0]
        &&& 0 <= self.pips[1]
        &&& 0 <= self.stacks[0]
        &&& 0 <= self.stacks[1]
        &&& self.pips[0] + self.stacks[0] == self.pips[1] + self.stacks[1]
        &&& self.pips[0] + self.stacks[0] <= STARTING_STACK as int
        &&& 0 <= self.button <= 2 + self.pips[0] + self.pips[1]
        &&& self.continue_cost() >= 0
    }

    /// Whether seat `s`'s bounty rank appears among its hole cards or the
    /// board.
    pub open spec fn seat_bounty_hit(self, s: int) -> bool {
        cards_hit(self.hands[s] + self.deck, bounty_char(self.bounties[s]))
    }

    /// Check closes the street when the big blind has already acted
    /// preflop, or when both seats have acted on a later street.
    pub open spec fn check_closes(self) -> bool {
        (self.street == 0 && self.button > 0) || self.button > 1
    }

    /// Check is legal when nothing is owed.
    pub open spec fn check_legal(self) -> bool {
        self.continue_cost() == 0
    }

    /// Call is legal when something is owed.
    pub open spec fn call_legal(self) -> bool {
        self.continue_cost() != 0
    }

    /// Raise is legal unless an all-in already capped the street.
    pub open spec fn raise_legal(self) -> bool {
        if self.continue_cost() == 0 {
            self.stacks[0] != 0 && self.stacks[1] != 0
        } else {
            self.continue_cost() != self.stacks[self.active_seat()] && self.stacks[self.opponent()]
                != 0
        }
    }

    /// The most the active seat can still contribute this street: its own
    /// stack, or enough to cover the opponent's all-in.
    pub open spec fn max_contribution(self) -> int {
        vstd::math::min(
            self.stacks[self.active_seat()],
            self.stacks[self.opponent()] + self.continue_cost(),
        )
    }

    /// The least contribution of a legal raise: match the owed chips and
    /// raise by at least the bigger of the owed chips and the big blind,
    /// capped by the maximum contribution.
    pub open spec fn min_contribution(self) -> int {
        vstd::math::min(
            self.max_contribution(),
            self.continue_cost() + vstd::math::max(self.continue_cost(), BIG_BLIND as int),
        )
    }

    /// Least absolute pip target of a legal raise.
    pub open spec fn min_target(self) -> int {
        self.pips[self.active_seat()] + self.min_contribution()
    }

    /// Greatest absolute pip target of a legal raise.
    pub open spec fn max_target(self) -> int {
        self.pips[self.active_seat()] + self.max_contribution()
    }

    /// Whether a move may be handed to `proceed`: it is in the legal set,
    /// and a raise target lies within the raise bounds.
    pub open spec fn move_legal(self, m: PokerMove) -> bool {
        match m {
            PokerMove::Fold => true,
            PokerMove::Call => self.call_legal(),
            PokerMove::Check => self.check_legal(),
            PokerMove::Raise(a) => self.raise_legal() && self.min_target() <= a as int
                <= self.max_target(),
        }
    }

    /// The legal actions, in the order the engine enumerates them; the
    /// raise placeholder carries target 0.
    pub open spec fn legal_seq(self) -> Seq<PokerMove> {
        if self.continue_cost() == 0 {
            if self.raise_legal() {
                seq![PokerMove::Check, PokerMove::Fold, PokerMove::Raise(0)]
            } else {
                seq![PokerMove::Check, PokerMove::Fold]
            }
        } else {
            if self.raise_legal() {
                seq![PokerMove::Fold, PokerMove::Call, PokerMove::Raise(0)]
            } else {
                seq![PokerMove::Fold, PokerMove::Call]
            }
        }
    }

    /// The state after the street closes: next street (preflop jumps to
    /// the flop's three cards), button reset, pips cleared.
    pub open spec fn street_advanced(self) -> RoundView {
        RoundView {
            button: 1,
            street: if self.street == 0 {
                3
            } else {
                self.street + 1
            },
            pips: seq![0, 0],
            stacks: self.stacks,
            hands: self.hands,
            bounties: self.bounties,
            deck: self.deck,
        }
    }

    /// Settlement at showdown: zero deltas (the engine supplies the real
    /// payout separately) and no bounty information.
    pub open spec fn showdown_view(self) -> TerminalView {
        TerminalView { deltas: seq![0, 0], bounty_hits: Option::None, prev: self }
    }

    /// Close the street: showdown after the river, otherwise advance.
    pub open spec fn spec_proceed_street(self) -> Step {
        if self.street == 5 {
            Step::Ends(self.showdown_view())
        } else {
            Step::Goes(self.street_advanced())
        }
    }

    /// The small blind calling preflop only matches the big blind; no
    /// street advance.
    pub open spec fn blinds_called(self) -> RoundView {
        RoundView {
            button: 1,
            street: 0,
            pips: seq![BIG_BLIND as int, BIG_BLIND as int],
            stacks: seq![
                STARTING_STACK as int - BIG_BLIND as int,
                STARTING_STACK as int - BIG_BLIND as int,
            ],
            hands: self.hands,
            bounties: self.bounties,
            deck: self.deck,
        }
    }

    /// The active seat matches the opponent's pip.
    pub open spec fn called(self) -> RoundView {
        RoundView {
            button: self.button + 1,
            street: self.street,
            pips: self.pips.update(self.active_seat(), self.pips[self.opponent()]),
            stacks: self.stacks.update(
                self.active_seat(),
                self.stacks[self.active_seat()] - self.continue_cost(),
            ),
            hands: self.hands,
            bounties: self.bounties,
            deck: self.deck,
        }
    }

    /// A check that does not close the street only passes the turn.
    pub open spec fn checked_once(self) -> RoundView {
        RoundView {
            button: self.button + 1,
            street: self.street,
            pips: self.pips,
            stacks: self.stacks,
            hands: self.hands,
            bounties: self.bounties,
            deck: self.deck,
        }
    }

    /// The active seat's pip becomes the raise target.
    pub open spec fn raised(self, amount: int) -> RoundView {
        RoundView {
            button: self.button + 1,
            street: self.street,
            pips: self.pips.update(self.active_seat(), amount),
            stacks: self.stacks.update(
                self.active_seat(),
                self.stacks[self.active_seat()] - (amount - self.pips[self.active_seat()]),
            ),
            hands: self.hands,
            bounties: self.bounties,
            deck: self.deck,
        }
    }

    /// Signed chip change of seat 0 when the active seat folds: what the
    /// folder has lost relative to its starting stack.
    pub open spec fn fold_delta(self) -> int {
        if self.active_seat() == 0 {
            self.stacks[0] - STARTING_STACK as int
        } else {
            STARTING_STACK as int - self.stacks[1]
        }
    }

    /// Settlement when the active seat folds: zero-sum deltas and a
    /// snapshot of the bounty hits.
    pub open spec fn folded(self) -> TerminalView {
        TerminalView {
            deltas: seq![self.fold_delta(), -self.fold_delta()],
            bounty_hits: Option::Some(seq![self.seat_bounty_hit(0), self.seat_bounty_hit(1)]),
            prev: self,
        }
    }

    /// The transition relation of the betting round.
    pub open spec fn spec_proceed(self, m: PokerMove) -> Step {
        match m {
            PokerMove::Fold => Step::Ends(self.folded()),
            PokerMove::Call => if self.button == 0 {
                Step::Goes(self.blinds_called())
            } else {
                self.called().spec_proceed_street()
            },
            PokerMove::Check => if self.check_closes() {
                self.spec_proceed_street()
            } else {
                Step::Goes(self.checked_once())
            },
            PokerMove::Raise(a) => Step::Goes(self.raised(a as int)),
        }
    }

    /// The state one transition leaves behind in the history chain: the
    /// input state, except that a street-closing call first records the
    /// matched pips.
    pub open spec fn prev_after(self, m: PokerMove) -> RoundView {
        if m is Call && self.button != 0 {
            self.called()
        } else {
            self
        }
    }
}

/// The model of `proceed`'s result.
pub open spec fn step_of(r: Result<RoundState, TerminalState>) -> Step {
    match r {
        Result::Ok(ns) => Step::Goes(ns@),
        Result::Err(t) => Step::Ends(t@),
    }
}

/// Whether one card's text begins with rank character `b`.
pub open spec fn card_hits(card: Seq<char>, b: char) -> bool {
    card.len() > 0 && card[0] == b
}

/// A round state owning no history link, for cloning.
fn clone_round(rs: &RoundState) -> (r: RoundState)
    ensures
        r@ == rs@,
        round_prev(r) == round_prev(*rs),
    decreases *rs,
{
    let previous_state: Option<Box<RoundState>> = match &rs.previous_state {
        Option::None => Option::None,
        Option::Some(b) => Option::Some(Box::new(clone_round(&**b))),
    };
    let r = RoundState {
        button: rs.button,
        street: rs.street,
        pips: rs.pips,
        stacks: rs.stacks,
        hands: [rs.hands[0].clone(), rs.hands[1].clone()],
        bounties: [rs.bounties[0].clone(), rs.bounties[1].clone()],
        deck: rs.deck.clone(),
        previous_state,
    };
    proof {
        assert(r@ =~= rs@);
    }
    r
}

impl Clone for RoundState {
    /// A deep copy whose model, and whole history chain of models, equals
    /// the original's.
    fn clone(&self) -> (r: Self)
        ensures
            r@ == self@,
            round_prev(r) == round_prev(*self),
    {
        clone_round(self)
    }
}

impl Clone for TerminalState {
    /// A deep copy with the same model.
    fn clone(&self) -> (r: Self)
        ensures
            r@ == self@,
    {
        let r = TerminalState {
            deltas: self.deltas,
            bounty_hits: self.bounty_hits,
            previous_state: Box::new(clone_round(&*self.previous_state)),
        };
        proof {
            assert(r@ =~= self@);
        }
        r
    }
}

/// The rank character a bounty marker stands for.
fn bounty_rank(b: &String) -> (c: char)
    ensures
        c == bounty_char(b@),
{
    if b.as_str().is_empty() {
        '-'
    } else {
        b.as_str().get_char(0)
    }
}

/// Whether rank `b` appears among the hole cards or the board.
fn cards_contain_rank(hand: &Vec<String>, deck: &Vec<String>, b: char) -> (r: bool)
    ensures
        r == cards_hit(hand.deep_view() + deck.deep_view(), b),
{
    let ghost all = hand.deep_view() + deck.deep_view();
    let mut i: usize = 0;
    while i < hand.len()
        invariant
            0 <= i <= hand.len(),
            all == hand.deep_view() + deck.deep_view(),
            forall|j: int| 0 <= j < i ==> !card_hits(#[trigger] all[j], b),
        decreases hand.len() - i,
    {
        let card = &hand[i];
        if !card.as_str().is_empty() && card.as_str().get_char(0) == b {
            proof {
                assert(card_hits(all[i as int], b));
            }
            return true;
        }
        i += 1;
    }
    let mut k: usize = 0;
    while k < deck.len()
        invariant
            0 <= k <= deck.len(),
            all == hand.deep_view() + deck.deep_view(),
            forall|j: int| 0 <= j < hand.deep_view().len() + k ==> !card_hits(#[trigger] all[j], b),
        decreases deck.len() - k,
    {
        let card = &deck[k];
        if !card.as_str().is_empty() && card.as_str().get_char(0) == b {
            proof {
                assert(card_hits(all[hand.deep_view().len() + k], b));
            }
            return true;
        }
        k += 1;
    }
    false
}

impl RoundState {
    /// Whether each seat's bounty rank appears among its hole cards or the
    /// board.
    pub fn get_bounty_hits(&self) -> (r: [bool; 2])
        requires
            self@.wf(),
        ensures
            r@[0] == self@.seat_bounty_hit(0),
            r@[1] == self@.seat_bounty_hit(1),
    {
        let b0 = bounty_rank(&self.bounties[0]);
        let b1 = bounty_rank(&self.bounties[1]);
        let h0 = cards_contain_rank(&self.hands[0], &self.deck, b0);
        let h1 = cards_contain_rank(&self.hands[1], &self.deck, b1);
        [h0, h1]
    }

    /// Settle at showdown: zero deltas, to be overwritten by the engine's
    /// authoritative payout, and no bounty information.
    pub fn showdown(&self) -> (t: TerminalState)
        ensures
            t@ == self@.showdown_view(),
    {
        let t = TerminalState {
            deltas: [0, 0],
            bounty_hits: Option::None,
            previous_state: Box::new(self.clone()),
        };
        proof {
            assert(t@ =~= self@.showdown_view());
        }
        t
    }

    /// The set of legal moves, as the sequence `legal_seq` of the model;
    /// the raise placeholder carries target 0 and the real target must be
    /// taken from `raise_bounds`.
    pub fn legal_actions(&self) -> (r: Vec<PokerMove>)
        requires
            self@.wf(),
        ensures
            r@ == self@.legal_seq(),
            r@.contains(PokerMove::Fold),
            r@.contains(PokerMove::Check) <==> self@.check_legal(),
            r@.contains(PokerMove::Call) <==> self@.call_legal(),
            r@.contains(PokerMove::Raise(0)) <==> self@.raise_legal(),
    {
        let active = (self.button % 2) as usize;
        let continue_cost = self.pips[1 - active] - self.pips[active];
        let mut actions: Vec<PokerMove> = Vec::new();
        if continue_cost == 0 {
            let bets_forbidden = self.stacks[0] == 0 || self.stacks[1] == 0;
            actions.push(PokerMove::Check);
            actions.push(PokerMove::Fold);
            if !bets_forbidden {
                actions.push(PokerMove::Raise(0));
            }
        } else {
            let raises_forbidden = continue_cost == self.stacks[active] || self.stacks[1 - active]
                == 0;
            actions.push(PokerMove::Fold);
            actions.push(PokerMove::Call);
            if !raises_forbidden {
                actions.push(PokerMove::Raise(0));
            }
        }
        proof {
            assert(actions@ =~= self@.legal_seq());
            lemma_legal_seq_membership(self@);
        }
        actions
    }

    /// Whether `m` may be handed to `proceed` from this state.
    pub fn move_is_legal(&self, m: PokerMove) -> (r: bool)
        requires
            self@.wf(),
        ensures
            r == self@.move_legal(m),
    {
        let active = (self.button % 2) as usize;
        let continue_cost = self.pips[1 - active] - self.pips[active];
        match m {
            PokerMove::Fold => true,
            PokerMove::Call => continue_cost != 0,
            PokerMove::Check => continue_cost == 0,
            PokerMove::Raise(a) => {
                let legal = if continue_cost == 0 {
                    self.stacks[0] != 0 && self.stacks[1] != 0
                } else {
                    continue_cost != self.stacks[active] && self.stacks[1 - active] != 0
                };
                if !legal {
                    false
                } else {
                    let bounds = self.raise_bounds();
                    bounds.0 <= a && a <= bounds.1
                }
            },
        }
    }

    /// Absolute pip targets a raise must lie within, least and greatest.
    pub fn raise_bounds(&self) -> (r: (i32, i32))
        requires
            self@.wf(),
        ensures
            r.0 as int == self@.min_target(),
            r.1 as int == self@.max_target(),
            r.0 <= r.1,
            r.1 as int <= self@.pips[self@.active_seat()] + self@.stacks[self@.active_seat()],
            r.1 as int <= STARTING_STACK as int,
    {
        let active = (self.button % 2) as usize;
        let continue_cost = self.pips[1 - active] - self.pips[active];
        let own = self.stacks[active];
        let other = self.stacks[1 - active] + continue_cost;
        let max_contribution = if own < other {
            own
        } else {
            other
        };
        let raise_floor = continue_cost + (if continue_cost > BIG_BLIND {
            continue_cost
        } else {
            BIG_BLIND
        });
        let min_contribution = if max_contribution < raise_floor {
            max_contribution
        } else {
            raise_floor
        };
        (self.pips[active] + min_contribution, self.pips[active] + max_contribution)
    }

    /// Close the street once both pips are matched: showdown after the
    /// river, otherwise advance to the next street with the button reset
    /// and the matched pips moved to the pot.
    pub fn proceed_street(&self) -> (r: Result<RoundState, TerminalState>)
        requires
            self@.wf(),
            self@.pips[0] == self@.pips[1],
        ensures
            step_of(r) == self@.spec_proceed_street(),
            r matches Ok(ns) ==> ns@.wf() && round_prev(ns) == Option::Some(self@),
    {
        if self.street == 5 {
            return Result::Err(self.showdown());
        }
        let new_street: i32 = if self.street == 0 {
            3
        } else {
            self.street + 1
        };
        let ns = RoundState {
            button: 1,
            street: new_street,
            pips: [0, 0],
            stacks: self.stacks,
            hands: [self.hands[0].clone(), self.hands[1].clone()],
            bounties: [self.bounties[0].clone(), self.bounties[1].clone()],
            deck: self.deck.clone(),
            previous_state: Option::Some(Box::new(self.clone())),
        };
        proof {
            assert(ns@ =~= self@.street_advanced());
        }
        Result::Ok(ns)
    }

    /// Apply one legal move: a new state, or the round's settlement.
    pub fn proceed(&self, action: PokerMove) -> (r: Result<RoundState, TerminalState>)
        requires
            self@.wf(),
            self@.move_legal(action),
        ensures
            step_of(r) == self@.spec_proceed(action),
            r matches Ok(ns) ==> ns@.wf() && round_prev(ns) == Option::Some(
                self@.prev_after(action),
            ),
    {
        proof {
            lemma_proceed_preserves_wf(self@, action);
        }
        let active = (self.button % 2) as usize;
        match action {
            PokerMove::Fold => {
                let delta: i32 = if active == 0 {
                    self.stacks[0] - STARTING_STACK
                } else {
                    STARTING_STACK - self.stacks[1]
                };
                let hits = self.get_bounty_hits();
                let t = TerminalState {
                    deltas: [delta, -delta],
                    bounty_hits: Option::Some(hits),
                    previous_state: Box::new(self.clone()),
                };
                proof {
                    assert(t@ =~= self@.folded());
                }
                Result::Err(t)
            },
            PokerMove::Call => {
                if self.button == 0 {
                    let ns = RoundState {
                        button: 1,
                        street: 0,
                        pips: [BIG_BLIND, BIG_BLIND],
                        stacks: [STARTING_STACK - BIG_BLIND, STARTING_STACK - BIG_BLIND],
                        hands: [self.hands[0].clone(), self.hands[1].clone()],
                        bounties: [self.bounties[0].clone(), self.bounties[1].clone()],
                        deck: self.deck.clone(),
                        previous_state: Option::Some(Box::new(self.clone())),
                    };
                    proof {
                        assert(ns@ =~= self@.blinds_called());
                    }
                    return Result::Ok(ns);
                }
                let contribution = self.pips[1 - active] - self.pips[active];
                let new_pips: [i32; 2] = if active == 0 {
                    [self.pips[0] + contribution, self.pips[1]]
                } else {
                    [self.pips[0], self.pips[1] + contribution]
                };
                let new_stacks: [i32; 2] = if active == 0 {
                    [self.stacks[0] - contribution, self.stacks[1]]
                } else {
                    [self.stacks[0], self.stacks[1] - contribution]
                };
                let state = RoundState {
                    button: self.button + 1,
                    street: self.street,
                    pips: new_pips,
                    stacks: new_stacks,
                    hands: [self.hands[0].clone(), self.hands[1].clone()],
                    bounties: [self.bounties[0].clone(), self.bounties[1].clone()],
                    deck: self.deck.clone(),
                    previous_state: Option::Some(Box::new(self.clone())),
                };
                proof {
                    assert(state@ =~= self@.called());
                }
                state.proceed_street()
            },
            PokerMove::Check => {
                if (self.street == 0 && self.button > 0) || self.button > 1 {
                    return self.proceed_street();
                }
                let ns = RoundState {
                    button: self.button + 1,
                    street: self.street,
                    pips: self.pips,
                    stacks: self.stacks,
                    hands: [self.hands[0].clone(), self.hands[1].clone()],
                    bounties: [self.bounties[0].clone(), self.bounties[1].clone()],
                    deck: self.deck.clone(),
                    previous_state: Option::Some(Box::new(self.clone())),
                };
                proof {
                    assert(ns@ =~= self@.checked_once());
                }
                Result::Ok(ns)
            },
            PokerMove::Raise(amount) => {
                let contribution = amount - self.pips[active];
                let new_pips: [i32; 2] = if active == 0 {
                    [self.pips[0] + contribution, self.pips[1]]
                } else {
                    [self.pips[0], self.pips[1] + contribution]
                };
                let new_stacks: [i32; 2] = if active == 0 {
                    [self.stacks[0] - contribution, self.stacks[1]]
                } else {
                    [self.stacks[0], self.stacks[1] - contribution]
                };
                let ns = RoundState {
                    button: self.button + 1,
                    street: self.street,
                    pips: new_pips,
                    stacks: new_stacks,
                    hands: [self.hands[0].clone(), self.hands[1].clone()],
                    bounties: [self.bounties[0].clone(), self.bounties[1].clone()],
                    deck: self.deck.clone(),
                    previous_state: Option::Some(Box::new(self.clone())),
                };
                proof {
                    assert(ns@ =~= self@.raised(amount as int));
                }
                Result::Ok(ns)
            },
        }
    }
}

/// Fold's placeholder target: membership of each move kind in the legal
/// sequence coincides with its legality predicate.
pub proof fn lemma_legal_seq_membership(v: RoundView)
    ensures
        v.legal_seq().contains(PokerMove::Fold),
        v.legal_seq().contains(PokerMove::Check) <==> v.check_legal(),
        v.legal_seq().contains(PokerMove::Call) <==> v.call_legal(),
        v.legal_seq().contains(PokerMove::Raise(0)) <==> v.raise_legal(),
{
    let s = v.legal_seq();
    if v.continue_cost() == 0 {
        assert(s[0] == PokerMove::Check);
        assert(s[1] == PokerMove::Fold);
        if v.raise_legal() {
            assert(s[2] == PokerMove::Raise(0));
        }
        assert(!s.contains(PokerMove::Call)) by {
            assert(forall|i: int| 0 <= i < s.len() ==> s[i] != PokerMove::Call);
        }
    } else {
        assert(s[0] == PokerMove::Fold);
        assert(s[1] == PokerMove::Call);
        if v.raise_legal() {
            assert(s[2] == PokerMove::Raise(0));
        }
        assert(!s.contains(PokerMove::Check)) by {
            assert(forall|i: int| 0 <= i < s.len() ==> s[i] != PokerMove::Check);
        }
    }
    if !v.raise_legal() {
        assert(!s.contains(PokerMove::Raise(0))) by {
            assert(forall|i: int| 0 <= i < s.len() ==> s[i] != PokerMove::Raise(0));
        }
    }
}

/// Well-formedness is an inductive invariant of the transition relation:
/// any legal move from a well-formed state yields a well-formed state or a
/// zero-sum settlement. This carries chip conservation to every reachable
/// state.
pub proof fn lemma_proceed_preserves_wf(v: RoundView, m: PokerMove)
    requires
        v.wf(),
        v.move_legal(m),
    ensures
        match v.spec_proceed(m) {
            Step::Goes(n) => n.wf(),
            Step::Ends(t) => t.deltas.len() == 2 && t.deltas[0] + t.deltas[1] == 0,
        },
{
    match m {
        PokerMove::Fold => {},
        PokerMove::Call => {
            if v.button != 0 {
                let c = v.called();
                assert(c.wf());
            }
        },
        PokerMove::Check => {},
        PokerMove::Raise(a) => {
            let n = v.raised(a as int);
            assert(v.min_contribution() >= 1);
            assert(n.wf());
        },
    }
}

/// Chip conservation: every transition out of a well-formed state keeps
/// both seats' committed-plus-remaining chip totals equal, and never above
/// the starting stack.
pub proof fn lemma_chip_conservation(v: RoundView, m: PokerMove)
    requires
        v.wf(),
        v.move_legal(m),
    ensures
        v.spec_proceed(m) matches Step::Goes(n) ==> n.pips[0] + n.stacks[0] == n.pips[1]
            + n.stacks[1] && n.pips[0] + n.stacks[0] <= STARTING_STACK as int,
{
    lemma_proceed_preserves_wf(v, m);
}

/// Legal-action correctness for raising: with nothing owed and both
/// stacks alive a raise is legal, and whenever either stack is empty a
/// raise is illegal.
pub proof fn lemma_raise_legality(v: RoundView)
    requires
        v.wf(),
    ensures
        v.continue_cost() == 0 && v.stacks[0] > 0 && v.stacks[1] > 0 ==> v.raise_legal(),
        v.stacks[0] == 0 || v.stacks[1] == 0 ==> !v.raise_legal(),
{
}

/// Raise bounds: the least target never exceeds the greatest, and the
/// greatest never commits more than the active seat holds.
pub proof fn lemma_raise_bounds(v: RoundView)
    requires
        v.wf(),
    ensures
        v.min_target() <= v.max_target(),
        v.max_target() <= v.pips[v.active_seat()] + v.stacks[v.active_seat()],
        v.max_target() <= STARTING_STACK as int,
{
}

/// Fold settlement is zero-sum.
pub proof fn lemma_fold_zero_sum(v: RoundView)
    requires
        v.wf(),
    ensures
        v.spec_proceed(PokerMove::Fold) matches Step::Ends(t) && t.deltas.len() == 2
            && t.deltas[0] + t.deltas[1] == 0,
{
}

/// Street progression: closing a street from 0 visits 3, then 4, then 5,
/// never skipping or regressing, and closing street 5 settles at showdown.
pub proof fn lemma_street_progression(v: RoundView)
    requires
        v.wf(),
        v.pips[0] == v.pips[1],
    ensures
        v.street == 0 ==> (v.spec_proceed_street() matches Step::Goes(n) && n.street == 3
            && n.wf()),
        v.street == 3 ==> (v.spec_proceed_street() matches Step::Goes(n) && n.street == 4
            && n.wf()),
        v.street == 4 ==> (v.spec_proceed_street() matches Step::Goes(n) && n.street == 5
            && n.wf()),
        v.street == 5 ==> (v.spec_proceed_street() matches Step::Ends(t) && t.deltas
            =~= seq![0int, 0int] && t.prev == v),
{
}

/// The dealt state is well-formed, with each seat's committed and
/// remaining chips totalling exactly the starting stack: chip
/// conservation holds from round start on.
pub proof fn lemma_round_start_wf(hands: Seq<Seq<Seq<char>>>, unassigned: Seq<char>)
    requires
        hands.len() == 2,
    ensures
        round_start(hands, unassigned).wf(),
        round_start(hands, unassigned).pips[0] + round_start(hands, unassigned).stacks[0]
            == STARTING_STACK as int,
        round_start(hands, unassigned).pips[1] + round_start(hands, unassigned).stacks[1]
            == STARTING_STACK as int,
{
}

/// The round state dealt at round start: blinds posted, button and street
/// zero, board empty, bounties unassigned.
pub open spec fn round_start(hands: Seq<Seq<Seq<char>>>, unassigned: Seq<char>) -> RoundView {
    RoundView {
        button: 0,
        street: 0,
        pips: seq![SMALL_BLIND as int, BIG_BLIND as int],
        stacks: seq![
            STARTING_STACK as int - SMALL_BLIND as int,
            STARTING_STACK as int - BIG_BLIND as int,
        ],
        hands: hands,
        bounties: seq![unassigned, unassigned],
        deck: seq![],
    }
}

} // verus!
