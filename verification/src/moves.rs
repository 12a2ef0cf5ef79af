use vstd::prelude::*;

verus! {

/// One poker action. `Raise`'s payload is the absolute pip target (total
/// chips committed this street after the raise), not an increment.
#[derive(Clone, Copy, Debug, PartialEq, Eq, Structural)]
pub enum PokerMove {
    Fold,
    Call,
    Check,
    Raise(i32),
}

/// The character for one decimal digit.
pub open spec fn digit_char(d: nat) -> char {
    if d == 0 {
        '0'
    } else if d == 1 {
        '1'
    } else if d == 2 {
        '2'
    } else if d == 3 {
        '3'
    } else if d == 4 {
        '4'
    } else if d == 5 {
        '5'
    } else if d == 6 {
        '6'
    } else if d == 7 {
        '7'
    } else if d == 8 {
        '8'
    } else {
        '9'
    }
}

/// Decimal digit characters of `n`, most significant first, no leading zeros
/// (a single `'0'` for zero).
pub open spec fn dec_digits(n: nat) -> Seq<char>
    decreases n,
{
    if n < 10 {
        seq![digit_char(n)]
    } else {
        dec_digits(n / 10).push(digit_char(n % 10))
    }
}

/// Decimal text of a signed integer: a `'-'` sign when negative, then the
/// digits of its magnitude.
pub open spec fn int_digits(n: int) -> Seq<char> {
    if n < 0 {
        seq!['-'] + dec_digits((-n) as nat)
    } else {
        dec_digits(n as nat)
    }
}

/// The single-character wire code of a move, with the raise target appended
/// in decimal for `Raise`.
pub open spec fn wire_code(m: PokerMove) -> Seq<char> {
    match m {
        PokerMove::Fold => seq!['F'],
        PokerMove::Call => seq!['C'],
        PokerMove::Check => seq!['K'],
        PokerMove::Raise(a) => seq!['R'] + int_digits(a as int),
    }
}

/// Human-readable name of a move, with the raise target in parentheses.
pub open spec fn move_label(m: PokerMove) -> Seq<char> {
    match m {
        PokerMove::Fold => "Fold"@,
        PokerMove::Call => "Call"@,
        PokerMove::Check => "Check"@,
        PokerMove::Raise(a) => "Raise("@ + int_digits(a as int) + ")"@,
    }
}

/// A one-character string slice for the digit `d`.
fn digit_str(d: u64) -> (r: &'static str)
    requires
        d < 10,
    ensures
        r@ == seq![digit_char(d as nat)],
{
    if d == 0 {
        proof {
            reveal_strlit("0");
        }
        "0"
    } else if d == 1 {
        proof {
            reveal_strlit("1");
        }
        "1"
    } else if d == 2 {
        proof {
            reveal_strlit("2");
        }
        "2"
    } else if d == 3 {
        proof {
            reveal_strlit("3");
        }
        "3"
    } else if d == 4 {
        proof {
            reveal_strlit("4");
        }
        "4"
    } else if d == 5 {
        proof {
            reveal_strlit("5");
        }
        "5"
    } else if d == 6 {
        proof {
            reveal_strlit("6");
        }
        "6"
    } else if d == 7 {
        proof {
            reveal_strlit("7");
        }
        "7"
    } else if d == 8 {
        proof {
            reveal_strlit("8");
        }
        "8"
    } else {
        proof {
            reveal_strlit("9");
        }
        "9"
    }
}

/// Decimal text of an unsigned integer.
pub fn digits_string(n: u64) -> (r: String)
    ensures
        r@ == dec_digits(n as nat),
    decreases n,
{
    let d = n % 10;
    if n < 10 {
        let r = digit_str(d).to_owned();
        proof {
            assert(r@ =~= dec_digits(n as nat));
        }
        r
    } else {
        let high = digits_string(n / 10);
        let r = high.concat(digit_str(d));
        proof {
            assert(r@ =~= dec_digits(n as nat));
        }
        r
    }
}

/// Decimal text of a signed integer.
pub fn int_string(n: i32) -> (r: String)
    ensures
        r@ == int_digits(n as int),
{
    let wide: i64 = n as i64;
    if wide < 0 {
        let mag: u64 = (-wide) as u64;
        let minus = {
            proof {
                reveal_strlit("-");
            }
            "-"
        };
        let r = minus.to_owned().concat(digits_string(mag).as_str());
        proof {
            assert(r@ =~= int_digits(n as int));
        }
        r
    } else {
        digits_string(wide as u64)
    }
}

impl PokerMove {
    /// Serialize the move for transmission: `"F"`, `"C"`, `"K"`, or
    /// `"R"` followed by the raise target.
    pub fn code(&self) -> (r: String)
        ensures
            r@ == wire_code(*self),
    {
        match self {
            PokerMove::Fold => {
                proof {
                    reveal_strlit("F");
                }
                let r = "F".to_owned();
                proof {
                    assert(r@ =~= wire_code(*self));
                }
                r
            },
            PokerMove::Call => {
                proof {
                    reveal_strlit("C");
                }
                let r = "C".to_owned();
                proof {
                    assert(r@ =~= wire_code(*self));
                }
                r
            },
            PokerMove::Check => {
                proof {
                    reveal_strlit("K");
                }
                let r = "K".to_owned();
                proof {
                    assert(r@ =~= wire_code(*self));
                }
                r
            },
            PokerMove::Raise(a) => {
                proof {
                    reveal_strlit("R");
                }
                let r = "R".to_owned().concat(int_string(*a).as_str());
                proof {
                    assert(r@ =~= wire_code(*self));
                }
                r
            },
        }
    }

    /// Human-readable name of the move, in place of a `Display` impl.
    pub fn label(&self) -> (r: String)
        ensures
            r@ == move_label(*self),
    {
        match self {
            PokerMove::Fold => "Fold".to_owned(),
            PokerMove::Call => "Call".to_owned(),
            PokerMove::Check => "Check".to_owned(),
            PokerMove::Raise(a) => {
                let r = "Raise(".to_owned().concat(int_string(*a).as_str()).concat(")");
                proof {
                    assert(r@ =~= move_label(*self));
                }
                r
            },
        }
    }
}

} // verus!
