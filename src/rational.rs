//! The TIFF rational types: a numerator and a denominator, and their text.
use vstd::prelude::*;
use vstd::string::StringExecFns;

verus! {

/// A signed rational number as TIFF stores it. A zero denominator marks an
/// unknown value.
#[derive(Copy, Clone, Debug, PartialEq, Eq, Structural)]
pub struct IRational {
    pub numerator: i32,
    pub denominator: i32,
}

/// An unsigned rational number as TIFF stores it. A zero denominator marks an
/// unknown value.
#[derive(Copy, Clone, Debug, PartialEq, Eq, Structural)]
pub struct URational {
    pub numerator: u32,
    pub denominator: u32,
}

/// The character of a decimal digit.
pub open spec fn digit_char(d: nat) -> char {
    if d == 0 {
        '0'
    } else if d == 1 {
        '1'
    } else if d == 2 {
        '2'
    } else if d == 3 {
        '3'
    } else if d == 4 {
        '4'
    } else if d == 5 {
        '5'
    } else if d == 6 {
        '6'
    } else if d == 7 {
        '7'
    } else if d == 8 {
        '8'
    } else {
        '9'
    }
}

/// The decimal digits of `n`, most significant first.
pub open spec fn decimal(n: nat) -> Seq<char>
    decreases n,
{
    if n < 10 {
        seq![digit_char(n)]
    } else {
        decimal(n / 10) + seq![digit_char(n % 10)]
    }
}

/// The decimal text of `n`, with a minus sign when it is negative.
pub open spec fn signed_decimal(n: int) -> Seq<char> {
    if n < 0 {
        seq!['-'] + decimal((-n) as nat)
    } else {
        decimal(n as nat)
    }
}

fn digit_text(d: u64) -> (r: &'static str)
    requires
        d < 10,
    ensures
        r@ == seq![digit_char(d as nat)],
{
    if d == 0 {
        proof {
            reveal_strlit("0");
        }
        "0"
    } else if d == 1 {
        proof {
            reveal_strlit("1");
        }
        "1"
    } else if d == 2 {
        proof {
            reveal_strlit("2");
        }
        "2"
    } else if d == 3 {
        proof {
            reveal_strlit("3");
        }
        "3"
    } else if d == 4 {
        proof {
            reveal_strlit("4");
        }
        "4"
    } else if d == 5 {
        proof {
            reveal_strlit("5");
        }
        "5"
    } else if d == 6 {
        proof {
            reveal_strlit("6");
        }
        "6"
    } else if d == 7 {
        proof {
            reveal_strlit("7");
        }
        "7"
    } else if d == 8 {
        proof {
            reveal_strlit("8");
        }
        "8"
    } else {
        proof {
            reveal_strlit("9");
        }
        "9"
    }
}

/// The decimal text of `n`.
pub fn decimal_text(n: u64) -> (r: String)
    ensures
        r@ == decimal(n as nat),
    decreases n,
{
    if n < 10 {
        digit_text(n).to_owned()
    } else {
        let mut s = decimal_text(n / 10);
        s.append(digit_text(n % 10));
        s
    }
}

/// The decimal text of `n`, with a minus sign when it is negative.
pub fn signed_decimal_text(n: i64) -> (r: String)
    requires
        n > i64::MIN,
    ensures
        r@ == signed_decimal(n as int),
{
    if n < 0 {
        let mut s = "-".to_owned();
        proof {
            reveal_strlit("-");
        }
        let digits = decimal_text((-n) as u64);
        s.append(digits.as_str());
        s
    } else {
        decimal_text(n as u64)
    }
}

impl URational {
    /// The text `numerator/denominator`.
    pub fn text(&self) -> (r: String)
        ensures
            r@ == decimal(self.numerator as nat) + seq!['/'] + decimal(self.denominator as nat),
    {
        let mut s = decimal_text(self.numerator as u64);
        proof {
            reveal_strlit("/");
        }
        s.append("/");
        let d = decimal_text(self.denominator as u64);
        s.append(d.as_str());
        s
    }
}

impl IRational {
    /// The text `numerator/denominator`, each with a minus sign when it is
    /// negative.
    pub fn text(&self) -> (r: String)
        ensures
            r@ == signed_decimal(self.numerator as int) + seq!['/'] + signed_decimal(
                self.denominator as int,
            ),
    {
        let mut s = signed_decimal_text(self.numerator as i64);
        proof {
            reveal_strlit("/");
        }
        s.append("/");
        let d = signed_decimal_text(self.denominator as i64);
        s.append(d.as_str());
        s
    }
}

} // verus!
