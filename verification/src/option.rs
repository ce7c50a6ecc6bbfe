//! Option contracts: call or put, strike and expiry.

use vstd::prelude::*;
use crate::calendar::{chrono_format, format_date, valid_date, Date};
use crate::money::{abs, digits_text, push_digits, round_half_even, string_from};
use vstd::string::StringExecFns;

verus! {

#[derive(Debug, Clone, Copy, PartialEq, Eq, Structural)]
pub enum OptionType {
    Call,
    Put,
}

pub open spec fn option_type_label(t: OptionType) -> Seq<char> {
    match t {
        OptionType::Call => "Call"@,
        OptionType::Put => "Put"@,
    }
}

impl OptionType {
    pub fn label(&self) -> (r: &'static str)
        ensures
            r@ == option_type_label(*self),
    {
        match self {
            OptionType::Call => "Call",
            OptionType::Put => "Put",
        }
    }
}

/// Parameters describing a single option contract; `strike` in micros.
#[derive(Debug, Clone)]
pub struct OptionSpec {
    pub symbol: String,
    pub option_type: OptionType,
    pub strike: i64,
    pub expiry: Date,
}

/// A strike rounded to whole units, as `{:.0}` prints it (halves to even).
pub open spec fn whole_text(v: int) -> Seq<char> {
    let sign: Seq<char> = if v < 0 { seq!['-'] } else { Seq::empty() };
    sign + digits_text(round_half_even(abs(v) as nat, 1_000_000))
}

/// The contract as the portfolio names it: type, whole-unit strike and
/// expiry, as in "Call $150 17-Jan-25".
pub open spec fn contract_text(s: OptionSpec) -> Seq<char> {
    option_type_label(s.option_type) + " $"@ + whole_text(s.strike as int) + " "@
        + chrono_format(s.expiry, "%d-%b-%y"@)
}

pub fn contract_string(s: &OptionSpec) -> (r: String)
    requires
        valid_date(s.expiry),
    ensures
        r@ == contract_text(*s),
{
    let mut out = String::from_str(s.option_type.label());
    out.append(" $");
    let m: u128 = if s.strike < 0 { (0 - (s.strike as i128)) as u128 } else { s.strike as u128 };
    let q0 = m / 1_000_000;
    let rem = m % 1_000_000;
    let q: u128 = if 2 * rem > 1_000_000 || (2 * rem == 1_000_000 && q0 % 2 == 1) { q0 + 1 } else { q0 };
    let mut digits: Vec<char> = Vec::new();
    if s.strike < 0 {
        digits.push('-');
    }
    let ghost sign = digits@;
    push_digits(&mut digits, q);
    let w = string_from(&digits);
    out.append(w.as_str());
    out.append(" ");
    let d = format_date(s.expiry, "%d-%b-%y");
    out.append(d.as_str());
    proof {
        if s.strike < 0 {
            assert(sign == seq!['-']);
        } else {
            assert(sign == Seq::<char>::empty());
            assert(digits@ == digits_text(q as nat));
        }
        assert(w@ == whole_text(s.strike as int));
    }
    out
}

} // verus!
