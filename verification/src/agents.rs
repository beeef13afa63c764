//! The agents of the simulation, the trips they are on, and how the info
//! panel names them.

use vstd::prelude::*;
use vstd::string::StringExecFns;
use crate::info::{all_digits, decimal_value, digit_value, is_digit, spec_parse_usize, unsigned_part};

verus! {

#[derive(Clone, Copy, Debug, PartialEq, Eq, Structural)]
pub enum VehicleType {
    Car,
    Bike,
    Bus,
}

#[derive(Clone, Copy, Debug, PartialEq, Eq, Structural)]
pub struct CarID(pub usize, pub VehicleType);

#[derive(Clone, Copy, Debug, PartialEq, Eq, Structural)]
pub struct PedestrianID(pub usize);

#[derive(Clone, Copy, Debug, PartialEq, Eq, Structural)]
pub struct TripID(pub usize);

#[derive(Clone, Copy, Debug, PartialEq, Eq, Structural)]
pub struct PersonID(pub usize);

#[derive(Clone, Copy, Debug, PartialEq, Eq, Structural)]
pub struct BuildingID(pub usize);

#[derive(Clone, Copy, Debug, PartialEq, Eq, Structural)]
pub enum AgentID {
    Car(CarID),
    Pedestrian(PedestrianID),
}

/// How somebody travels.
#[derive(Clone, Copy, Debug, PartialEq, Eq, Structural)]
pub enum TripMode {
    Walk,
    Bike,
    Transit,
    Drive,
}

/// The digit that writes `d`.
pub open spec fn digit_char(d: int) -> char {
    if d == 0 {
        '0'
    } else if d == 1 {
        '1'
    } else if d == 2 {
        '2'
    } else if d == 3 {
        '3'
    } else if d == 4 {
        '4'
    } else if d == 5 {
        '5'
    } else if d == 6 {
        '6'
    } else if d == 7 {
        '7'
    } else if d == 8 {
        '8'
    } else {
        '9'
    }
}

/// `n` written in base ten: no sign, and no zero in front but for zero
/// itself.
pub open spec fn decimal_text(n: nat) -> Seq<char>
    decreases n,
{
    if n < 10 {
        seq![digit_char(n as int)]
    } else {
        decimal_text(n / 10).push(digit_char((n % 10) as int))
    }
}

/// The name of an agent: what it is, and its number.
pub open spec fn spec_agent_name(a: AgentID) -> Seq<char> {
    match a {
        AgentID::Car(c) => match c.1 {
            VehicleType::Car => "Car #"@ + decimal_text(c.0 as nat),
            VehicleType::Bike => "Bike #"@ + decimal_text(c.0 as nat),
            VehicleType::Bus => "Bus #"@ + decimal_text(c.0 as nat),
        },
        AgentID::Pedestrian(p) => "Pedestrian #"@ + decimal_text(p.0 as nat),
    }
}

/// The name of the color in which agents of a mode are drawn when zoomed
/// out.
pub open spec fn spec_color_for_mode(m: TripMode) -> Seq<char> {
    match m {
        TripMode::Walk => "unzoomed pedestrian"@,
        TripMode::Bike => "unzoomed bike"@,
        TripMode::Transit => "unzoomed bus"@,
        TripMode::Drive => "unzoomed car"@,
    }
}

/// A number written out reads back as itself.
pub proof fn lemma_decimal_text_reads_back(n: nat)
    requires
        n <= usize::MAX,
    ensures
        spec_parse_usize(decimal_text(n)) == Some(n as usize),
{
    lemma_decimal_text(n);
    let text = decimal_text(n);
    assert(is_digit(text[0]));
    assert(unsigned_part(text) == text);
}

/// A number written out is made of digits, at least one, whose value is the
/// number.
pub proof fn lemma_decimal_text(n: nat)
    ensures
        decimal_text(n).len() >= 1,
        all_digits(decimal_text(n)),
        decimal_value(decimal_text(n)) == n,
    decreases n,
{
    if n < 10 {
        let text = decimal_text(n);
        assert(text.drop_last().len() == 0);
        assert(digit_value(text.last()) == n);
        assert(decimal_value(text.drop_last()) == 0);
    } else {
        lemma_decimal_text(n / 10);
        let front = decimal_text(n / 10);
        let text = decimal_text(n);
        assert(text.drop_last() =~= front);
        assert(digit_value(text.last()) == n % 10);
        assert forall|i: int| 0 <= i < text.len() implies is_digit(#[trigger] text[i]) by {
            if i < front.len() {
                assert(text[i] == front[i]);
            }
        }
    }
}

/// The digit that writes `d`, as a text.
fn digit_text(d: usize) -> (text: &'static str)
    requires
        d < 10,
    ensures
        text@ == seq![digit_char(d as int)],
{
    proof {
        reveal_strlit("0");
        reveal_strlit("1");
        reveal_strlit("2");
        reveal_strlit("3");
        reveal_strlit("4");
        reveal_strlit("5");
        reveal_strlit("6");
        reveal_strlit("7");
        reveal_strlit("8");
        reveal_strlit("9");
    }
    let text = if d == 0 {
        "0"
    } else if d == 1 {
        "1"
    } else if d == 2 {
        "2"
    } else if d == 3 {
        "3"
    } else if d == 4 {
        "4"
    } else if d == 5 {
        "5"
    } else if d == 6 {
        "6"
    } else if d == 7 {
        "7"
    } else if d == 8 {
        "8"
    } else {
        "9"
    };
    assert(text@ =~= seq![digit_char(d as int)]);
    text
}

/// Writes `n` in base ten.
pub fn usize_to_string(n: usize) -> (text: String)
    ensures
        text@ == decimal_text(n as nat),
    decreases n,
{
    if n < 10 {
        String::from_str(digit_text(n))
    } else {
        let mut text: String = usize_to_string(n / 10);
        text.append(digit_text(n % 10));
        proof {
            assert(text@ =~= decimal_text((n / 10) as nat).push(digit_char((n % 10) as int)));
        }
        text
    }
}

/// The name of an agent.
pub fn agent_name(a: AgentID) -> (name: String)
    ensures
        name@ == spec_agent_name(a),
{
    let (kind, number): (&'static str, usize) = match a {
        AgentID::Car(c) => match c.1 {
            VehicleType::Car => ("Car #", c.0),
            VehicleType::Bike => ("Bike #", c.0),
            VehicleType::Bus => ("Bus #", c.0),
        },
        AgentID::Pedestrian(p) => ("Pedestrian #", p.0),
    };
    let mut name: String = String::from_str(kind);
    let digits: String = usize_to_string(number);
    name.append(digits.as_str());
    name
}

/// The name of the color in which agents of a mode are drawn when zoomed
/// out.
pub fn color_for_mode(m: TripMode) -> (name: &'static str)
    ensures
        name@ == spec_color_for_mode(m),
{
    match m {
        TripMode::Walk => "unzoomed pedestrian",
        TripMode::Bike => "unzoomed bike",
        TripMode::Transit => "unzoomed bus",
        TripMode::Drive => "unzoomed car",
    }
}

} // verus!
