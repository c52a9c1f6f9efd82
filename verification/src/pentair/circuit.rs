//! The circuits that can be switched, and their numbers on the bus.
use vstd::prelude::*;

verus! {

#[derive(Clone, Copy, Debug, PartialEq, Eq, Structural)]
pub enum Circuit {
    Spa,
    Aux1,
    Aux2,
    Aux3,
    Feature1,
    Pool,
    Feature2,
    Feature3,
    Feature4,
    HeatBoost,
}

impl Circuit {
    /// The number of the circuit on the bus.
    pub open spec fn code(self) -> u8 {
        match self {
            Circuit::Spa => 0x01,
            Circuit::Aux1 => 0x02,
            Circuit::Aux2 => 0x03,
            Circuit::Aux3 => 0x04,
            Circuit::Feature1 => 0x05,
            Circuit::Pool => 0x06,
            Circuit::Feature2 => 0x07,
            Circuit::Feature3 => 0x08,
            Circuit::Feature4 => 0x09,
            Circuit::HeatBoost => 0x85,
        }
    }

    /// The circuit that has the number `code`, if there is one.
    pub open spec fn with_code(code: u8) -> Option<Circuit> {
        if code == 0x01 {
            Some(Circuit::Spa)
        } else if code == 0x02 {
            Some(Circuit::Aux1)
        } else if code == 0x03 {
            Some(Circuit::Aux2)
        } else if code == 0x04 {
            Some(Circuit::Aux3)
        } else if code == 0x05 {
            Some(Circuit::Feature1)
        } else if code == 0x06 {
            Some(Circuit::Pool)
        } else if code == 0x07 {
            Some(Circuit::Feature2)
        } else if code == 0x08 {
            Some(Circuit::Feature3)
        } else if code == 0x09 {
            Some(Circuit::Feature4)
        } else if code == 0x85 {
            Some(Circuit::HeatBoost)
        } else {
            None
        }
    }

    /// The circuit with the number `val`.
    pub fn from_u8(val: u8) -> (circuit: Option<Self>)
        ensures
            circuit == Circuit::with_code(val),
    {
        match val {
            0x01 => Some(Circuit::Spa),
            0x02 => Some(Circuit::Aux1),
            0x03 => Some(Circuit::Aux2),
            0x04 => Some(Circuit::Aux3),
            0x05 => Some(Circuit::Feature1),
            0x06 => Some(Circuit::Pool),
            0x07 => Some(Circuit::Feature2),
            0x08 => Some(Circuit::Feature3),
            0x09 => Some(Circuit::Feature4),
            0x85 => Some(Circuit::HeatBoost),
            _ => None,
        }
    }

    /// The number of the circuit. (A cast would give the position of the variant instead.)
    pub fn to_u8(self) -> (val: u8)
        ensures
            val == self.code(),
    {
        match self {
            Circuit::Spa => 0x01,
            Circuit::Aux1 => 0x02,
            Circuit::Aux2 => 0x03,
            Circuit::Aux3 => 0x04,
            Circuit::Feature1 => 0x05,
            Circuit::Pool => 0x06,
            Circuit::Feature2 => 0x07,
            Circuit::Feature3 => 0x08,
            Circuit::Feature4 => 0x09,
            Circuit::HeatBoost => 0x85,
        }
    }
}

/// A circuit is found again under its own number.
pub proof fn law_circuit_is_found_by_its_code(circuit: Circuit)
    ensures
        Circuit::with_code(circuit.code()) == Some(circuit),
{
}

/// A number names at most one circuit, and that circuit has that number.
pub proof fn law_code_names_one_circuit(code: u8)
    ensures
        Circuit::with_code(code) matches Some(circuit) ==> circuit.code() == code,
        Circuit::with_code(code) is None ==> forall|circuit: Circuit|
            #[trigger] circuit.code() != code,
{
}

/// The numbers that the controller knows its circuits by. The pool is the sixth, between the
/// features, and the heat boost stands apart.
pub proof fn law_numbers_of_the_circuits(code: u8)
    ensures
        Circuit::with_code(code) == Some(Circuit::Spa) <==> code == 1,
        Circuit::with_code(code) == Some(Circuit::Aux1) <==> code == 2,
        Circuit::with_code(code) == Some(Circuit::Aux2) <==> code == 3,
        Circuit::with_code(code) == Some(Circuit::Aux3) <==> code == 4,
        Circuit::with_code(code) == Some(Circuit::Feature1) <==> code == 5,
        Circuit::with_code(code) == Some(Circuit::Pool) <==> code == 6,
        Circuit::with_code(code) == Some(Circuit::Feature2) <==> code == 7,
        Circuit::with_code(code) == Some(Circuit::Feature3) <==> code == 8,
        Circuit::with_code(code) == Some(Circuit::Feature4) <==> code == 9,
        Circuit::with_code(code) == Some(Circuit::HeatBoost) <==> code == 133,
        Circuit::with_code(code) is None <==> code == 0 || (10 <= code && code != 133),
{
}

} // verus!
