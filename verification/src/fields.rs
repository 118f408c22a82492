//! The closed set of columns an entry is addressed by.

use vstd::prelude::*;

verus! {

/// One column of an entry: the name, the two integer counts, the five
/// money inputs, or one of the four derived amounts.
#[derive(Clone, Copy, PartialEq, Eq, Structural, Debug)]
pub enum Fields {
    Name,
    Beds,
    Baths,
    Deposit,
    PetDeposit,
    PetMonthly,
    ParkingMonthly,
    MonthlyRent,
    TotalRent,
    RentFor2,
    RentFor3,
    RentFor4,
}

/// The columns that hold a small integer count.
pub open spec fn is_int_field(f: Fields) -> bool {
    f is Beds || f is Baths
}

/// The columns that hold a money input entered by the user.
pub open spec fn is_money_input_field(f: Fields) -> bool {
    f is Deposit || f is PetDeposit || f is PetMonthly || f is ParkingMonthly || f is MonthlyRent
}

/// The columns whose money value is derived, never set directly.
pub open spec fn is_derived_field(f: Fields) -> bool {
    f is TotalRent || f is RentFor2 || f is RentFor3 || f is RentFor4
}

/// The columns carrying any money amount at all.
pub open spec fn is_money_field(f: Fields) -> bool {
    is_money_input_field(f) || is_derived_field(f)
}

} // verus!
