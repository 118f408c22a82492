//! One rental-property listing: its input attributes and the amounts
//! derived from them.
//!
//! Money inputs are integer cents. The derived amounts (total rent and
//! the splits for 2, 3 and 4 occupants) are integer twelfths of a cent,
//! so that dividing a total by 2, 3 or 4 is exact: a derived field holds
//! twelve times the cent value of the amount it stands for.

use vstd::prelude::*;
use crate::fields::Fields;
use crate::text::{lex_le, lemma_lex_antisym, lemma_lex_refl, lemma_lex_total, lemma_lex_trans,
    lower_seq, same_name, eq_ignore_case, cmp_ignore_case};

verus! {

/// Largest money input the library handles, in cents.
pub const MAX_CENTS: i64 = 1_000_000_000_000;

/// The mathematical content of an entry. Money inputs are cents; the
/// four derived fields are twelfths of a cent.
pub ghost struct EntryView {
    pub name: Seq<char>,
    pub beds: i8,
    pub baths: i8,
    pub deposit: i64,
    pub pet_deposit: i64,
    pub pet_monthly: i64,
    pub parking_monthly: i64,
    pub monthly_rent: i64,
    pub total_rent: i64,
    pub rent_for_2: i64,
    pub rent_for_3: i64,
    pub rent_for_4: i64,
    pub link: Seq<char>,
}

impl EntryView {
    /// Every money input lies in the range the arithmetic is proved for.
    pub open spec fn wf(self) -> bool {
        &&& money_in_range(self.deposit)
        &&& money_in_range(self.pet_deposit)
        &&& money_in_range(self.pet_monthly)
        &&& money_in_range(self.parking_monthly)
        &&& money_in_range(self.monthly_rent)
    }
}

/// A money input the arithmetic is proved for.
pub open spec fn money_in_range(c: i64) -> bool {
    -MAX_CENTS <= c <= MAX_CENTS
}

/// The total rent in cents: monthly rent, plus the monthly pet cost for
/// each pet, plus one parking share.
pub open spec fn spec_total_cents(v: EntryView, pet_count: int) -> int {
    v.monthly_rent as int + v.pet_monthly as int * pet_count + v.parking_monthly as int
}

/// The four derived fields hold exactly the values the formulas give for
/// this pet count: `total_rent` is the total in twelfth-cents, and the
/// split for n occupants is total / n plus n - 1 further parking shares.
pub open spec fn calculated(v: EntryView, pet_count: int) -> bool {
    let t = spec_total_cents(v, pet_count);
    let p = v.parking_monthly as int;
    &&& v.total_rent as int == 12 * t
    &&& v.rent_for_2 as int == 6 * t + 12 * p
    &&& v.rent_for_3 as int == 4 * t + 24 * p
    &&& v.rent_for_4 as int == 3 * t + 36 * p
}

/// The input attributes (everything but the four derived fields) agree.
pub open spec fn same_inputs(a: EntryView, b: EntryView) -> bool {
    &&& a.name == b.name
    &&& a.beds == b.beds
    &&& a.baths == b.baths
    &&& a.deposit == b.deposit
    &&& a.pet_deposit == b.pet_deposit
    &&& a.pet_monthly == b.pet_monthly
    &&& a.parking_monthly == b.parking_monthly
    &&& a.monthly_rent == b.monthly_rent
    &&& a.link == b.link
}

/// One rental-property listing.
pub struct Entry {
    name: String,
    beds: i8,
    baths: i8,
    deposit: i64,
    pet_deposit: i64,
    pet_monthly: i64,
    parking_monthly: i64,
    monthly_rent: i64,
    total_rent: i64,
    rent_for_2: i64,
    rent_for_3: i64,
    rent_for_4: i64,
    link: String,
}

impl View for Entry {
    type V = EntryView;

    closed spec fn view(&self) -> EntryView {
        EntryView {
            name: self.name@,
            beds: self.beds,
            baths: self.baths,
            deposit: self.deposit,
            pet_deposit: self.pet_deposit,
            pet_monthly: self.pet_monthly,
            parking_monthly: self.parking_monthly,
            monthly_rent: self.monthly_rent,
            total_rent: self.total_rent,
            rent_for_2: self.rent_for_2,
            rent_for_3: self.rent_for_3,
            rent_for_4: self.rent_for_4,
            link: self.link@,
        }
    }
}

impl Clone for Entry {
    fn clone(&self) -> (res: Self)
        ensures
            res == *self,
    {
        Entry {
            name: self.name.clone(),
            beds: self.beds,
            baths: self.baths,
            deposit: self.deposit,
            pet_deposit: self.pet_deposit,
            pet_monthly: self.pet_monthly,
            parking_monthly: self.parking_monthly,
            monthly_rent: self.monthly_rent,
            total_rent: self.total_rent,
            rent_for_2: self.rent_for_2,
            rent_for_3: self.rent_for_3,
            rent_for_4: self.rent_for_4,
            link: self.link.clone(),
        }
    }
}

impl Entry {
    /// Builds an entry from its input attributes and computes the derived
    /// fields for a pet count of zero, as a fresh entry starts out.
    pub fn new(
        name: String,
        beds: i8,
        baths: i8,
        deposit: i64,
        pet_deposit: i64,
        pet_monthly: i64,
        parking_monthly: i64,
        monthly_rent: i64,
        link: String,
    ) -> (r: Entry)
        requires
            money_in_range(deposit),
            money_in_range(pet_deposit),
            money_in_range(pet_monthly),
            money_in_range(parking_monthly),
            money_in_range(monthly_rent),
        ensures
            r@.name == name@,
            r@.beds == beds,
            r@.baths == baths,
            r@.deposit == deposit,
            r@.pet_deposit == pet_deposit,
            r@.pet_monthly == pet_monthly,
            r@.parking_monthly == parking_monthly,
            r@.monthly_rent == monthly_rent,
            r@.link == link@,
            r@.wf(),
            calculated(r@, 0),
    {
        let mut object = Entry {
            name,
            beds,
            baths,
            deposit,
            pet_deposit,
            pet_monthly,
            parking_monthly,
            monthly_rent,
            total_rent: 0,
            rent_for_2: 0,
            rent_for_3: 0,
            rent_for_4: 0,
            link,
        };
        object.calculate(0);
        object
    }

    /// Recomputes the four derived fields for the given pet count.
    pub fn calculate(&mut self, pet_count: i8)
        requires
            old(self)@.wf(),
        ensures
            same_inputs(final(self)@, old(self)@),
            final(self)@.wf(),
            calculated(final(self)@, pet_count as int),
    {
        let pc = pet_count as i64;
        proof {
            assert(-(128 * MAX_CENTS as int) <= (self.pet_monthly as int) * (pc as int) <= 128
                * MAX_CENTS as int) by (nonlinear_arith)
                requires
                    -MAX_CENTS <= self.pet_monthly <= MAX_CENTS,
                    -128 <= pc <= 127,
            ;
        }
        let t: i64 = self.monthly_rent + self.pet_monthly * pc + self.parking_monthly;
        self.total_rent = 12 * t;
        self.rent_for_2 = 6 * t + 12 * self.parking_monthly;
        self.rent_for_3 = 4 * t + 24 * self.parking_monthly;
        self.rent_for_4 = 3 * t + 36 * self.parking_monthly;
    }

    /// The entry's name.
    pub fn get_name(&self) -> (r: String)
        ensures
            r@ == self@.name,
    {
        self.name.clone()
    }

    /// The entry's free-text link.
    pub fn get_link(&self) -> (r: String)
        ensures
            r@ == self@.link,
    {
        self.link.clone()
    }

    /// Replaces the name; nothing else changes.
    pub fn set_name(&mut self, new_name: String)
        ensures
            final(self)@ == (EntryView { name: new_name@, ..old(self)@ }),
    {
        self.name = new_name;
    }

    /// Replaces the link; nothing else changes.
    pub fn set_link(&mut self, new_link: String)
        ensures
            final(self)@ == (EntryView { link: new_link@, ..old(self)@ }),
    {
        self.link = new_link;
    }

    /// Whether this entry answers to the given name: equality of the
    /// ASCII-case-folded texts, exactly as typed otherwise.
    pub fn is(&self, name: &String) -> (r: bool)
        ensures
            r == same_name(self@.name, name@),
    {
        eq_ignore_case(self.name.as_str(), name.as_str())
    }

    /// The integer-count columns; every other column has no integer value.
    pub fn get_i8(&self, field: Fields) -> (r: Option<i8>)
        ensures
            field is Beds ==> r == Some(self@.beds),
            field is Baths ==> r == Some(self@.baths),
            !(field is Beds) && !(field is Baths) ==> r is None,
    {
        match field {
            Fields::Beds => Some(self.beds),
            Fields::Baths => Some(self.baths),
            _ => None,
        }
    }

    /// The money columns, as stored: cents for the five inputs,
    /// twelfth-cents for the four derived amounts. Name and the integer
    /// counts have no money value.
    pub fn get_money(&self, field: Fields) -> (r: Option<i64>)
        ensures
            r == spec_money_of(self@, field),
    {
        match field {
            Fields::Deposit => Some(self.deposit),
            Fields::PetDeposit => Some(self.pet_deposit),
            Fields::PetMonthly => Some(self.pet_monthly),
            Fields::ParkingMonthly => Some(self.parking_monthly),
            Fields::MonthlyRent => Some(self.monthly_rent),
            Fields::TotalRent => Some(self.total_rent),
            Fields::RentFor2 => Some(self.rent_for_2),
            Fields::RentFor3 => Some(self.rent_for_3),
            Fields::RentFor4 => Some(self.rent_for_4),
            _ => None,
        }
    }

    /// Sets an integer-count column; a no-op for every other column.
    pub fn set_i8(&mut self, field: Fields, new_value: i8)
        ensures
            final(self)@ == spec_set_i8(old(self)@, field, new_value),
    {
        match field {
            Fields::Beds => self.beds = new_value,
            Fields::Baths => self.baths = new_value,
            _ => {},
        }
    }

    /// Sets a money-input column, in cents; a no-op for the name, the
    /// integer counts and the derived amounts.
    pub fn set_money(&mut self, field: Fields, new_value: i64)
        requires
            money_in_range(new_value),
        ensures
            final(self)@ == spec_set_money(old(self)@, field, new_value),
            old(self)@.wf() ==> final(self)@.wf(),
    {
        match field {
            Fields::Deposit => self.deposit = new_value,
            Fields::PetDeposit => self.pet_deposit = new_value,
            Fields::PetMonthly => self.pet_monthly = new_value,
            Fields::ParkingMonthly => self.parking_monthly = new_value,
            Fields::MonthlyRent => self.monthly_rent = new_value,
            _ => {},
        }
    }

    /// Three-way comparison by the given column: the name
    /// case-insensitively, every numeric column by its value.
    pub fn cmp(&self, other: &Entry, sort_field: Fields) -> (r: core::cmp::Ordering)
        ensures
            r is Less <==> key_le(self@, other@, sort_field) && !key_eq(self@, other@, sort_field),
            r is Equal <==> key_eq(self@, other@, sort_field),
            r is Greater <==> key_le(other@, self@, sort_field) && !key_eq(
                self@,
                other@,
                sort_field,
            ),
    {
        match sort_field {
            Fields::Name => {
                let r = cmp_ignore_case(self.name.as_str(), other.name.as_str());
                proof {
                    let x = lower_seq(self@.name);
                    let y = lower_seq(other@.name);
                    lemma_lex_refl(x);
                    lemma_lex_refl(y);
                    if lex_le(x, y) && lex_le(y, x) {
                        lemma_lex_antisym(x, y);
                    }
                    lemma_lex_total(x, y);
                }
                r
            },
            Fields::Beds => ord_i8(self.beds, other.beds),
            Fields::Baths => ord_i8(self.baths, other.baths),
            Fields::Deposit => ord_i64(self.deposit, other.deposit),
            Fields::PetDeposit => ord_i64(self.pet_deposit, other.pet_deposit),
            Fields::PetMonthly => ord_i64(self.pet_monthly, other.pet_monthly),
            Fields::ParkingMonthly => ord_i64(self.parking_monthly, other.parking_monthly),
            Fields::MonthlyRent => ord_i64(self.monthly_rent, other.monthly_rent),
            Fields::TotalRent => ord_i64(self.total_rent, other.total_rent),
            Fields::RentFor2 => ord_i64(self.rent_for_2, other.rent_for_2),
            Fields::RentFor3 => ord_i64(self.rent_for_3, other.rent_for_3),
            Fields::RentFor4 => ord_i64(self.rent_for_4, other.rent_for_4),
        }
    }
}

impl Default for Entry {
    /// The placeholder entry: a fixed name, all numbers zero, no link.
    fn default() -> (r: Self)
        ensures
            r@.name == "Enter name here"@,
            r@.beds == 0 && r@.baths == 0,
            r@.deposit == 0 && r@.pet_deposit == 0 && r@.pet_monthly == 0,
            r@.parking_monthly == 0 && r@.monthly_rent == 0,
            r@.link == Seq::<char>::empty(),
            r@.wf(),
            calculated(r@, 0),
    {
        Entry::new("Enter name here".to_owned(), 0, 0, 0, 0, 0, 0, 0, String::new())
    }
}

/// The money value an entry shows for a column, as `get_money` returns it.
pub open spec fn spec_money_of(v: EntryView, field: Fields) -> Option<i64> {
    match field {
        Fields::Deposit => Some(v.deposit),
        Fields::PetDeposit => Some(v.pet_deposit),
        Fields::PetMonthly => Some(v.pet_monthly),
        Fields::ParkingMonthly => Some(v.parking_monthly),
        Fields::MonthlyRent => Some(v.monthly_rent),
        Fields::TotalRent => Some(v.total_rent),
        Fields::RentFor2 => Some(v.rent_for_2),
        Fields::RentFor3 => Some(v.rent_for_3),
        Fields::RentFor4 => Some(v.rent_for_4),
        _ => None,
    }
}

/// The entry after an integer-count column is set to `x`.
pub open spec fn spec_set_i8(v: EntryView, field: Fields, x: i8) -> EntryView {
    match field {
        Fields::Beds => EntryView { beds: x, ..v },
        Fields::Baths => EntryView { baths: x, ..v },
        _ => v,
    }
}

/// The entry after a money-input column is set to `c` cents.
pub open spec fn spec_set_money(v: EntryView, field: Fields, c: i64) -> EntryView {
    match field {
        Fields::Deposit => EntryView { deposit: c, ..v },
        Fields::PetDeposit => EntryView { pet_deposit: c, ..v },
        Fields::PetMonthly => EntryView { pet_monthly: c, ..v },
        Fields::ParkingMonthly => EntryView { parking_monthly: c, ..v },
        Fields::MonthlyRent => EntryView { monthly_rent: c, ..v },
        _ => v,
    }
}

/// The sort order a column induces: names case-insensitively and then
/// lexicographically by code point, numeric columns by value.
pub open spec fn key_le(a: EntryView, b: EntryView, f: Fields) -> bool {
    match f {
        Fields::Name => lex_le(lower_seq(a.name), lower_seq(b.name)),
        Fields::Beds => a.beds <= b.beds,
        Fields::Baths => a.baths <= b.baths,
        Fields::Deposit => a.deposit <= b.deposit,
        Fields::PetDeposit => a.pet_deposit <= b.pet_deposit,
        Fields::PetMonthly => a.pet_monthly <= b.pet_monthly,
        Fields::ParkingMonthly => a.parking_monthly <= b.parking_monthly,
        Fields::MonthlyRent => a.monthly_rent <= b.monthly_rent,
        Fields::TotalRent => a.total_rent <= b.total_rent,
        Fields::RentFor2 => a.rent_for_2 <= b.rent_for_2,
        Fields::RentFor3 => a.rent_for_3 <= b.rent_for_3,
        Fields::RentFor4 => a.rent_for_4 <= b.rent_for_4,
    }
}

/// Two entries rank the same in a column's order.
pub open spec fn key_eq(a: EntryView, b: EntryView, f: Fields) -> bool {
    key_le(a, b, f) && key_le(b, a, f)
}

/// Any column's order is total.
pub proof fn lemma_key_le_total(a: EntryView, b: EntryView, f: Fields)
    ensures
        key_le(a, b, f) || key_le(b, a, f),
{
    if f is Name {
        lemma_lex_total(lower_seq(a.name), lower_seq(b.name));
    }
}

/// Any column's order is transitive.
pub proof fn lemma_key_le_trans(a: EntryView, b: EntryView, c: EntryView, f: Fields)
    requires
        key_le(a, b, f),
        key_le(b, c, f),
    ensures
        key_le(a, c, f),
{
    if f is Name {
        lemma_lex_trans(lower_seq(a.name), lower_seq(b.name), lower_seq(c.name));
    }
}

/// For every valid input, `calculate` yields exactly the specified
/// formulas: the total is the monthly rent plus the pet cost for each pet
/// plus one parking share, and the split for n occupants is total / n
/// plus n - 1 further parking shares. The splits are stated multiplied
/// through by n: the twelfth-cent representation makes them exact, with
/// no remainder hidden by rounding.
pub proof fn lemma_calculate_exact(v: EntryView, pet_count: int)
    requires
        calculated(v, pet_count),
    ensures
        v.total_rent as int == 12 * (v.monthly_rent as int + v.pet_monthly as int * pet_count
            + v.parking_monthly as int),
        2 * v.rent_for_2 as int == v.total_rent as int + 2 * (12 * v.parking_monthly as int),
        3 * v.rent_for_3 as int == v.total_rent as int + 3 * (2 * 12 * v.parking_monthly as int),
        4 * v.rent_for_4 as int == v.total_rent as int + 4 * (3 * 12 * v.parking_monthly as int),
{
}

/// Three-way comparison of integer counts.
fn ord_i8(a: i8, b: i8) -> (r: core::cmp::Ordering)
    ensures
        r is Less <==> a < b,
        r is Equal <==> a == b,
        r is Greater <==> a > b,
{
    if a < b {
        core::cmp::Ordering::Less
    } else if b < a {
        core::cmp::Ordering::Greater
    } else {
        core::cmp::Ordering::Equal
    }
}

/// Three-way comparison of money amounts.
fn ord_i64(a: i64, b: i64) -> (r: core::cmp::Ordering)
    ensures
        r is Less <==> a < b,
        r is Equal <==> a == b,
        r is Greater <==> a > b,
{
    if a < b {
        core::cmp::Ordering::Less
    } else if b < a {
        core::cmp::Ordering::Greater
    } else {
        core::cmp::Ordering::Equal
    }
}

} // verus!
