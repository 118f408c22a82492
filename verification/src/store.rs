//! The in-memory store: the entry list, the shared pet count, the
//! write-pending flag and the sort-column selector.
//!
//! Every mutation locates its target by case-insensitive name, first
//! match wins, and silently does nothing when no entry matches. The
//! store never rejects duplicate names on its own; callers check
//! `is_name_unique` before accepting one.

use vstd::prelude::*;
use vstd::set_lib::{lemma_int_range, lemma_len_subset, set_int_range};
use crate::digits::{all_digits, dec_rep, is_digit_char, lemma_dec_rep, lemma_dec_rep_injective,
    push_uint};
use crate::entry::{calculated, money_in_range, same_inputs, spec_set_i8, spec_set_money, Entry,
    EntryView};
use crate::fields::Fields;
use crate::sort::{sort_entries, sorted_by, stable_perm};
use crate::text::{lemma_add_cancel_left, lemma_lower_seq_add, lower_char, lower_seq, same_name};

verus! {

/// The name a default insertion generates for the probe number `n`.
pub open spec fn generated_name(n: nat) -> Seq<char> {
    "New_"@ + dec_rep(n)
}

/// Case folding leaves a digit run unchanged.
proof fn lemma_lower_seq_digits(s: Seq<char>)
    requires
        all_digits(s),
    ensures
        lower_seq(s) == s,
{
    assert forall|i: int| 0 <= i < s.len() implies lower_seq(s)[i] == s[i] by {
        assert(is_digit_char(s[i]));
        assert(lower_char(s[i]) == s[i]);
    }
    assert(lower_seq(s) =~= s);
}

/// Two different probe numbers generate names that differ even
/// case-insensitively.
pub proof fn lemma_generated_name_injective(n1: nat, n2: nat)
    requires
        same_name(generated_name(n1), generated_name(n2)),
    ensures
        n1 == n2,
{
    lemma_dec_rep(n1);
    lemma_dec_rep(n2);
    lemma_lower_seq_add("New_"@, dec_rep(n1));
    lemma_lower_seq_add("New_"@, dec_rep(n2));
    lemma_lower_seq_digits(dec_rep(n1));
    lemma_lower_seq_digits(dec_rep(n2));
    lemma_add_cancel_left(lower_seq("New_"@), dec_rep(n1), dec_rep(n2));
    lemma_dec_rep_injective(n1, n2);
}

/// Builds the name a default insertion generates.
fn make_generated_name(n: u128) -> (r: String)
    ensures
        r@ == generated_name(n as nat),
{
    let mut s = "New_".to_owned();
    push_uint(&mut s, n);
    s
}

/// The first entry, in list order, that answers to the name.
pub open spec fn find_name(entries: Seq<Entry>, name: Seq<char>) -> Option<int>
    decreases entries.len(),
{
    if entries.len() == 0 {
        None
    } else if same_name(entries[0]@.name, name) {
        Some(0)
    } else {
        match find_name(entries.skip(1), name) {
            Some(j) => Some(j + 1),
            None => None,
        }
    }
}

/// What `find_name` answers: the first match, or no match anywhere.
pub proof fn lemma_find_name(entries: Seq<Entry>, name: Seq<char>)
    ensures
        find_name(entries, name) is None ==> forall|k: int|
            0 <= k < entries.len() ==> !same_name((#[trigger] entries[k])@.name, name),
        find_name(entries, name) is Some ==> {
            let i = find_name(entries, name)->0;
            &&& 0 <= i < entries.len()
            &&& same_name(entries[i]@.name, name)
            &&& forall|k: int| 0 <= k < i ==> !same_name((#[trigger] entries[k])@.name, name)
        },
    decreases entries.len(),
{
    if entries.len() > 0 && !same_name(entries[0]@.name, name) {
        lemma_find_name(entries.skip(1), name);
        assert forall|k: int| 0 < k < entries.len() implies entries.skip(1)[k - 1]
            == entries[k] by {}
    }
}

/// No two entries answer to the same name.
pub open spec fn names_pairwise_distinct(entries: Seq<Entry>) -> bool {
    forall|k: int, l: int|
        0 <= k < l < entries.len() ==> !same_name(
            #[trigger] entries[k]@.name,
            #[trigger] entries[l]@.name,
        )
}

/// Repeated default insertions keep all names pairwise distinct: each
/// inserted entry, here the appended last one, answers to no name
/// already present, so a store whose names were pairwise distinct — in
/// particular one built by nothing but default insertions — stays so.
pub proof fn lemma_insert_keeps_names_distinct(before: Seq<Entry>, after: Seq<Entry>)
    requires
        names_pairwise_distinct(before),
        after.len() == before.len() + 1,
        forall|k: int| 0 <= k < before.len() ==> after[k] == before[k],
        forall|k: int|
            0 <= k < before.len() ==> !same_name(
                (#[trigger] before[k])@.name,
                after.last()@.name,
            ),
    ensures
        names_pairwise_distinct(after),
{
    assert forall|k: int, l: int| 0 <= k < l < after.len() implies !same_name(
        (#[trigger] after[k])@.name,
        (#[trigger] after[l])@.name,
    ) by {
        if l == after.len() - 1 {
            assert(after[k] == before[k]);
            assert(after[l] == after.last());
        } else {
            assert(after[k] == before[k]);
            assert(after[l] == before[l]);
        }
    }
}

/// The mathematical content of a store.
pub ghost struct StoreView {
    pub pet_count: i8,
    pub entries: Seq<Entry>,
    pub dirty: bool,
    pub sort_field: Fields,
}

impl StoreView {
    /// Every entry's money inputs lie in the proved range.
    pub open spec fn wf(self) -> bool {
        forall|k: int| 0 <= k < self.entries.len() ==> (#[trigger] self.entries[k]@).wf()
    }
}

/// The in-memory store of entries.
pub struct Store {
    pet_count: i8,
    list: Vec<Entry>,
    dirty: bool,
    sort_field: Fields,
}

impl View for Store {
    type V = StoreView;

    closed spec fn view(&self) -> StoreView {
        StoreView {
            pet_count: self.pet_count,
            entries: self.list@,
            dirty: self.dirty,
            sort_field: self.sort_field,
        }
    }
}

/// Removing an element and inserting another at its place updates it.
proof fn lemma_remove_insert(s: Seq<Entry>, i: int, x: Entry)
    requires
        0 <= i < s.len(),
    ensures
        s.remove(i).insert(i, x) =~= s.update(i, x),
{
    assert(s.remove(i).len() == s.len() - 1);
}

impl Store {
    /// An empty store: no entries, a pet count of two, sorting by name,
    /// nothing pending.
    pub fn new() -> (r: Store)
        ensures
            r@.pet_count == 2,
            r@.entries == Seq::<Entry>::empty(),
            r@.dirty == false,
            r@.sort_field == Fields::Name,
            r@.wf(),
    {
        Store { pet_count: 2, list: Vec::new(), dirty: false, sort_field: Fields::Name }
    }

    /// A store with the given pet count and entries, every entry's
    /// derived fields recomputed with that pet count, nothing pending.
    pub fn from_parts(pet_count: i8, list: Vec<Entry>) -> (r: Store)
        requires
            forall|k: int| 0 <= k < list@.len() ==> (#[trigger] list@[k]@).wf(),
        ensures
            r@.pet_count == pet_count,
            r@.dirty == false,
            r@.sort_field == Fields::Name,
            r@.entries.len() == list@.len(),
            forall|k: int|
                0 <= k < list@.len() ==> same_inputs((#[trigger] r@.entries[k])@, list@[k]@)
                    && calculated(r@.entries[k]@, pet_count as int),
            r@.wf(),
    {
        let mut st = Store { pet_count, list, dirty: false, sort_field: Fields::Name };
        st.recalculate_all();
        st
    }

    /// The entries, in list order.
    pub fn entries(&self) -> (r: &Vec<Entry>)
        ensures
            r@ == self@.entries,
    {
        &self.list
    }

    /// The shared pet count.
    pub fn pet_count(&self) -> (r: i8)
        ensures
            r == self@.pet_count,
    {
        self.pet_count
    }

    /// Whether a write to disk is pending.
    pub fn dirty(&self) -> (r: bool)
        ensures
            r == self@.dirty,
    {
        self.dirty
    }

    /// Records that a write to disk has completed.
    pub fn mark_saved(&mut self)
        ensures
            final(self)@ == (StoreView { dirty: false, ..old(self)@ }),
    {
        self.dirty = false;
    }

    /// The column the snapshot is sorted by.
    pub fn sort_field(&self) -> (r: Fields)
        ensures
            r == self@.sort_field,
    {
        self.sort_field
    }

    /// Selects the column to sort by; presentation state, so the store
    /// is not marked dirty.
    pub fn set_sort_field(&mut self, f: Fields)
        ensures
            final(self)@ == (StoreView { sort_field: f, ..old(self)@ }),
    {
        self.sort_field = f;
    }

    /// How many entries the store holds.
    pub fn len(&self) -> (r: usize)
        ensures
            r == self@.entries.len(),
    {
        self.list.len()
    }

    /// Whether no existing entry answers to the candidate name.
    pub fn is_name_unique(&self, candidate: &String) -> (r: bool)
        ensures
            r <==> forall|k: int|
                0 <= k < self@.entries.len() ==> !same_name(
                    (#[trigger] self@.entries[k])@.name,
                    candidate@,
                ),
    {
        let n = self.list.len();
        let mut i: usize = 0;
        while i < n
            invariant
                i <= n,
                n == self@.entries.len(),
                forall|k: int|
                    0 <= k < i ==> !same_name((#[trigger] self@.entries[k])@.name, candidate@),
            decreases n - i,
        {
            if self.list[i].is(candidate) {
                return false;
            }
            i += 1;
        }
        true
    }

    /// The position of the first entry answering to the name, if any.
    fn find(&self, name: &String) -> (r: Option<usize>)
        ensures
            match find_name(self@.entries, name@) {
                Some(i) => r is Some && r->0 == i && 0 <= i < self@.entries.len(),
                None => r is None,
            },
    {
        let n = self.list.len();
        let mut i: usize = 0;
        while i < n
            invariant
                i <= n,
                n == self@.entries.len(),
                forall|k: int|
                    0 <= k < i ==> !same_name((#[trigger] self@.entries[k])@.name, name@),
            decreases n - i,
        {
            if self.list[i].is(name) {
                proof {
                    lemma_find_name(self@.entries, name@);
                    assert(self@.entries[i as int] == self.list@[i as int]);
                    assert(same_name((self@.entries[i as int])@.name, name@));
                    let f = find_name(self@.entries, name@);
                    if f is Some {
                        let j = f->0;
                        if j < i {
                            assert(!same_name((self@.entries[j])@.name, name@));
                        }
                        if j > i {
                            assert(!same_name((self@.entries[i as int])@.name, name@));
                        }
                    }
                }
                return Some(i);
            }
            i += 1;
        }
        proof {
            lemma_find_name(self@.entries, name@);
            if find_name(self@.entries, name@) is Some {
                let j = find_name(self@.entries, name@)->0;
                assert(same_name((self@.entries[j])@.name, name@));
                assert(!same_name((self@.entries[j])@.name, name@));
            }
        }
        None
    }

    /// Renames the first entry answering to the old name. The caller has
    /// already checked the new name for uniqueness; the store does not.
    pub fn rename(&mut self, old_name: &String, new_name: String)
        ensures
            match find_name(old(self)@.entries, old_name@) {
                Some(i) => {
                    &&& final(self)@.entries.len() == old(self)@.entries.len()
                    &&& final(self)@.entries[i]@ == (EntryView {
                        name: new_name@,
                        ..old(self)@.entries[i]@
                    })
                    &&& forall|k: int|
                        0 <= k < old(self)@.entries.len() && k != i
                            ==> final(self)@.entries[k] == old(self)@.entries[k]
                    &&& final(self)@.dirty == true
                },
                None => final(self)@ == old(self)@,
            },
            final(self)@.pet_count == old(self)@.pet_count,
            final(self)@.sort_field == old(self)@.sort_field,
            old(self)@.wf() ==> final(self)@.wf(),
    {
        match self.find(old_name) {
            Some(i) => {
                let ghost pre = self.list@;
                let mut e = self.list.remove(i);
                e.set_name(new_name);
                self.list.insert(i, e);
                self.dirty = true;
                proof {
                    lemma_remove_insert(pre, i as int, e);
                }
            },
            None => {},
        }
    }

    /// Replaces the link of the first entry answering to the name.
    pub fn set_link(&mut self, name: &String, link: String)
        ensures
            match find_name(old(self)@.entries, name@) {
                Some(i) => {
                    &&& final(self)@.entries.len() == old(self)@.entries.len()
                    &&& final(self)@.entries[i]@ == (EntryView {
                        link: link@,
                        ..old(self)@.entries[i]@
                    })
                    &&& forall|k: int|
                        0 <= k < old(self)@.entries.len() && k != i
                            ==> final(self)@.entries[k] == old(self)@.entries[k]
                    &&& final(self)@.dirty == true
                },
                None => final(self)@ == old(self)@,
            },
            final(self)@.pet_count == old(self)@.pet_count,
            final(self)@.sort_field == old(self)@.sort_field,
            old(self)@.wf() ==> final(self)@.wf(),
    {
        match self.find(name) {
            Some(i) => {
                let ghost pre = self.list@;
                let mut e = self.list.remove(i);
                e.set_link(link);
                self.list.insert(i, e);
                self.dirty = true;
                proof {
                    lemma_remove_insert(pre, i as int, e);
                }
            },
            None => {},
        }
    }

    /// Sets an integer-count column of the first entry answering to the
    /// name; the counts feed no derived field, so nothing is recomputed.
    pub fn set_int_field(&mut self, name: &String, field: Fields, value: i8)
        ensures
            match find_name(old(self)@.entries, name@) {
                Some(i) => {
                    &&& final(self)@.entries.len() == old(self)@.entries.len()
                    &&& final(self)@.entries[i]@ == spec_set_i8(
                        old(self)@.entries[i]@,
                        field,
                        value,
                    )
                    &&& forall|k: int|
                        0 <= k < old(self)@.entries.len() && k != i
                            ==> final(self)@.entries[k] == old(self)@.entries[k]
                    &&& final(self)@.dirty == true
                },
                None => final(self)@ == old(self)@,
            },
            final(self)@.pet_count == old(self)@.pet_count,
            final(self)@.sort_field == old(self)@.sort_field,
            old(self)@.wf() ==> final(self)@.wf(),
    {
        match self.find(name) {
            Some(i) => {
                let ghost pre = self.list@;
                let mut e = self.list.remove(i);
                e.set_i8(field, value);
                self.list.insert(i, e);
                self.dirty = true;
                proof {
                    lemma_remove_insert(pre, i as int, e);
                }
            },
            None => {},
        }
    }

    /// Sets a money-input column, in cents, of the first entry answering
    /// to the name, and recomputes its derived fields with the store's
    /// pet count.
    pub fn set_money_field(&mut self, name: &String, field: Fields, value: i64)
        requires
            money_in_range(value),
            old(self)@.wf(),
        ensures
            match find_name(old(self)@.entries, name@) {
                Some(i) => {
                    &&& final(self)@.entries.len() == old(self)@.entries.len()
                    &&& same_inputs(
                        final(self)@.entries[i]@,
                        spec_set_money(old(self)@.entries[i]@, field, value),
                    )
                    &&& calculated(final(self)@.entries[i]@, old(self)@.pet_count as int)
                    &&& forall|k: int|
                        0 <= k < old(self)@.entries.len() && k != i
                            ==> final(self)@.entries[k] == old(self)@.entries[k]
                    &&& final(self)@.dirty == true
                },
                None => final(self)@ == old(self)@,
            },
            final(self)@.pet_count == old(self)@.pet_count,
            final(self)@.sort_field == old(self)@.sort_field,
            final(self)@.wf(),
    {
        match self.find(name) {
            Some(i) => {
                let ghost pre = self.list@;
                let mut e = self.list.remove(i);
                e.set_money(field, value);
                e.calculate(self.pet_count);
                self.list.insert(i, e);
                self.dirty = true;
                proof {
                    lemma_remove_insert(pre, i as int, e);
                }
            },
            None => {},
        }
    }

    /// Removes the first entry answering to the name; nothing happens
    /// when none does.
    pub fn delete(&mut self, name: &String)
        ensures
            match find_name(old(self)@.entries, name@) {
                Some(i) => {
                    &&& final(self)@.entries == old(self)@.entries.remove(i)
                    &&& final(self)@.dirty == true
                },
                None => final(self)@ == old(self)@,
            },
            final(self)@.pet_count == old(self)@.pet_count,
            final(self)@.sort_field == old(self)@.sort_field,
            old(self)@.wf() ==> final(self)@.wf(),
    {
        match self.find(name) {
            Some(i) => {
                self.list.remove(i);
                self.dirty = true;
            },
            None => {},
        }
    }

    /// Sets the shared pet count and recomputes every entry's derived
    /// fields with it.
    pub fn set_pet_count(&mut self, value: i8)
        requires
            old(self)@.wf(),
        ensures
            final(self)@.pet_count == value,
            final(self)@.dirty == true,
            final(self)@.sort_field == old(self)@.sort_field,
            final(self)@.entries.len() == old(self)@.entries.len(),
            forall|k: int|
                0 <= k < old(self)@.entries.len() ==> same_inputs(
                    (#[trigger] final(self)@.entries[k])@,
                    old(self)@.entries[k]@,
                ) && calculated(final(self)@.entries[k]@, value as int),
            final(self)@.wf(),
    {
        self.pet_count = value;
        self.dirty = true;
        self.recalculate_all();
    }

    /// Recomputes every entry's derived fields with the store's current
    /// pet count.
    fn recalculate_all(&mut self)
        requires
            old(self)@.wf(),
        ensures
            final(self)@.pet_count == old(self)@.pet_count,
            final(self)@.dirty == old(self)@.dirty,
            final(self)@.sort_field == old(self)@.sort_field,
            final(self)@.entries.len() == old(self)@.entries.len(),
            forall|k: int|
                0 <= k < old(self)@.entries.len() ==> same_inputs(
                    (#[trigger] final(self)@.entries[k])@,
                    old(self)@.entries[k]@,
                ) && calculated(final(self)@.entries[k]@, old(self)@.pet_count as int),
            final(self)@.wf(),
    {
        let n = self.list.len();
        let mut done: Vec<Entry> = Vec::new();
        let mut i: usize = 0;
        while i < n
            invariant
                i <= n,
                n == self.list@.len(),
                self.list@ == old(self)@.entries,
                self@.pet_count == old(self)@.pet_count,
                old(self)@.wf(),
                done@.len() == i,
                forall|k: int|
                    0 <= k < i ==> same_inputs((#[trigger] done@[k])@, old(self)@.entries[k]@)
                        && calculated(done@[k]@, old(self)@.pet_count as int) && done@[k]@.wf(),
            decreases n - i,
        {
            let mut e = self.list[i].clone();
            e.calculate(self.pet_count);
            done.push(e);
            i += 1;
        }
        self.list = done;
    }

    /// Appends a placeholder entry under a generated name `New_<n>` that
    /// no existing entry answers to, probing increasing `n` from the
    /// entry count; at most one probe per existing entry can collide, so
    /// a free name is always found. Returns the generated name.
    pub fn insert_default(&mut self) -> (r: String)
        ensures
            final(self)@.entries.len() == old(self)@.entries.len() + 1,
            forall|k: int|
                0 <= k < old(self)@.entries.len() ==> final(self)@.entries[k] == old(
                    self,
                )@.entries[k],
            final(self)@.entries.last()@ == (EntryView {
                name: r@,
                beds: 0,
                baths: 0,
                deposit: 0,
                pet_deposit: 0,
                pet_monthly: 0,
                parking_monthly: 0,
                monthly_rent: 0,
                total_rent: 0,
                rent_for_2: 0,
                rent_for_3: 0,
                rent_for_4: 0,
                link: Seq::<char>::empty(),
            }),
            forall|k: int|
                0 <= k < old(self)@.entries.len() ==> !same_name(
                    (#[trigger] old(self)@.entries[k])@.name,
                    r@,
                ),
            final(self)@.dirty == true,
            final(self)@.pet_count == old(self)@.pet_count,
            final(self)@.sort_field == old(self)@.sort_field,
            old(self)@.wf() ==> final(self)@.wf(),
    {
        let count = self.list.len();
        let ghost mut ws: Seq<int> = Seq::empty();
        let mut t: usize = 0;
        while t <= count
            invariant
                t <= count + 1,
                count == self@.entries.len(),
                self@ == old(self)@,
                ws.len() == t,
                forall|s: int|
                    0 <= s < t ==> 0 <= #[trigger] ws[s] < count && same_name(
                        (self@.entries[ws[s]])@.name,
                        generated_name((count + s) as nat),
                    ),
                forall|s1: int, s2: int| 0 <= s1 < s2 < t ==> ws[s1] != ws[s2],
            decreases count - t,
        {
            let name = make_generated_name((count as u128) + (t as u128));
            if self.is_name_unique(&name) {
                let returned = name.clone();
                let mut e = Entry::default();
                e.set_name(name);
                self.list.push(e);
                self.dirty = true;
                return returned;
            }
            proof {
                let j = choose|j: int|
                    0 <= j < self@.entries.len() && same_name(
                        (#[trigger] self@.entries[j])@.name,
                        name@,
                    );
                assert forall|s: int| 0 <= s < t implies ws[s] != j by {
                    if ws[s] == j {
                        assert(same_name(
                            generated_name((count + s) as nat),
                            generated_name((count + t) as nat),
                        ));
                        lemma_generated_name_injective((count + s) as nat, (count + t) as nat);
                    }
                }
                ws = ws.push(j);
                if t == count {
                    assert(ws.no_duplicates());
                    ws.unique_seq_to_set();
                    lemma_int_range(0, count as int);
                    lemma_len_subset(ws.to_set(), set_int_range(0, count as int));
                    assert(ws.to_set().len() <= count);
                    assert(false);
                }
            }
            t += 1;
        }
        proof {
            assert(ws.no_duplicates());
            ws.unique_seq_to_set();
            lemma_int_range(0, count as int);
            lemma_len_subset(ws.to_set(), set_int_range(0, count as int));
            assert(false);
        }
        vstd::pervasive::unreached()
    }

    /// A copy of the entries ordered by the selected column; entries
    /// that rank the same stay in their original relative order. The
    /// caller owns the copy: changing it never touches the store, and
    /// the snapshot always reflects the store's current state, so no
    /// stale data can be served after an edit.
    pub fn load_snapshot(&self) -> (r: Vec<Entry>)
        ensures
            sorted_by(r@, self@.sort_field),
            exists|p: Seq<int>| stable_perm(self@.entries, r@, p, self@.sort_field),
    {
        let r = sort_entries(&self.list, self.sort_field);
        proof {
            let p = choose|p: Seq<int>| stable_perm(self.list@, r@, p, self.sort_field);
            assert(stable_perm(self@.entries, r@, p, self@.sort_field));
        }
        r
    }
}

} // verus!
