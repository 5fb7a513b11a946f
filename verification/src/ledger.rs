//! The ledger: an ordered collection of expense records with unique names, an
//! income figure and the net worth derived from them.

use crate::calendar::{current_month_and_year, is_valid_day, valid_day};
use crate::expense::{Expense, ExpenseView};
use vstd::prelude::*;

verus! {

/// What a ledger holds, as mathematical values.
pub struct ContentView {
    pub expenses: Seq<ExpenseView>,
    pub income: nat,
    pub net_worth: int,
}

/// Why an operation on the ledger or on its file did not take place.
#[derive(Debug, Clone, Copy, PartialEq, Eq, Structural)]
pub enum LedgerError {
    DuplicateName,
    NotFound,
    InvalidDueDate,
    IOFailure,
    ParseFailure,
}

/// The views of a sequence of records, in the same order.
pub open spec fn views(records: Seq<Expense>) -> Seq<ExpenseView> {
    records.map_values(|e: Expense| e@)
}

/// Whether some record bears `name`.
pub open spec fn has_name(expenses: Seq<ExpenseView>, name: Seq<char>) -> bool {
    exists|i: int| 0 <= i < expenses.len() && (#[trigger] expenses[i]).name == name
}

/// The place of a record that bears `name`; meaningful where `has_name` holds.
pub open spec fn index_of(expenses: Seq<ExpenseView>, name: Seq<char>) -> int {
    choose|i: int| 0 <= i < expenses.len() && (#[trigger] expenses[i]).name == name
}

/// No two records bear the same name.
pub open spec fn distinct_names(expenses: Seq<ExpenseView>) -> bool {
    forall|i: int, j: int|
        0 <= i < j < expenses.len() ==> (#[trigger] expenses[i]).name != (
        #[trigger] expenses[j]).name
}

/// A record that a ledger may hold: a name, a cost that fits the record and a
/// day that some month has.
pub open spec fn valid_record(e: ExpenseView) -> bool {
    &&& e.name.len() > 0
    &&& e.cost <= u32::MAX
    &&& 1 <= e.due_date <= 31
}

/// The invariant of every ledger.
pub open spec fn well_formed(ledger: ContentView) -> bool {
    &&& forall|i: int|
        0 <= i < ledger.expenses.len() ==> valid_record(#[trigger] ledger.expenses[i])
    &&& distinct_names(ledger.expenses)
    &&& ledger.income <= u32::MAX
    &&& i128::MIN <= ledger.net_worth <= i128::MAX
}

/// The sum of the costs of all records; zero for none.
pub open spec fn total_cost(expenses: Seq<ExpenseView>) -> nat
    decreases expenses.len(),
{
    if expenses.len() == 0 {
        0
    } else {
        total_cost(expenses.drop_last()) + expenses.last().cost
    }
}

/// The ledger with no record, no income and no net worth.
pub open spec fn empty_ledger() -> ContentView {
    ContentView { expenses: Seq::empty(), income: 0, net_worth: 0 }
}

/// The record that `add` creates: unpaid, and free where no cost is given.
pub open spec fn new_record(name: Seq<char>, cost: Option<u32>, due_date: u32) -> ExpenseView {
    ExpenseView {
        name,
        cost: match cost {
            Some(cost) => cost as nat,
            None => 0,
        },
        paid: false,
        due_date: due_date as nat,
    }
}

/// How adding a record named `name`, due on `due_date`, ends when it is
/// validated against `month` of `year`.
pub open spec fn add_outcome(
    ledger: ContentView,
    name: Seq<char>,
    due_date: u32,
    month: u32,
    year: i32,
) -> Result<(), LedgerError> {
    if has_name(ledger.expenses, name) {
        Err(LedgerError::DuplicateName)
    } else if !valid_day(due_date, month, year) {
        Err(LedgerError::InvalidDueDate)
    } else {
        Ok(())
    }
}

/// The ledger after that addition: the new record comes last; a refused
/// addition changes nothing.
pub open spec fn after_add(
    ledger: ContentView,
    name: Seq<char>,
    cost: Option<u32>,
    due_date: u32,
    month: u32,
    year: i32,
) -> ContentView {
    if add_outcome(ledger, name, due_date, month, year) is Ok {
        ContentView { expenses: ledger.expenses.push(new_record(name, cost, due_date)), ..ledger }
    } else {
        ledger
    }
}

/// The ledger with its net worth set to income less the total cost.
pub open spec fn after_update_net_worth(ledger: ContentView) -> ContentView {
    ContentView { net_worth: ledger.income - total_cost(ledger.expenses), ..ledger }
}

/// The ledger with its income replaced; the net worth stays as it was.
pub open spec fn after_set_income(ledger: ContentView, value: u32) -> ContentView {
    ContentView { income: value as nat, ..ledger }
}

/// How an operation on the record named `name` ends where nothing but its
/// absence can stop it.
pub open spec fn lookup_outcome(ledger: ContentView, name: Seq<char>) -> Result<(), LedgerError> {
    if has_name(ledger.expenses, name) {
        Ok(())
    } else {
        Err(LedgerError::NotFound)
    }
}

/// The ledger after that removal: the other records keep their order.
pub open spec fn after_remove(ledger: ContentView, name: Seq<char>) -> ContentView {
    if has_name(ledger.expenses, name) {
        ContentView {
            expenses: ledger.expenses.remove(index_of(ledger.expenses, name)),
            ..ledger
        }
    } else {
        ledger
    }
}

/// The ledger after the paid flag of the record named `name` is flipped.
pub open spec fn after_pay(ledger: ContentView, name: Seq<char>) -> ContentView {
    if has_name(ledger.expenses, name) {
        let i = index_of(ledger.expenses, name);
        let record = ledger.expenses[i];
        ContentView {
            expenses: ledger.expenses.update(i, ExpenseView { paid: !record.paid, ..record }),
            ..ledger
        }
    } else {
        ledger
    }
}

/// The ledger with every record unpaid.
pub open spec fn after_reset_paid(ledger: ContentView) -> ContentView {
    ContentView {
        expenses: ledger.expenses.map_values(|e: ExpenseView| ExpenseView { paid: false, ..e }),
        ..ledger
    }
}

/// The views of the fields that an edit may supply.
pub open spec fn name_view(name: Option<&str>) -> Option<Seq<char>> {
    match name {
        Some(name) => Some(name@),
        None => None,
    }
}

/// How editing the record named `name` ends when a new due date is validated
/// against `month` of `year`. Taking the name of another record is refused.
pub open spec fn edit_outcome(
    ledger: ContentView,
    name: Seq<char>,
    new_name: Option<Seq<char>>,
    new_due_date: Option<u32>,
    month: u32,
    year: i32,
) -> Result<(), LedgerError> {
    if !has_name(ledger.expenses, name) {
        Err(LedgerError::NotFound)
    } else if new_name is Some && new_name->0 != name && has_name(ledger.expenses, new_name->0) {
        Err(LedgerError::DuplicateName)
    } else if new_due_date is Some && !valid_day(new_due_date->0, month, year) {
        Err(LedgerError::InvalidDueDate)
    } else {
        Ok(())
    }
}

/// A record with the supplied fields replaced; the paid flag is kept.
pub open spec fn edited_record(
    record: ExpenseView,
    new_name: Option<Seq<char>>,
    new_cost: Option<u32>,
    new_due_date: Option<u32>,
) -> ExpenseView {
    ExpenseView {
        name: match new_name {
            Some(name) => name,
            None => record.name,
        },
        cost: match new_cost {
            Some(cost) => cost as nat,
            None => record.cost,
        },
        paid: record.paid,
        due_date: match new_due_date {
            Some(day) => day as nat,
            None => record.due_date,
        },
    }
}

/// The ledger after that edit: the record stays in its place; a refused edit
/// changes nothing.
pub open spec fn after_edit(
    ledger: ContentView,
    name: Seq<char>,
    new_name: Option<Seq<char>>,
    new_cost: Option<u32>,
    new_due_date: Option<u32>,
    month: u32,
    year: i32,
) -> ContentView {
    if edit_outcome(ledger, name, new_name, new_due_date, month, year) is Ok {
        let i = index_of(ledger.expenses, name);
        ContentView {
            expenses: ledger.expenses.update(
                i,
                edited_record(ledger.expenses[i], new_name, new_cost, new_due_date),
            ),
            ..ledger
        }
    } else {
        ledger
    }
}

/// The ledger state. Its records keep the order in which they were added.
#[derive(Debug, PartialEq, Eq)]
pub struct Content {
    expenses: Vec<Expense>,
    net_worth: i128,
    income: u32,
}

impl View for Content {
    type V = ContentView;

    closed spec fn view(&self) -> ContentView {
        ContentView {
            expenses: views(self.expenses@),
            income: self.income as nat,
            net_worth: self.net_worth as int,
        }
    }
}

impl Content {
    #[verifier::type_invariant]
    closed spec fn inv(&self) -> bool {
        well_formed(self@)
    }

    /// A ledger with no record, no income and no net worth.
    pub fn new() -> (state: Content)
        ensures
            state@ == empty_ledger(),
            well_formed(state@),
    {
        let state = Content { expenses: Vec::new(), net_worth: 0, income: 0 };
        assert(state@.expenses =~= Seq::empty());
        state
    }

    /// The ledger that holds exactly these values, where they make up one: every
    /// record named, due on a day between 1 and 31, and no name used twice.
    pub fn from_parts(expenses: Vec<Expense>, income: u32, net_worth: i128) -> (made: Option<
        Content,
    >)
        ensures
            match made {
                Some(state) => state@ == (ContentView {
                    expenses: views(expenses@),
                    income: income as nat,
                    net_worth: net_worth as int,
                }) && well_formed(state@),
                None => !well_formed(
                    ContentView {
                        expenses: views(expenses@),
                        income: income as nat,
                        net_worth: net_worth as int,
                    },
                ),
            },
    {
        let ghost records = views(expenses@);
        let mut i: usize = 0;
        while i < expenses.len()
            invariant
                i <= expenses.len(),
                records == views(expenses@),
                forall|k: int| 0 <= k < i ==> valid_record(#[trigger] records[k]),
                forall|a: int, b: int|
                    0 <= a < b < i ==> (#[trigger] records[a]).name != (#[trigger] records[b]).name,
            decreases expenses.len() - i,
        {
            let record = &expenses[i];
            if record.name.as_str().is_empty() || record.due_date < 1 || record.due_date > 31 {
                assert(!valid_record(records[i as int]));
                return None;
            }
            let mut j: usize = 0;
            while j < i
                invariant
                    j <= i < expenses.len(),
                    records == views(expenses@),
                    forall|a: int| 0 <= a < j ==> (#[trigger] records[a]).name != records[i as int].name,
                decreases i - j,
            {
                if expenses[j].name == expenses[i].name {
                    assert(records[j as int].name == records[i as int].name);
                    return None;
                }
                j += 1;
            }
            i += 1;
        }
        Some(Content { expenses, net_worth, income })
    }

    /// Moves the records out and leaves the ledger without any.
    fn take_records(&mut self) -> (records: Vec<Expense>)
        ensures
            records@ == old(self).expenses@,
            final(self).expenses@ == Seq::<Expense>::empty(),
            final(self).income == old(self).income,
            final(self).net_worth == old(self).net_worth,
    {
        let mut records: Vec<Expense> = Vec::new();
        assert(views(records@) =~= Seq::empty());
        core::mem::swap(&mut self.expenses, &mut records);
        records
    }

    /// Puts `records` in the place of the ledger's own.
    fn put_records(&mut self, records: Vec<Expense>)
        requires
            well_formed(
                ContentView {
                    expenses: views(records@),
                    income: old(self).income as nat,
                    net_worth: old(self).net_worth as int,
                },
            ),
        ensures
            final(self).expenses@ == records@,
            final(self).income == old(self).income,
            final(self).net_worth == old(self).net_worth,
    {
        let mut records = records;
        core::mem::swap(&mut self.expenses, &mut records);
    }

    /// The place of the record named `name`, if there is one.
    fn position(&self, name: &String) -> (found: Option<usize>)
        ensures
            match found {
                Some(i) => i < self@.expenses.len() && self@.expenses[i as int].name == name@,
                None => !has_name(self@.expenses, name@),
            },
    {
        let mut i: usize = 0;
        while i < self.expenses.len()
            invariant
                i <= self.expenses.len(),
                forall|k: int| 0 <= k < i ==> (#[trigger] self@.expenses[k]).name != name@,
            decreases self.expenses.len() - i,
        {
            if self.expenses[i].name == *name {
                return Some(i);
            }
            i += 1;
        }
        None
    }

    /// The record named `name`, if the ledger holds one.
    pub fn find(&self, name: &str) -> (found: Option<&Expense>)
        ensures
            well_formed(self@),
            match found {
                Some(record) => has_name(self@.expenses, name@) && record@
                    == self@.expenses[index_of(self@.expenses, name@)],
                None => !has_name(self@.expenses, name@),
            },
    {
        proof {
            use_type_invariant(self);
        }
        let key = name.to_owned();
        match self.position(&key) {
            Some(i) => {
                proof {
                    lemma_index_of(self@.expenses, name@, i as int);
                }
                Some(&self.expenses[i])
            },
            None => None,
        }
    }

    /// The records, in the order in which they were added.
    pub fn expenses(&self) -> (records: &Vec<Expense>)
        ensures
            views(records@) == self@.expenses,
            well_formed(self@),
    {
        proof {
            use_type_invariant(self);
        }
        &self.expenses
    }

    /// The income figure.
    pub fn income(&self) -> (income: u32)
        ensures
            income == self@.income,
    {
        self.income
    }

    /// The net worth as it was last computed or loaded.
    pub fn net_worth(&self) -> (net_worth: i128)
        ensures
            net_worth == self@.net_worth,
    {
        self.net_worth
    }

    /// A copy of the whole ledger, for display or for saving.
    pub fn get_content(&self) -> (snapshot: Content)
        ensures
            snapshot@ == self@,
            well_formed(snapshot@),
    {
        proof {
            use_type_invariant(self);
        }
        let mut records: Vec<Expense> = Vec::new();
        let mut i: usize = 0;
        while i < self.expenses.len()
            invariant
                i <= self.expenses.len(),
                records@ == self.expenses@.take(i as int),
            decreases self.expenses.len() - i,
        {
            records.push(self.expenses[i].clone());
            assert(records@ =~= self.expenses@.take(i + 1));
            i += 1;
        }
        assert(records@ =~= self.expenses@);
        Content { expenses: records, net_worth: self.net_worth, income: self.income }
    }

    /// The sum of the costs of all records.
    pub fn sum_expenses(&self) -> (sum: u128)
        ensures
            sum == total_cost(self@.expenses),
    {
        let mut sum: u128 = 0;
        let mut i: usize = 0;
        while i < self.expenses.len()
            invariant
                i <= self.expenses.len(),
                sum == total_cost(self@.expenses.take(i as int)),
                sum <= i * u32::MAX,
            decreases self.expenses.len() - i,
        {
            proof {
                let next = self@.expenses.take(i + 1);
                assert(next.drop_last() =~= self@.expenses.take(i as int));
                assert(next.last() == self.expenses[i as int]@);
                assert((i + 1) * u32::MAX == i * u32::MAX + u32::MAX) by (nonlinear_arith);
                assert(i * u32::MAX <= usize::MAX * u32::MAX) by (nonlinear_arith)
                    requires
                        i <= usize::MAX,
                ;
            }
            sum = sum + self.expenses[i].cost as u128;
            i += 1;
        }
        assert(self@.expenses.take(i as int) =~= self@.expenses);
        sum
    }

    /// Sets the net worth to income less the sum of all costs.
    pub fn update_net_worth(&mut self)
        ensures
            final(self)@ == after_update_net_worth(old(self)@),
            well_formed(final(self)@),
    {
        proof {
            use_type_invariant(&*self);
        }
        let sum = self.sum_expenses();
        let count = self.expenses.len();
        proof {
            lemma_total_cost_bound(self@.expenses);
            assert(self@.expenses.len() == count);
            assert(self@.expenses.len() * u32::MAX <= usize::MAX * u32::MAX) by (nonlinear_arith)
                requires
                    self@.expenses.len() <= usize::MAX,
            ;
        }
        self.net_worth = self.income as i128 - sum as i128;
    }

    /// Replaces the income. The net worth is stale until it is computed anew.
    pub fn set_income(&mut self, value: u32)
        ensures
            final(self)@ == after_set_income(old(self)@, value),
            well_formed(final(self)@),
    {
        proof {
            use_type_invariant(&*self);
        }
        self.income = value;
    }

    /// Adds an unpaid record at the end, its due date validated against
    /// `month` of `year`. A name that is taken is refused before the date is
    /// looked at.
    pub fn add_expense_in_month(
        &mut self,
        name: &str,
        cost: Option<u32>,
        due_date: u32,
        month: u32,
        year: i32,
    ) -> (outcome: Result<(), LedgerError>)
        requires
            name@.len() > 0,
        ensures
            outcome == add_outcome(old(self)@, name@, due_date, month, year),
            final(self)@ == after_add(old(self)@, name@, cost, due_date, month, year),
            well_formed(final(self)@),
    {
        proof {
            use_type_invariant(&*self);
        }
        let key = name.to_owned();
        if self.position(&key).is_some() {
            return Err(LedgerError::DuplicateName);
        }
        if !is_valid_day(due_date, month, year) {
            return Err(LedgerError::InvalidDueDate);
        }
        let mut builder = Expense::new(key, due_date);
        if let Some(cost) = cost {
            builder.cost(cost);
        }
        let record = builder.build();
        assert(record@ == new_record(name@, cost, due_date));
        proof {
            assert(views(self.expenses@.push(record)) =~= views(self.expenses@).push(record@));
        }
        let mut records = self.take_records();
        records.push(record);
        self.put_records(records);
        Ok(())
    }

    /// Deletes the record named `title`; the others keep their order.
    pub fn remove_expense(&mut self, title: &str) -> (outcome: Result<(), LedgerError>)
        ensures
            outcome == lookup_outcome(old(self)@, title@),
            final(self)@ == after_remove(old(self)@, title@),
            well_formed(final(self)@),
    {
        proof {
            use_type_invariant(&*self);
        }
        let key = title.to_owned();
        match self.position(&key) {
            Some(i) => {
                proof {
                    lemma_index_of(self@.expenses, title@, i as int);
                    assert(views(self.expenses@.remove(i as int)) =~= views(self.expenses@).remove(
                        i as int,
                    ));
                }
                let mut records = self.take_records();
                records.remove(i);
                self.put_records(records);
                Ok(())
            },
            None => Err(LedgerError::NotFound),
        }
    }

    /// Flips the paid flag of the record named `title`.
    pub fn pay_expense(&mut self, title: &str) -> (outcome: Result<(), LedgerError>)
        ensures
            outcome == lookup_outcome(old(self)@, title@),
            final(self)@ == after_pay(old(self)@, title@),
            well_formed(final(self)@),
    {
        proof {
            use_type_invariant(&*self);
        }
        let key = title.to_owned();
        match self.position(&key) {
            Some(i) => {
                proof {
                    lemma_index_of(self@.expenses, title@, i as int);
                }
                let record = &self.expenses[i];
                let flipped = Expense {
                    name: key,
                    cost: record.cost,
                    paid: !record.paid,
                    due_date: record.due_date,
                };
                proof {
                    assert(views(self.expenses@.update(i as int, flipped)) =~= views(
                        self.expenses@,
                    ).update(i as int, flipped@));
                }
                let mut records = self.take_records();
                records.set(i, flipped);
                self.put_records(records);
                Ok(())
            },
            None => Err(LedgerError::NotFound),
        }
    }

    /// Clears the paid flag of every record.
    pub fn reset_paid(&mut self)
        ensures
            final(self)@ == after_reset_paid(old(self)@),
            well_formed(final(self)@),
    {
        proof {
            use_type_invariant(&*self);
        }
        let mut records = self.take_records();
        let ghost before = records@;
        let mut i: usize = 0;
        while i < records.len()
            invariant
                i <= records.len(),
                records@.len() == before.len(),
                forall|k: int|
                    0 <= k < i ==> (#[trigger] records@[k])@ == (ExpenseView {
                        paid: false,
                        ..before[k]@
                    }),
                forall|k: int| i <= k < before.len() ==> #[trigger] records@[k] == before[k],
            decreases records.len() - i,
        {
            let record = &records[i];
            let unpaid = Expense {
                name: record.name.clone(),
                cost: record.cost,
                paid: false,
                due_date: record.due_date,
            };
            records.set(i, unpaid);
            i += 1;
        }
        proof {
            assert(views(records@) =~= after_reset_paid(old(self)@).expenses);
        }
        self.put_records(records);
    }

    /// Replaces the supplied fields of the record named `name`, a new due date
    /// validated against `month` of `year`. The paid flag and the record's
    /// place stay as they were.
    pub fn edit_expense_in_month(
        &mut self,
        name: &str,
        new_name: Option<&str>,
        new_cost: Option<u32>,
        new_due_date: Option<u32>,
        month: u32,
        year: i32,
    ) -> (outcome: Result<(), LedgerError>)
        requires
            new_name is Some ==> new_name->0@.len() > 0,
        ensures
            outcome == edit_outcome(
                old(self)@,
                name@,
                name_view(new_name),
                new_due_date,
                month,
                year,
            ),
            final(self)@ == after_edit(
                old(self)@,
                name@,
                name_view(new_name),
                new_cost,
                new_due_date,
                month,
                year,
            ),
            well_formed(final(self)@),
    {
        proof {
            use_type_invariant(&*self);
        }
        let key = name.to_owned();
        let i = match self.position(&key) {
            Some(i) => i,
            None => {
                return Err(LedgerError::NotFound);
            },
        };
        proof {
            lemma_index_of(self@.expenses, name@, i as int);
        }
        let renamed = match new_name {
            Some(new_name) => {
                let new_key = new_name.to_owned();
                if !(new_key == key) && self.position(&new_key).is_some() {
                    return Err(LedgerError::DuplicateName);
                }
                new_key
            },
            None => key,
        };
        let due_date = match new_due_date {
            Some(day) => {
                if !is_valid_day(day, month, year) {
                    return Err(LedgerError::InvalidDueDate);
                }
                day
            },
            None => self.expenses[i].due_date,
        };
        let cost = match new_cost {
            Some(cost) => cost,
            None => self.expenses[i].cost,
        };
        let edited = Expense { name: renamed, cost, paid: self.expenses[i].paid, due_date };
        proof {
            let before = self@.expenses;
            let after = before.update(i as int, edited@);
            assert(edited@ == edited_record(before[i as int], name_view(new_name), new_cost, new_due_date));
            assert(views(self.expenses@.update(i as int, edited)) =~= after);
            assert forall|a: int, b: int| 0 <= a < b < after.len() implies (#[trigger] after[a]).name
                != (#[trigger] after[b]).name by {
                assert(before[a].name != before[b].name);
                if edited@.name != name@ {
                    assert(!has_name(before, edited@.name));
                }
            }
        }
        let mut records = self.take_records();
        records.set(i, edited);
        self.put_records(records);
        Ok(())
    }

    /// Adds an unpaid record at the end, its due date validated against the
    /// month that the local clock shows.
    pub fn add_expense(&mut self, name: &str, cost: Option<u32>, due_date: u32) -> (outcome: Result<
        (),
        LedgerError,
    >)
        requires
            name@.len() > 0,
        ensures
            exists|month: u32, year: i32|
                1 <= month <= 12 && outcome == #[trigger] add_outcome(
                    old(self)@,
                    name@,
                    due_date,
                    month,
                    year,
                ) && final(self)@ == after_add(old(self)@, name@, cost, due_date, month, year),
            has_name(old(self)@.expenses, name@) ==> outcome == Err::<(), LedgerError>(
                LedgerError::DuplicateName,
            ),
            !has_name(old(self)@.expenses, name@) && (due_date < 1 || due_date > 31) ==> outcome
                == Err::<(), LedgerError>(LedgerError::InvalidDueDate),
            !has_name(old(self)@.expenses, name@) && 1 <= due_date <= 28 ==> outcome is Ok,
            outcome is Err ==> final(self)@ == old(self)@,
            outcome is Ok ==> final(self)@ == (ContentView {
                expenses: old(self)@.expenses.push(new_record(name@, cost, due_date)),
                ..old(self)@
            }),
            well_formed(final(self)@),
    {
        let (month, year) = current_month_and_year();
        self.add_expense_in_month(name, cost, due_date, month, year)
    }

    /// Replaces the supplied fields of the record named `name`, a new due date
    /// validated against the month that the local clock shows.
    pub fn edit_expense(
        &mut self,
        name: &str,
        new_name: Option<&str>,
        new_cost: Option<u32>,
        new_due_date: Option<u32>,
    ) -> (outcome: Result<(), LedgerError>)
        requires
            new_name is Some ==> new_name->0@.len() > 0,
        ensures
            exists|month: u32, year: i32|
                1 <= month <= 12 && outcome == #[trigger] edit_outcome(
                    old(self)@,
                    name@,
                    name_view(new_name),
                    new_due_date,
                    month,
                    year,
                ) && final(self)@ == after_edit(
                    old(self)@,
                    name@,
                    name_view(new_name),
                    new_cost,
                    new_due_date,
                    month,
                    year,
                ),
            !has_name(old(self)@.expenses, name@) ==> outcome == Err::<(), LedgerError>(
                LedgerError::NotFound,
            ),
            new_due_date is None ==> outcome == edit_outcome(
                old(self)@,
                name@,
                name_view(new_name),
                None,
                1,
                0,
            ),
            outcome is Err ==> final(self)@ == old(self)@,
            outcome is Ok ==> final(self)@.expenses == old(self)@.expenses.update(
                index_of(old(self)@.expenses, name@),
                edited_record(
                    old(self)@.expenses[index_of(old(self)@.expenses, name@)],
                    name_view(new_name),
                    new_cost,
                    new_due_date,
                ),
            ),
            well_formed(final(self)@),
    {
        let (month, year) = current_month_and_year();
        self.edit_expense_in_month(name, new_name, new_cost, new_due_date, month, year)
    }
}

/// In a ledger with distinct names, the place of a name is the one place
/// where it stands.
pub proof fn lemma_index_of(expenses: Seq<ExpenseView>, name: Seq<char>, i: int)
    requires
        distinct_names(expenses),
        0 <= i < expenses.len(),
        expenses[i].name == name,
    ensures
        has_name(expenses, name),
        index_of(expenses, name) == i,
{
    let j = index_of(expenses, name);
    assert(0 <= j < expenses.len() && expenses[j].name == name);
    if j < i {
        assert(expenses[j].name != expenses[i].name);
    } else if i < j {
        assert(expenses[i].name != expenses[j].name);
    }
}

/// The total cost of valid records is at most the largest cost times their number.
pub proof fn lemma_total_cost_bound(expenses: Seq<ExpenseView>)
    requires
        forall|i: int| 0 <= i < expenses.len() ==> valid_record(#[trigger] expenses[i]),
    ensures
        total_cost(expenses) <= expenses.len() * u32::MAX,
    decreases expenses.len(),
{
    if expenses.len() > 0 {
        let rest = expenses.drop_last();
        assert forall|i: int| 0 <= i < rest.len() implies valid_record(#[trigger] rest[i]) by {
            assert(rest[i] == expenses[i]);
        }
        lemma_total_cost_bound(rest);
        assert(expenses.len() * u32::MAX == rest.len() * u32::MAX + u32::MAX) by (nonlinear_arith)
            requires
                expenses.len() == rest.len() + 1,
        ;
    }
}

/// Every operation keeps the invariant of the ledger.
pub proof fn lemma_operations_keep_well_formed(
    ledger: ContentView,
    name: Seq<char>,
    cost: Option<u32>,
    due_date: u32,
    month: u32,
    year: i32,
    income: u32,
)
    requires
        well_formed(ledger),
        name.len() > 0,
    ensures
        well_formed(after_add(ledger, name, cost, due_date, month, year)),
        well_formed(after_remove(ledger, name)),
        well_formed(after_pay(ledger, name)),
        well_formed(after_reset_paid(ledger)),
        well_formed(after_set_income(ledger, income)),
        i128::MIN <= after_update_net_worth(ledger).net_worth <= i128::MAX ==> well_formed(
            after_update_net_worth(ledger),
        ),
{
    if add_outcome(ledger, name, due_date, month, year) is Ok {
        let after = after_add(ledger, name, cost, due_date, month, year).expenses;
        assert forall|a: int, b: int| 0 <= a < b < after.len() implies (#[trigger] after[a]).name
            != (#[trigger] after[b]).name by {
            if b < ledger.expenses.len() {
                assert(ledger.expenses[a].name != ledger.expenses[b].name);
            } else {
                assert(ledger.expenses[a].name != name);
            }
        }
    }
    if has_name(ledger.expenses, name) {
        let i = index_of(ledger.expenses, name);
        let removed = after_remove(ledger, name).expenses;
        assert forall|a: int, b: int| 0 <= a < b < removed.len() implies (
        #[trigger] removed[a]).name != (#[trigger] removed[b]).name by {
            let from_a = if a < i { a } else { a + 1 };
            let from_b = if b < i { b } else { b + 1 };
            assert(ledger.expenses[from_a].name != ledger.expenses[from_b].name);
        }
        assert forall|a: int| 0 <= a < removed.len() implies valid_record(
            #[trigger] removed[a],
        ) by {
            let from_a = if a < i { a } else { a + 1 };
            assert(valid_record(ledger.expenses[from_a]));
        }
        let paid = after_pay(ledger, name).expenses;
        assert forall|a: int, b: int| 0 <= a < b < paid.len() implies (#[trigger] paid[a]).name != (
        #[trigger] paid[b]).name by {
            assert(ledger.expenses[a].name != ledger.expenses[b].name);
        }
        assert forall|a: int| 0 <= a < paid.len() implies valid_record(#[trigger] paid[a]) by {
            assert(valid_record(ledger.expenses[a]));
        }
    }
    let reset = after_reset_paid(ledger).expenses;
    assert forall|a: int, b: int| 0 <= a < b < reset.len() implies (#[trigger] reset[a]).name != (
    #[trigger] reset[b]).name by {
        assert(ledger.expenses[a].name != ledger.expenses[b].name);
    }
    assert forall|a: int| 0 <= a < reset.len() implies valid_record(#[trigger] reset[a]) by {
        assert(valid_record(ledger.expenses[a]));
    }
}

/// An edit that is accepted keeps the invariant of the ledger.
pub proof fn lemma_edit_keeps_well_formed(
    ledger: ContentView,
    name: Seq<char>,
    new_name: Option<Seq<char>>,
    new_cost: Option<u32>,
    new_due_date: Option<u32>,
    month: u32,
    year: i32,
)
    requires
        well_formed(ledger),
        new_name is Some ==> new_name->0.len() > 0,
    ensures
        well_formed(after_edit(ledger, name, new_name, new_cost, new_due_date, month, year)),
{
    if edit_outcome(ledger, name, new_name, new_due_date, month, year) is Ok {
        let i = index_of(ledger.expenses, name);
        let before = ledger.expenses;
        let after = after_edit(ledger, name, new_name, new_cost, new_due_date, month, year).expenses;
        assert(valid_record(before[i]));
        assert forall|a: int| 0 <= a < after.len() implies valid_record(#[trigger] after[a]) by {
            assert(valid_record(before[a]));
        }
        assert forall|a: int, b: int| 0 <= a < b < after.len() implies (#[trigger] after[a]).name
            != (#[trigger] after[b]).name by {
            assert(before[a].name != before[b].name);
            if after[i].name != name {
                assert(!has_name(before, after[i].name));
            }
        }
    }
}

/// A record added under a fresh name, with a day that the month has and no
/// cost given, is found under that name afterwards, unpaid and free of cost.
pub proof fn lemma_add_then_find(
    ledger: ContentView,
    name: Seq<char>,
    due_date: u32,
    month: u32,
    year: i32,
)
    requires
        well_formed(ledger),
        name.len() > 0,
        !has_name(ledger.expenses, name),
        valid_day(due_date, month, year),
    ensures
        add_outcome(ledger, name, due_date, month, year) is Ok,
        has_name(after_add(ledger, name, None, due_date, month, year).expenses, name),
        ({
            let after = after_add(ledger, name, None, due_date, month, year).expenses;
            let found = after[index_of(after, name)];
            found.name == name && !found.paid && found.cost == 0 && found.due_date == due_date
        }),
{
    lemma_operations_keep_well_formed(ledger, name, None, due_date, month, year, 0);
    let after = after_add(ledger, name, None, due_date, month, year).expenses;
    assert(after[ledger.expenses.len() as int].name == name);
    lemma_index_of(after, name, ledger.expenses.len() as int);
}

/// Adding under a name that is taken is refused as a duplicate, whatever the
/// day, and changes nothing.
pub proof fn lemma_add_duplicate(
    ledger: ContentView,
    name: Seq<char>,
    cost: Option<u32>,
    due_date: u32,
    month: u32,
    year: i32,
)
    requires
        has_name(ledger.expenses, name),
    ensures
        add_outcome(ledger, name, due_date, month, year) == Err::<(), LedgerError>(
            LedgerError::DuplicateName,
        ),
        after_add(ledger, name, cost, due_date, month, year) == ledger,
{
}

/// A due date of 0, one past 31, or one past the 28th in February of a year
/// not divisible by four is refused: on adding under a fresh name, and on
/// editing a record that exists without a clash of names. Either way the
/// ledger is unchanged. The 29th of February of a year divisible by four
/// passes.
pub proof fn lemma_invalid_due_date(
    ledger: ContentView,
    name: Seq<char>,
    cost: Option<u32>,
    due_date: u32,
    month: u32,
    year: i32,
)
    requires
        due_date == 0 || due_date > 31 || (month == 2 && year % 4 != 0 && due_date > 28),
    ensures
        !valid_day(due_date, month, year),
        valid_day(29, 2, year) <==> year % 4 == 0,
        !has_name(ledger.expenses, name) ==> add_outcome(ledger, name, due_date, month, year)
            == Err::<(), LedgerError>(LedgerError::InvalidDueDate) && after_add(
            ledger,
            name,
            cost,
            due_date,
            month,
            year,
        ) == ledger,
        has_name(ledger.expenses, name) ==> edit_outcome(
            ledger,
            name,
            None,
            Some(due_date),
            month,
            year,
        ) == Err::<(), LedgerError>(LedgerError::InvalidDueDate) && after_edit(
            ledger,
            name,
            None,
            cost,
            Some(due_date),
            month,
            year,
        ) == ledger,
{
}

/// Once a record is removed, removing it again finds nothing.
pub proof fn lemma_remove_twice(ledger: ContentView, name: Seq<char>)
    requires
        well_formed(ledger),
        has_name(ledger.expenses, name),
    ensures
        lookup_outcome(ledger, name) is Ok,
        lookup_outcome(after_remove(ledger, name), name) == Err::<(), LedgerError>(
            LedgerError::NotFound,
        ),
        after_remove(after_remove(ledger, name), name) == after_remove(ledger, name),
{
    let i = index_of(ledger.expenses, name);
    let removed = after_remove(ledger, name).expenses;
    assert forall|a: int| 0 <= a < removed.len() implies (#[trigger] removed[a]).name != name by {
        let from_a = if a < i { a } else { a + 1 };
        if from_a < i {
            assert(ledger.expenses[from_a].name != ledger.expenses[i].name);
        } else {
            assert(ledger.expenses[i].name != ledger.expenses[from_a].name);
        }
    }
}

/// Paying a record twice restores the ledger.
pub proof fn lemma_pay_twice(ledger: ContentView, name: Seq<char>)
    requires
        well_formed(ledger),
    ensures
        after_pay(after_pay(ledger, name), name) == ledger,
{
    if has_name(ledger.expenses, name) {
        let i = index_of(ledger.expenses, name);
        let once = after_pay(ledger, name);
        lemma_operations_keep_well_formed(ledger, name, None, 1, 1, 0, 0);
        assert(once.expenses[i].name == name);
        lemma_index_of(once.expenses, name, i);
        assert(after_pay(once, name).expenses =~= ledger.expenses);
    }
}

/// After a reset no record is paid; a ledger without a paid record is left as
/// it is, so resetting twice is resetting once.
pub proof fn lemma_reset_paid(ledger: ContentView)
    ensures
        after_reset_paid(ledger).expenses.len() == ledger.expenses.len(),
        forall|i: int|
            0 <= i < ledger.expenses.len() ==> !(#[trigger] after_reset_paid(
                ledger,
            ).expenses[i]).paid,
        (forall|i: int| 0 <= i < ledger.expenses.len() ==> !(#[trigger] ledger.expenses[i]).paid)
            ==> after_reset_paid(ledger) == ledger,
        after_reset_paid(after_reset_paid(ledger)) == after_reset_paid(ledger),
{
    if forall|i: int| 0 <= i < ledger.expenses.len() ==> !(#[trigger] ledger.expenses[i]).paid {
        assert(after_reset_paid(ledger).expenses =~= ledger.expenses);
    }
    assert(after_reset_paid(after_reset_paid(ledger)).expenses =~= after_reset_paid(
        ledger,
    ).expenses);
}

/// The net worth that a recomputation sets is income less the total cost: the
/// new income where one was set just before, and zero for the empty ledger. A
/// second recomputation changes nothing.
pub proof fn lemma_update_net_worth(ledger: ContentView, income: u32)
    ensures
        after_update_net_worth(ledger).net_worth == ledger.income - total_cost(ledger.expenses),
        after_update_net_worth(after_set_income(ledger, income)).net_worth == income - total_cost(
            ledger.expenses,
        ),
        after_update_net_worth(empty_ledger()).net_worth == 0,
        after_update_net_worth(after_update_net_worth(ledger)) == after_update_net_worth(ledger),
{
}

/// The total cost grows by the cost of a record added at the end, so the net
/// worth computed after an addition is lower by that cost.
pub proof fn lemma_total_cost_push(expenses: Seq<ExpenseView>, record: ExpenseView)
    ensures
        total_cost(expenses.push(record)) == total_cost(expenses) + record.cost,
{
    assert(expenses.push(record).drop_last() =~= expenses);
}

} // verus!
