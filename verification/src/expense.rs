//! The expense record and the builder that creates one.

use vstd::prelude::*;

verus! {

/// What an expense record says, as mathematical values.
pub struct ExpenseView {
    pub name: Seq<char>,
    pub cost: nat,
    pub paid: bool,
    pub due_date: nat,
}

/// One recurring monthly obligation. Costs are whole currency units.
#[derive(Debug, PartialEq, Eq)]
pub struct Expense {
    pub name: String,
    pub cost: u32,
    pub paid: bool,
    pub due_date: u32,
}

impl View for Expense {
    type V = ExpenseView;

    open spec fn view(&self) -> ExpenseView {
        ExpenseView {
            name: self.name@,
            cost: self.cost as nat,
            paid: self.paid,
            due_date: self.due_date as nat,
        }
    }
}

impl Clone for Expense {
    fn clone(&self) -> (copy: Self)
        ensures
            copy == *self,
    {
        Expense {
            name: self.name.clone(),
            cost: self.cost,
            paid: self.paid,
            due_date: self.due_date,
        }
    }
}

impl Expense {
    /// Starts a record that is unpaid and, until a cost is given, free.
    pub fn new(name: String, due_date: u32) -> (builder: ExpenseBuilder)
        ensures
            builder@ == (ExpenseView {
                name: name@,
                cost: 0,
                paid: false,
                due_date: due_date as nat,
            }),
    {
        ExpenseBuilder { name, cost: None, paid: false, due_date }
    }
}

/// A record in the making; its view is the record that `build` would return now.
pub struct ExpenseBuilder {
    name: String,
    cost: Option<u32>,
    paid: bool,
    due_date: u32,
}

impl View for ExpenseBuilder {
    type V = ExpenseView;

    closed spec fn view(&self) -> ExpenseView {
        ExpenseView {
            name: self.name@,
            cost: match self.cost {
                Some(cost) => cost as nat,
                None => 0,
            },
            paid: self.paid,
            due_date: self.due_date as nat,
        }
    }
}

impl ExpenseBuilder {
    /// Sets the cost of the record being built and leaves the rest as it was.
    pub fn cost(&mut self, cost: u32) -> (builder: &mut Self)
        ensures
            builder@ == (ExpenseView { cost: cost as nat, ..old(self)@ }),
            *final(self) == *final(builder),
    {
        self.cost = Some(cost);
        self
    }

    /// The record as it stands: the cost is zero if none was given.
    pub fn build(&self) -> (expense: Expense)
        ensures
            expense@ == self@,
    {
        Expense {
            name: self.name.clone(),
            cost: match self.cost {
                Some(cost) => cost,
                None => 0,
            },
            paid: self.paid,
            due_date: self.due_date,
        }
    }
}

} // verus!
