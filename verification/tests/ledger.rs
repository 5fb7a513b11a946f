use expense_ledger::expense::Expense;
use expense_ledger::ledger::{Content, LedgerError};

fn rent_and_internet() -> Content {
    let mut state = Content::new();
    assert_eq!(state.add_expense_in_month("Rent", Some(1200), 1, 3, 2023), Ok(()));
    assert_eq!(state.add_expense_in_month("Internet", Some(60), 15, 3, 2023), Ok(()));
    state
}

#[test]
fn new_ledger_is_empty() {
    let state = Content::new();
    assert!(state.expenses().is_empty());
    assert_eq!(state.income(), 0);
    assert_eq!(state.net_worth(), 0);
    assert_eq!(state.sum_expenses(), 0);
}

#[test]
fn builder_defaults_to_unpaid_and_free() {
    let record = Expense::new("Gym".to_string(), 7).build();
    assert_eq!(
        record,
        Expense { name: "Gym".to_string(), cost: 0, paid: false, due_date: 7 }
    );
}

#[test]
fn builder_takes_a_cost() {
    let record = Expense::new("Gym".to_string(), 7).cost(35).build();
    assert_eq!(
        record,
        Expense { name: "Gym".to_string(), cost: 35, paid: false, due_date: 7 }
    );
}

#[test]
fn builder_keeps_the_last_cost() {
    let mut builder = Expense::new("Gym".to_string(), 7);
    builder.cost(35).cost(40);
    assert_eq!(builder.build().cost, 40);
}

#[test]
fn add_without_cost_is_found_unpaid_and_free() {
    let mut state = Content::new();
    assert_eq!(state.add_expense_in_month("Water", None, 10, 6, 2023), Ok(()));
    let found = state.find("Water").expect("the record was added");
    assert_eq!(found.name, "Water");
    assert_eq!(found.cost, 0);
    assert!(!found.paid);
    assert_eq!(found.due_date, 10);
}

#[test]
fn add_appends_in_order() {
    let state = rent_and_internet();
    let names: Vec<&str> = state.expenses().iter().map(|e| e.name.as_str()).collect();
    assert_eq!(names, vec!["Rent", "Internet"]);
}

#[test]
fn add_duplicate_is_refused_and_changes_nothing() {
    let mut state = rent_and_internet();
    let before = state.get_content();
    assert_eq!(
        state.add_expense_in_month("Rent", Some(5), 2, 3, 2023),
        Err(LedgerError::DuplicateName)
    );
    assert_eq!(state, before);
}

#[test]
fn add_duplicate_comes_before_the_date() {
    let mut state = rent_and_internet();
    assert_eq!(
        state.add_expense_in_month("Rent", Some(5), 0, 3, 2023),
        Err(LedgerError::DuplicateName)
    );
}

#[test]
fn add_rejects_day_zero_and_day_thirty_two() {
    let mut state = Content::new();
    assert_eq!(
        state.add_expense_in_month("A", None, 0, 1, 2023),
        Err(LedgerError::InvalidDueDate)
    );
    assert_eq!(
        state.add_expense_in_month("A", None, 32, 1, 2023),
        Err(LedgerError::InvalidDueDate)
    );
    assert!(state.expenses().is_empty());
}

#[test]
fn add_rejects_thirtieth_of_february() {
    let mut state = Content::new();
    assert_eq!(
        state.add_expense_in_month("A", None, 30, 2, 2023),
        Err(LedgerError::InvalidDueDate)
    );
    assert_eq!(
        state.add_expense_in_month("A", None, 29, 2, 2023),
        Err(LedgerError::InvalidDueDate)
    );
    assert!(state.expenses().is_empty());
}

#[test]
fn add_accepts_twenty_ninth_of_february_in_a_year_divisible_by_four() {
    let mut state = Content::new();
    assert_eq!(state.add_expense_in_month("A", None, 29, 2, 2024), Ok(()));
    assert_eq!(state.add_expense_in_month("B", None, 29, 2, 1900), Ok(()));
    assert_eq!(state.expenses().len(), 2);
}

#[test]
fn add_with_the_clock_accepts_a_day_that_every_month_has() {
    let mut state = Content::new();
    assert_eq!(state.add_expense("Rent", Some(1200), 1), Ok(()));
    assert_eq!(state.add_expense("Internet", None, 28), Ok(()));
    assert_eq!(state.expenses().len(), 2);
}

#[test]
fn add_with_the_clock_rejects_a_day_that_no_month_has() {
    let mut state = Content::new();
    assert_eq!(state.add_expense("Rent", None, 0), Err(LedgerError::InvalidDueDate));
    assert_eq!(state.add_expense("Rent", None, 32), Err(LedgerError::InvalidDueDate));
    assert!(state.expenses().is_empty());
}

#[test]
fn remove_keeps_the_order_of_the_rest() {
    let mut state = rent_and_internet();
    assert_eq!(state.add_expense_in_month("Phone", Some(20), 5, 3, 2023), Ok(()));
    assert_eq!(state.remove_expense("Internet"), Ok(()));
    let names: Vec<&str> = state.expenses().iter().map(|e| e.name.as_str()).collect();
    assert_eq!(names, vec!["Rent", "Phone"]);
}

#[test]
fn remove_twice_fails_the_second_time() {
    let mut state = rent_and_internet();
    assert_eq!(state.remove_expense("Rent"), Ok(()));
    let after_first = state.get_content();
    assert_eq!(state.remove_expense("Rent"), Err(LedgerError::NotFound));
    assert_eq!(state, after_first);
}

#[test]
fn remove_from_an_empty_ledger_finds_nothing() {
    let mut state = Content::new();
    assert_eq!(state.remove_expense("Rent"), Err(LedgerError::NotFound));
    assert_eq!(state.remove_expense(""), Err(LedgerError::NotFound));
}

#[test]
fn pay_toggles() {
    let mut state = rent_and_internet();
    assert_eq!(state.pay_expense("Rent"), Ok(()));
    assert!(state.find("Rent").unwrap().paid);
    assert!(!state.find("Internet").unwrap().paid);
    assert_eq!(state.pay_expense("Rent"), Ok(()));
    assert!(!state.find("Rent").unwrap().paid);
    assert_eq!(state, rent_and_internet());
}

#[test]
fn pay_unknown_finds_nothing() {
    let mut state = rent_and_internet();
    assert_eq!(state.pay_expense("Gym"), Err(LedgerError::NotFound));
    assert_eq!(state, rent_and_internet());
}

#[test]
fn reset_paid_clears_every_flag() {
    let mut state = rent_and_internet();
    assert_eq!(state.pay_expense("Rent"), Ok(()));
    assert_eq!(state.pay_expense("Internet"), Ok(()));
    state.reset_paid();
    assert!(state.expenses().iter().all(|e| !e.paid));
    assert_eq!(state, rent_and_internet());
}

#[test]
fn reset_paid_leaves_an_unpaid_ledger_as_it_is() {
    let mut state = rent_and_internet();
    state.reset_paid();
    assert_eq!(state, rent_and_internet());
    let mut empty = Content::new();
    empty.reset_paid();
    assert_eq!(empty, Content::new());
}

#[test]
fn net_worth_is_income_less_costs() {
    let mut state = Content::new();
    state.set_income(1000);
    assert_eq!(state.add_expense_in_month("A", Some(100), 1, 1, 2023), Ok(()));
    assert_eq!(state.add_expense_in_month("B", Some(200), 2, 1, 2023), Ok(()));
    assert_eq!(state.sum_expenses(), 300);
    state.update_net_worth();
    assert_eq!(state.net_worth(), 700);
}

#[test]
fn net_worth_may_be_negative() {
    let mut state = Content::new();
    state.set_income(10);
    assert_eq!(state.add_expense_in_month("A", Some(u32::MAX), 1, 1, 2023), Ok(()));
    assert_eq!(state.add_expense_in_month("B", Some(u32::MAX), 2, 1, 2023), Ok(()));
    state.update_net_worth();
    assert_eq!(state.net_worth(), 10 - 2 * (u32::MAX as i128));
}

#[test]
fn net_worth_of_the_empty_ledger_is_its_income() {
    let mut state = Content::new();
    state.update_net_worth();
    assert_eq!(state.net_worth(), 0);
    state.set_income(55);
    state.update_net_worth();
    assert_eq!(state.net_worth(), 55);
}

#[test]
fn net_worth_is_stale_until_recomputed() {
    let mut state = rent_and_internet();
    state.set_income(3000);
    assert_eq!(state.net_worth(), 0);
    state.update_net_worth();
    assert_eq!(state.net_worth(), 1740);
    assert_eq!(state.remove_expense("Rent"), Ok(()));
    assert_eq!(state.net_worth(), 1740);
}

#[test]
fn edit_unknown_finds_nothing() {
    let mut state = rent_and_internet();
    assert_eq!(
        state.edit_expense_in_month("Gym", None, Some(1), Some(0), 3, 2023),
        Err(LedgerError::NotFound)
    );
    assert_eq!(state, rent_and_internet());
}

#[test]
fn edit_replaces_only_what_is_supplied() {
    let mut state = rent_and_internet();
    assert_eq!(state.pay_expense("Rent"), Ok(()));
    assert_eq!(state.edit_expense_in_month("Rent", None, Some(1300), None, 3, 2023), Ok(()));
    assert_eq!(
        state.expenses()[0],
        Expense { name: "Rent".to_string(), cost: 1300, paid: true, due_date: 1 }
    );
    assert_eq!(
        state.edit_expense_in_month("Rent", Some("Flat"), None, Some(31), 3, 2023),
        Ok(())
    );
    assert_eq!(
        state.expenses()[0],
        Expense { name: "Flat".to_string(), cost: 1300, paid: true, due_date: 31 }
    );
    assert_eq!(state.expenses()[1].name, "Internet");
    assert_eq!(state.expenses().len(), 2);
}

#[test]
fn edit_with_nothing_supplied_changes_nothing() {
    let mut state = rent_and_internet();
    assert_eq!(state.edit_expense_in_month("Rent", None, None, None, 2, 2023), Ok(()));
    assert_eq!(state, rent_and_internet());
}

#[test]
fn edit_rejects_an_invalid_day() {
    let mut state = rent_and_internet();
    for day in [0, 32, 30, 29] {
        assert_eq!(
            state.edit_expense_in_month("Rent", None, Some(9), Some(day), 2, 2023),
            Err(LedgerError::InvalidDueDate)
        );
    }
    assert_eq!(state, rent_and_internet());
    assert_eq!(state.edit_expense_in_month("Rent", None, None, Some(29), 2, 2024), Ok(()));
    assert_eq!(state.find("Rent").unwrap().due_date, 29);
}

#[test]
fn edit_rejects_the_name_of_another_record() {
    let mut state = rent_and_internet();
    assert_eq!(
        state.edit_expense_in_month("Rent", Some("Internet"), None, None, 3, 2023),
        Err(LedgerError::DuplicateName)
    );
    assert_eq!(state, rent_and_internet());
    assert_eq!(
        state.edit_expense_in_month("Rent", Some("Rent"), Some(1), None, 3, 2023),
        Ok(())
    );
    assert_eq!(state.find("Rent").unwrap().cost, 1);
}

#[test]
fn edit_with_the_clock() {
    let mut state = rent_and_internet();
    assert_eq!(state.edit_expense("Rent", None, Some(1250), Some(28)), Ok(()));
    assert_eq!(state.find("Rent").unwrap().cost, 1250);
    assert_eq!(state.find("Rent").unwrap().due_date, 28);
    assert_eq!(
        state.edit_expense("Rent", None, None, Some(32)),
        Err(LedgerError::InvalidDueDate)
    );
    assert_eq!(state.edit_expense("Gym", None, None, None), Err(LedgerError::NotFound));
}

#[test]
fn snapshot_is_a_copy() {
    let mut state = rent_and_internet();
    let snapshot = state.get_content();
    assert_eq!(snapshot, state);
    assert_eq!(state.remove_expense("Rent"), Ok(()));
    assert_eq!(snapshot, rent_and_internet());
}

#[test]
fn from_parts_accepts_a_ledger() {
    let records = vec![
        Expense { name: "Rent".to_string(), cost: 1200, paid: true, due_date: 31 },
        Expense { name: "Internet".to_string(), cost: 60, paid: false, due_date: 1 },
    ];
    let state = Content::from_parts(records.clone(), 3000, -5).expect("a ledger");
    assert_eq!(state.expenses(), &records);
    assert_eq!(state.income(), 3000);
    assert_eq!(state.net_worth(), -5);
}

#[test]
fn from_parts_refuses_what_is_no_ledger() {
    let record = |name: &str, due_date: u32| Expense {
        name: name.to_string(),
        cost: 1,
        paid: false,
        due_date,
    };
    assert_eq!(Content::from_parts(vec![record("A", 1), record("A", 2)], 0, 0), None);
    assert_eq!(Content::from_parts(vec![record("A", 1), record("B", 2), record("A", 3)], 0, 0), None);
    assert_eq!(Content::from_parts(vec![record("", 1)], 0, 0), None);
    assert_eq!(Content::from_parts(vec![record("A", 0)], 0, 0), None);
    assert_eq!(Content::from_parts(vec![record("A", 32)], 0, 0), None);
    assert!(Content::from_parts(vec![record("A", 31), record("B", 1)], 0, 0).is_some());
}

#[test]
fn rent_and_internet_month() {
    let mut state = Content::new();
    assert_eq!(state.add_expense("Rent", Some(1200), 1), Ok(()));
    assert_eq!(state.add_expense("Internet", Some(60), 15), Ok(()));
    state.set_income(3000);
    state.update_net_worth();
    assert_eq!(state.net_worth(), 1740);
    assert_eq!(state.pay_expense("Rent"), Ok(()));
    assert!(state.find("Rent").unwrap().paid);
    state.reset_paid();
    assert!(!state.find("Rent").unwrap().paid);
    assert_eq!(state.remove_expense("Internet"), Ok(()));
    assert_eq!(state.expenses().len(), 1);
    assert_eq!(state.expenses()[0].name, "Rent");
    assert!(state.find("Internet").is_none());
}
