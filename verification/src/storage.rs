//! The ledger as a JSON document, and the text of the file that holds it.
//!
//! The document is an object with the members `income`, `net_worth` and
//! `expenses`, written in this order; each expense is an object with the
//! members `name`, `cost`, `paid` and `due_date`, in this order. A document is
//! read whatever the order of its members. All numbers are whole.

use crate::expense::{Expense, ExpenseView};
use crate::json::{
    bool_of, bool_value, integer_of, integer_value, items_of, json_of, json_parse, json_pretty,
    jsons_of, list_value, lookup, member, member_of, members_of, object_value, parse_value,
    pretty_text, text_of, text_value, Json,
};
use crate::ledger::{
    empty_ledger, valid_record, views, well_formed, Content, ContentView, LedgerError,
};
use vstd::prelude::*;

verus! {

/// The document that stands for one record: its four members in the order
/// name, cost, paid, due date.
pub open spec fn record_json(record: ExpenseView) -> Json {
    Json::Object(
        Seq::empty().push(("name"@, Json::Text(record.name))).push(
            ("cost"@, Json::Integer(record.cost as int)),
        ).push(("paid"@, Json::Bool(record.paid))).push(
            ("due_date"@, Json::Integer(record.due_date as int)),
        ),
    )
}

/// The document that stands for a ledger: its three members in the order
/// income, net worth, expenses, the expenses in the order of the ledger.
pub open spec fn ledger_json(ledger: ContentView) -> Json {
    Json::Object(
        Seq::empty().push(("income"@, Json::Integer(ledger.income as int))).push(
            ("net_worth"@, Json::Integer(ledger.net_worth)),
        ).push(
            (
                "expenses"@,
                Json::List(ledger.expenses.map_values(|record: ExpenseView| record_json(record))),
            ),
        ),
    )
}

/// The whole number under `key`, where it fits in 64 signed bits.
pub open spec fn integer_member(doc: Json, key: Seq<char>) -> Option<int> {
    match member_of(doc, key) {
        Some(inner) => integer_of(inner),
        None => None,
    }
}

/// The amount under `key`: a whole number from 0 to `u32::MAX`.
pub open spec fn amount_member(doc: Json, key: Seq<char>) -> Option<nat> {
    match integer_member(doc, key) {
        Some(i) => if 0 <= i <= u32::MAX {
            Some(i as nat)
        } else {
            None
        },
        None => None,
    }
}

/// The text under `key`.
pub open spec fn text_member(doc: Json, key: Seq<char>) -> Option<Seq<char>> {
    match member_of(doc, key) {
        Some(inner) => text_of(inner),
        None => None,
    }
}

/// The truth value under `key`.
pub open spec fn bool_member(doc: Json, key: Seq<char>) -> Option<bool> {
    match member_of(doc, key) {
        Some(inner) => bool_of(inner),
        None => None,
    }
}

/// The items under `key`.
pub open spec fn items_member(doc: Json, key: Seq<char>) -> Option<Seq<Json>> {
    match member_of(doc, key) {
        Some(inner) => items_of(inner),
        None => None,
    }
}

/// The record that a document stands for, if it has all four members, each of
/// its kind. Other members are passed over.
pub open spec fn json_record(doc: Json) -> Option<ExpenseView> {
    if text_member(doc, "name"@) is Some && amount_member(doc, "cost"@) is Some && bool_member(
        doc,
        "paid"@,
    ) is Some && amount_member(doc, "due_date"@) is Some {
        Some(
            ExpenseView {
                name: text_member(doc, "name"@)->0,
                cost: amount_member(doc, "cost"@)->0,
                paid: bool_member(doc, "paid"@)->0,
                due_date: amount_member(doc, "due_date"@)->0,
            },
        )
    } else {
        None
    }
}

/// The records that a list of documents stands for, if each stands for one.
pub open spec fn json_records(items: Seq<Json>) -> Option<Seq<ExpenseView>> {
    if forall|i: int| 0 <= i < items.len() ==> (#[trigger] json_record(items[i])) is Some {
        Some(Seq::new(items.len(), |i: int| json_record(items[i])->0))
    } else {
        None
    }
}

/// The ledger that a document stands for: it has the three members, each of
/// its kind, and what they hold is a well-formed ledger.
pub open spec fn json_ledger(doc: Json) -> Option<ContentView> {
    if amount_member(doc, "income"@) is Some && integer_member(doc, "net_worth"@) is Some
        && items_member(doc, "expenses"@) is Some && json_records(
        items_member(doc, "expenses"@)->0,
    ) is Some {
        let ledger = ContentView {
            expenses: json_records(items_member(doc, "expenses"@)->0)->0,
            income: amount_member(doc, "income"@)->0,
            net_worth: integer_member(doc, "net_worth"@)->0,
        };
        if well_formed(ledger) {
            Some(ledger)
        } else {
            None
        }
    } else {
        None
    }
}

/// The ledger that the text of a file stands for; nothing where the text is
/// not JSON or the document is not a ledger.
pub open spec fn text_ledger(text: Seq<char>) -> Option<ContentView> {
    match json_parse(text) {
        Some(doc) => json_ledger(doc),
        None => None,
    }
}

/// Whether a net worth can be written as a JSON number that is read back
/// as it is.
pub open spec fn writable(ledger: ContentView) -> bool {
    i64::MIN <= ledger.net_worth <= i64::MAX
}

/// The amount under `key` of `doc`.
fn read_amount(doc: &serde_json::Value, key: &str) -> (amount: Option<u32>)
    ensures
        match amount {
            Some(a) => amount_member(json_of(*doc), key@) == Some(a as nat),
            None => amount_member(json_of(*doc), key@) is None,
        },
{
    match member(doc, key) {
        Some(inner) => match inner.as_i64() {
            Some(i) => if 0 <= i && i <= u32::MAX as i64 {
                Some(i as u32)
            } else {
                None
            },
            None => None,
        },
        None => None,
    }
}

/// The record that `doc` stands for.
pub fn record_from_value(doc: &serde_json::Value) -> (record: Option<Expense>)
    ensures
        match record {
            Some(r) => json_record(json_of(*doc)) == Some(r@),
            None => json_record(json_of(*doc)) is None,
        },
{
    let name = match member(doc, "name") {
        Some(inner) => match inner.as_str() {
            Some(text) => text.to_owned(),
            None => {
                return None;
            },
        },
        None => {
            return None;
        },
    };
    let cost = match read_amount(doc, "cost") {
        Some(cost) => cost,
        None => {
            return None;
        },
    };
    let paid = match member(doc, "paid") {
        Some(inner) => match inner.as_bool() {
            Some(paid) => paid,
            None => {
                return None;
            },
        },
        None => {
            return None;
        },
    };
    let due_date = match read_amount(doc, "due_date") {
        Some(day) => day,
        None => {
            return None;
        },
    };
    Some(Expense { name, cost, paid, due_date })
}

/// The ledger that `doc` stands for.
pub fn ledger_from_value(doc: &serde_json::Value) -> (ledger: Option<Content>)
    ensures
        match ledger {
            Some(state) => json_ledger(json_of(*doc)) == Some(state@),
            None => json_ledger(json_of(*doc)) is None,
        },
{
    let income = match read_amount(doc, "income") {
        Some(income) => income,
        None => {
            return None;
        },
    };
    let net_worth = match member(doc, "net_worth") {
        Some(inner) => match inner.as_i64() {
            Some(net_worth) => net_worth,
            None => {
                return None;
            },
        },
        None => {
            return None;
        },
    };
    let items = match member(doc, "expenses") {
        Some(inner) => match inner.as_array() {
            Some(items) => items,
            None => {
                return None;
            },
        },
        None => {
            return None;
        },
    };
    let ghost docs = jsons_of(items@);
    assert(items_member(json_of(*doc), "expenses"@) == Some(docs));
    let mut records: Vec<Expense> = Vec::new();
    let mut i: usize = 0;
    while i < items.len()
        invariant
            i <= items.len(),
            docs == jsons_of(items@),
            items_member(json_of(*doc), "expenses"@) == Some(docs),
            records@.len() == i,
            forall|k: int|
                0 <= k < i ==> (#[trigger] json_record(docs[k])) == Some(records@[k]@),
        decreases items.len() - i,
    {
        match record_from_value(&items[i]) {
            Some(record) => {
                records.push(record);
            },
            None => {
                assert(json_record(docs[i as int]) is None);
                assert(json_records(docs) is None);
                return None;
            },
        }
        i += 1;
    }
    proof {
        assert(json_records(docs) is Some);
        assert(views(records@) =~= json_records(docs)->0);
    }
    Content::from_parts(records, income, net_worth as i128)
}

/// Among members with one more at the end, a key finds that one if it is its
/// key, and otherwise what it found before.
proof fn lemma_lookup_push(members: Seq<(Seq<char>, Json)>, member: (Seq<char>, Json))
    ensures
        forall|key: Seq<char>| #[trigger]
            lookup(members.push(member), key) == if member.0 == key {
                Some(member.1)
            } else {
                lookup(members, key)
            },
{
    assert(members.push(member).drop_last() =~= members);
}

/// The value that stands for `record`.
pub fn record_to_value(record: &Expense) -> (doc: serde_json::Value)
    ensures
        json_of(doc) == record_json(record@),
{
    let mut entries: Vec<(String, serde_json::Value)> = Vec::new();
    let name = ("name".to_owned(), text_value(record.name.clone()));
    let cost = ("cost".to_owned(), integer_value(record.cost as i64));
    let paid = ("paid".to_owned(), bool_value(record.paid));
    let due_date = ("due_date".to_owned(), integer_value(record.due_date as i64));
    proof {
        reveal_strlit("name");
        reveal_strlit("cost");
        reveal_strlit("paid");
        reveal_strlit("due_date");
    }
    entries.push(name);
    entries.push(cost);
    entries.push(paid);
    entries.push(due_date);
    assert("name"@.len() == 4 && "cost"@[0] == 'c' && "paid"@[0] == 'p' && "due_date"@.len() == 8
        && "name"@[0] == 'n');
    assert(Json::Object(members_of(entries@)) == record_json(record@)) by {
        assert(members_of(entries@) =~= record_json(record@)->Object_0);
    }
    object_value(entries)
}

/// The value that stands for the ledger; nothing where its net worth is not
/// writable.
pub fn ledger_to_value(state: &Content) -> (doc: Option<serde_json::Value>)
    ensures
        match doc {
            Some(value) => writable(state@) && json_of(value) == ledger_json(state@),
            None => !writable(state@),
        },
{
    let net_worth = state.net_worth();
    if net_worth < i64::MIN as i128 || net_worth > i64::MAX as i128 {
        return None;
    }
    let records = state.expenses();
    let mut items: Vec<serde_json::Value> = Vec::new();
    let mut i: usize = 0;
    while i < records.len()
        invariant
            i <= records.len(),
            items@.len() == i,
            forall|k: int|
                0 <= k < i ==> json_of(#[trigger] items@[k]) == record_json(records@[k]@),
        decreases records.len() - i,
    {
        items.push(record_to_value(&records[i]));
        i += 1;
    }
    let mut entries: Vec<(String, serde_json::Value)> = Vec::new();
    let income = ("income".to_owned(), integer_value(state.income() as i64));
    let worth = ("net_worth".to_owned(), integer_value(net_worth as i64));
    proof {
        assert(jsons_of(items@) =~= state@.expenses.map_values(
            |record: ExpenseView| record_json(record),
        ));
    }
    let expenses = ("expenses".to_owned(), list_value(items));
    proof {
        reveal_strlit("income");
        reveal_strlit("net_worth");
        reveal_strlit("expenses");
    }
    entries.push(income);
    entries.push(worth);
    entries.push(expenses);
    assert("income"@[0] == 'i' && "net_worth"@[0] == 'n' && "expenses"@[0] == 'e');
    assert(Json::Object(members_of(entries@)) == ledger_json(state@)) by {
        assert(members_of(entries@) =~= ledger_json(state@)->Object_0);
    }
    Some(object_value(entries))
}

/// The document in `content`, or the document of the empty ledger where
/// `content` is not JSON.
pub fn get_json(content: &str) -> (doc: serde_json::Value)
    ensures
        json_of(doc) == match json_parse(content@) {
            Some(parsed) => parsed,
            None => ledger_json(empty_ledger()),
        },
{
    match parse_value(content) {
        Ok(doc) => doc,
        Err(_) => {
            let fresh = Content::new();
            ledger_to_value(&fresh).unwrap()
        },
    }
}

/// Reads a ledger from the text of its file.
pub fn read_ledger(text: &str) -> (read: Result<Content, LedgerError>)
    ensures
        match read {
            Ok(state) => text_ledger(text@) == Some(state@),
            Err(error) => error == LedgerError::ParseFailure && text_ledger(text@) is None,
        },
{
    match parse_value(text) {
        Ok(doc) => match ledger_from_value(&doc) {
            Some(state) => Ok(state),
            None => Err(LedgerError::ParseFailure),
        },
        Err(_) => Err(LedgerError::ParseFailure),
    }
}

/// The ledger in the text of its file, or the empty ledger where the text
/// does not hold one: a damaged file never stops a start.
pub fn load_ledger(text: &str) -> (state: Content)
    ensures
        state@ == match text_ledger(text@) {
            Some(ledger) => ledger,
            None => empty_ledger(),
        },
        well_formed(state@),
{
    let doc = get_json(text);
    proof {
        lemma_document_round_trip(empty_ledger());
    }
    match ledger_from_value(&doc) {
        Some(state) => state,
        None => Content::new(),
    }
}

/// What a save reports once the document is written out as text: the text, or
/// a failure of the output.
pub fn written_outcome(written: Result<String, serde_json::Error>) -> (outcome: Result<
    String,
    LedgerError,
>)
    ensures
        match written {
            Ok(text) => outcome == Ok::<String, LedgerError>(text),
            Err(_) => outcome == Err::<String, LedgerError>(LedgerError::IOFailure),
        },
{
    match written {
        Ok(text) => Ok(text),
        Err(_) => Err(LedgerError::IOFailure),
    }
}

/// The text of the file that holds the ledger, pretty-printed. Every ledger
/// with a writable net worth has one; any other is refused.
pub fn ledger_text(state: &Content) -> (text: Result<String, LedgerError>)
    ensures
        text is Ok <==> writable(state@),
        match text {
            Ok(written) => written@ == json_pretty(ledger_json(state@)),
            Err(error) => error == LedgerError::IOFailure,
        },
{
    match ledger_to_value(state) {
        Some(doc) => written_outcome(pretty_text(&doc)),
        None => Err(LedgerError::IOFailure),
    }
}

/// A valid record is read back from its document as it is.
pub proof fn lemma_record_round_trip(record: ExpenseView)
    requires
        record.cost <= u32::MAX,
        record.due_date <= u32::MAX,
    ensures
        json_record(record_json(record)) == Some(record),
{
    reveal_strlit("name");
    reveal_strlit("cost");
    reveal_strlit("paid");
    reveal_strlit("due_date");
    assert("name"@.len() == 4 && "cost"@[0] == 'c' && "paid"@[0] == 'p' && "due_date"@.len() == 8
        && "name"@[0] == 'n');
    let name = ("name"@, Json::Text(record.name));
    let cost = ("cost"@, Json::Integer(record.cost as int));
    let paid = ("paid"@, Json::Bool(record.paid));
    let due_date = ("due_date"@, Json::Integer(record.due_date as int));
    let none = Seq::<(Seq<char>, Json)>::empty();
    lemma_lookup_push(none, name);
    lemma_lookup_push(none.push(name), cost);
    lemma_lookup_push(none.push(name).push(cost), paid);
    lemma_lookup_push(none.push(name).push(cost).push(paid), due_date);
}

/// A well-formed ledger with a writable net worth is read back from its
/// document as it is: the same income, the same net worth and the same
/// records in the same order. So it is read back from the text of its file
/// wherever that text is parsed into the document it was written from.
pub proof fn lemma_document_round_trip(ledger: ContentView)
    requires
        well_formed(ledger),
        writable(ledger),
    ensures
        json_ledger(ledger_json(ledger)) == Some(ledger),
        json_parse(json_pretty(ledger_json(ledger))) == Some(ledger_json(ledger)) ==> text_ledger(
            json_pretty(ledger_json(ledger)),
        ) == Some(ledger),
{
    reveal_strlit("income");
    reveal_strlit("net_worth");
    reveal_strlit("expenses");
    assert("income"@[0] == 'i' && "net_worth"@[0] == 'n' && "expenses"@[0] == 'e');
    let doc = ledger_json(ledger);
    let items = ledger.expenses.map_values(|record: ExpenseView| record_json(record));
    let income = ("income"@, Json::Integer(ledger.income as int));
    let worth = ("net_worth"@, Json::Integer(ledger.net_worth));
    let expenses = ("expenses"@, Json::List(items));
    let none = Seq::<(Seq<char>, Json)>::empty();
    lemma_lookup_push(none, income);
    lemma_lookup_push(none.push(income), worth);
    lemma_lookup_push(none.push(income).push(worth), expenses);
    assert(items_member(doc, "expenses"@) == Some(items));
    assert forall|i: int| 0 <= i < items.len() implies (#[trigger] json_record(items[i])) == Some(
        ledger.expenses[i],
    ) by {
        assert(valid_record(ledger.expenses[i]));
        lemma_record_round_trip(ledger.expenses[i]);
    }
    assert(json_records(items) is Some);
    assert(json_records(items)->0 =~= ledger.expenses);
}

} // verus!
