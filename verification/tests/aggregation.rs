//! The aggregation pipeline on concrete fixtures.

use invoice_generator::aggregate::{
    attach_tickets, build_activity_rollups, build_invoice_documents, require_unique,
};
use invoice_generator::date::{Date, DateTime, Month};
use invoice_generator::error::AggregateError;
use invoice_generator::group::group_by_parent;
use invoice_generator::model::{Invoice, InvoiceActivity, Recipient, TicketTime, Time};

fn dt(hour: u8) -> DateTime {
    DateTime { date: Date { year: 2024, month: 3, day: 14 }, hour, minute: 0, second: 0 }
}

fn time(id: i32, dur: Option<u64>, act: Option<i32>) -> Time {
    Time {
        time_id: id,
        time_start: dt(9),
        time_end: dt(10),
        time_desc: format!("entry {id}"),
        time_dur: dur,
        act_num: act,
    }
}

fn tt(proj: &str, num: i32, time_id: i32) -> TicketTime {
    TicketTime { proj_key: proj.to_owned(), tick_num: num, time_id }
}

fn act(num: i32, inv: i32) -> InvoiceActivity {
    InvoiceActivity {
        act_num: num,
        inv_num: inv,
        act_desc: format!("activity {num}"),
        act_uprice: 10_000,
    }
}

fn recipient(id: &str) -> Recipient {
    Recipient {
        recip_id: id.to_owned(),
        recip_name: "Example Corp".to_owned(),
        recip_addr: "1 Main St".to_owned(),
    }
}

fn invoice(num: i32, recip: &str) -> Invoice {
    Invoice {
        inv_num: num,
        inv_month: Month { year: 2024, month: 3 },
        inv_created: None,
        recip_id: recip.to_owned(),
    }
}

#[test]
fn grouping_partitions_in_parent_order() {
    let parents = vec![1, 2, 3];
    let children = vec![Some(2), Some(1), None, Some(2)];
    let groups = group_by_parent(&parents, &children);
    assert_eq!(groups.len(), 3);
    assert_eq!(groups[0], vec![1]);
    assert_eq!(groups[1], vec![0, 3]);
    assert_eq!(groups[2], Vec::<usize>::new());
}

#[test]
fn grouping_of_no_children_is_all_empty_groups() {
    let parents = vec![7, 8];
    let children: Vec<Option<i32>> = Vec::new();
    let groups = group_by_parent(&parents, &children);
    assert_eq!(groups, vec![Vec::<usize>::new(), Vec::new()]);
}

#[test]
fn grouping_duplicate_parent_keys_share_children() {
    let parents = vec![5, 5];
    let children = vec![Some(5), Some(6)];
    let groups = group_by_parent(&parents, &children);
    assert_eq!(groups, vec![vec![0], vec![0]]);
}

#[test]
fn attach_keeps_ticket_load_order_without_dedup() {
    let times = vec![time(10, None, None), time(20, None, None)];
    let tts = vec![tt("B", 2, 20), tt("A", 1, 10), tt("B", 2, 20), tt("A", 1, 20)];
    let with = attach_tickets(&times, &tts);
    assert_eq!(with.len(), 2);
    assert_eq!(with[0].time_id, 10);
    assert_eq!(with[0].time_desc, "entry 10");
    let keys0: Vec<(String, i32)> =
        with[0].tickets.iter().map(|t| (t.proj_key.clone(), t.tick_num)).collect();
    assert_eq!(keys0, vec![("A".to_owned(), 1)]);
    let keys1: Vec<(String, i32)> =
        with[1].tickets.iter().map(|t| (t.proj_key.clone(), t.tick_num)).collect();
    assert_eq!(
        keys1,
        vec![("B".to_owned(), 2), ("B".to_owned(), 2), ("A".to_owned(), 1)]
    );
}

#[test]
fn rollup_sums_durations_with_absent_as_zero() {
    // Durations in hundredths of an hour: 2.5 h, not yet costed, 1.0 h.
    let times = vec![
        time(1, Some(250), Some(7)),
        time(2, None, Some(7)),
        time(3, Some(100), Some(7)),
    ];
    let rollups = build_activity_rollups(&vec![act(7, 1)], &times, &Vec::new());
    assert_eq!(rollups.len(), 1);
    assert_eq!(rollups[0].duration, 350);
}

#[test]
fn rollup_of_activity_without_times_is_zero_and_empty() {
    let times = vec![time(1, Some(250), Some(8))];
    let rollups = build_activity_rollups(&vec![act(7, 1)], &times, &Vec::new());
    assert_eq!(rollups.len(), 1);
    assert_eq!(rollups[0].duration, 0);
    assert!(rollups[0].tickets.is_empty());
}

#[test]
fn rollup_duration_saturates_instead_of_wrapping() {
    let times = vec![time(1, Some(u64::MAX), Some(7)), time(2, Some(5), Some(7))];
    let rollups = build_activity_rollups(&vec![act(7, 1)], &times, &Vec::new());
    assert_eq!(rollups[0].duration, u64::MAX);
}

#[test]
fn rollup_tickets_are_deduplicated_and_sorted() {
    // Tickets B-2, A-1, A-1, B-2 across two entries of one activity.
    let times = vec![time(1, None, Some(7)), time(2, None, Some(7))];
    let tts = vec![tt("B", 2, 1), tt("A", 1, 1), tt("A", 1, 2), tt("B", 2, 2)];
    let rollups = build_activity_rollups(&vec![act(7, 1)], &times, &tts);
    let keys: Vec<(String, i32)> =
        rollups[0].tickets.iter().map(|t| (t.proj_key.clone(), t.tick_num)).collect();
    assert_eq!(keys, vec![("A".to_owned(), 1), ("B".to_owned(), 2)]);
}

#[test]
fn rollup_ticket_order_is_project_key_then_number() {
    let times = vec![time(1, None, Some(7))];
    let tts = vec![tt("B", 1, 1), tt("A", 10, 1), tt("A", 2, 1), tt("AB", 1, 1)];
    let rollups = build_activity_rollups(&vec![act(7, 1)], &times, &tts);
    let keys: Vec<(String, i32)> =
        rollups[0].tickets.iter().map(|t| (t.proj_key.clone(), t.tick_num)).collect();
    assert_eq!(
        keys,
        vec![
            ("A".to_owned(), 2),
            ("A".to_owned(), 10),
            ("AB".to_owned(), 1),
            ("B".to_owned(), 1)
        ]
    );
}

#[test]
fn rollups_keep_activity_order_and_count() {
    let rollups = build_activity_rollups(
        &vec![act(3, 1), act(1, 1), act(2, 2)],
        &Vec::new(),
        &Vec::new(),
    );
    let nums: Vec<i32> = rollups.iter().map(|r| r.activity.act_num).collect();
    assert_eq!(nums, vec![3, 1, 2]);
}

#[test]
fn document_sorts_activities_by_number() {
    // Activities loaded in order 5, 1, 3 for one invoice.
    let activities = vec![act(5, 9), act(1, 9), act(3, 9)];
    let invoices = vec![(invoice(9, "r1"), recipient("r1"))];
    let docs = build_invoice_documents(&invoices, &activities, &Vec::new(), &Vec::new());
    assert_eq!(docs.len(), 1);
    let nums: Vec<i32> = docs[0].activities.iter().map(|r| r.activity.act_num).collect();
    assert_eq!(nums, vec![1, 3, 5]);
}

#[test]
fn document_carries_invoice_fields_and_recipient() {
    let invoices = vec![(invoice(9, "r1"), recipient("r1"))];
    let docs = build_invoice_documents(&invoices, &Vec::new(), &Vec::new(), &Vec::new());
    assert_eq!(docs.len(), 1);
    assert_eq!(docs[0].inv_num, 9);
    assert_eq!(docs[0].inv_month, Month { year: 2024, month: 3 });
    assert_eq!(docs[0].inv_created, None);
    assert_eq!(docs[0].recipient.recip_name, "Example Corp");
    assert!(docs[0].activities.is_empty());
}

#[test]
fn full_pipeline_nests_three_levels() {
    let invoices = vec![
        (invoice(9, "r1"), recipient("r1")),
        (invoice(10, "r2"), recipient("r2")),
    ];
    let activities = vec![act(2, 9), act(1, 9), act(3, 10)];
    let times = vec![
        time(100, Some(150), Some(1)),
        time(101, None, Some(2)),
        time(102, Some(75), Some(3)),
        time(103, Some(25), None),
    ];
    let tts = vec![tt("X", 1, 100), tt("X", 1, 101), tt("Y", 4, 102)];
    let docs = build_invoice_documents(&invoices, &activities, &times, &tts);
    assert_eq!(docs.len(), 2);
    let nums: Vec<i32> = docs[0].activities.iter().map(|r| r.activity.act_num).collect();
    assert_eq!(nums, vec![1, 2]);
    assert_eq!(docs[0].activities[0].duration, 150);
    assert_eq!(docs[0].activities[1].duration, 0);
    assert_eq!(docs[1].activities[0].duration, 75);
    assert_eq!(docs[1].activities[0].tickets[0].proj_key, "Y");
    // The unassigned time entry 103 appears nowhere.
    let total: u64 = docs
        .iter()
        .flat_map(|d| d.activities.iter())
        .map(|r| r.duration)
        .sum();
    assert_eq!(total, 225);
}

#[test]
fn unique_of_one_document_is_ok() {
    let invoices = vec![(invoice(9, "r1"), recipient("r1"))];
    let docs = build_invoice_documents(&invoices, &Vec::new(), &Vec::new(), &Vec::new());
    let doc = require_unique(docs).expect("one document should be accepted");
    assert_eq!(doc.inv_num, 9);
}

#[test]
fn unique_of_zero_documents_is_identification_failure() {
    let r = require_unique(Vec::new());
    assert_eq!(r.unwrap_err(), AggregateError::Identification { matched: 0 });
}

#[test]
fn unique_of_two_documents_is_identification_failure() {
    let invoices = vec![
        (invoice(9, "r1"), recipient("r1")),
        (invoice(9, "r1"), recipient("r1")),
    ];
    let docs = build_invoice_documents(&invoices, &Vec::new(), &Vec::new(), &Vec::new());
    let r = require_unique(docs);
    assert_eq!(r.unwrap_err(), AggregateError::Identification { matched: 2 });
}

#[test]
fn filtered_build_returns_at_most_one_for_unique_numbers() {
    // A well-formed fixture filtered by number 9: exactly the matching row.
    let invoices = vec![(invoice(9, "r1"), recipient("r1"))];
    let docs = build_invoice_documents(&invoices, &Vec::new(), &Vec::new(), &Vec::new());
    assert_eq!(docs.len(), 1);
    assert_eq!(docs[0].inv_num, 9);
    // The same filter matching no rows: zero documents, not an error here.
    let none = build_invoice_documents(&Vec::new(), &Vec::new(), &Vec::new(), &Vec::new());
    assert!(none.is_empty());
}
