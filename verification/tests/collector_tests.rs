use snmp_dc::collector::{repeat_collection_query, start_collection_query, DbServer, Dispatch};
use snmp_dc::reading::ValuePair;

fn ids(rows: &[ValuePair]) -> Vec<(i32, i32, i128)> {
    rows.iter().map(|v| (v.id, v.vtype, v.value)).collect()
}

#[test]
fn bulk_copy_of_empty_buffer_writes_nothing() {
    let s = DbServer::new(2);
    assert!(s.bulk_copy().is_none());
    assert_eq!(s.pending(), 0);
}

#[test]
fn bulk_copy_returns_recorded_values_in_order() {
    let mut s = DbServer::new(2);
    s.record(ValuePair::new(1, 64, 10));
    s.record(ValuePair::new(2, 70, 20));
    s.record(ValuePair::new(3, 80, -30));
    assert_eq!(s.pending(), 3);
    assert_eq!(ids(s.bulk_copy().unwrap()), vec![(1, 64, 10), (2, 70, 20), (3, 80, -30)]);
    s.copied();
    assert_eq!(s.pending(), 0);
    assert!(s.bulk_copy().is_none());
    s.record(ValuePair::new(4, 0, 0));
    assert_eq!(ids(s.bulk_copy().unwrap()), vec![(4, 0, 0)]);
    assert_eq!(s.count(), 2);
}

#[test]
fn failed_copy_keeps_values() {
    let mut s = DbServer::new(1);
    s.record(ValuePair::new(1, 64, 10));
    // the write of these rows fails: `copied` is not called
    assert_eq!(ids(s.bulk_copy().unwrap()), vec![(1, 64, 10)]);
    s.record(ValuePair::new(2, 64, 11));
    assert_eq!(ids(s.bulk_copy().unwrap()), vec![(1, 64, 10), (2, 64, 11)]);
    s.copied();
    assert!(s.bulk_copy().is_none());
}

#[test]
fn interleaved_records_and_copies_keep_every_value_once() {
    let mut s = DbServer::new(1);
    let mut stored: Vec<(i32, i32, i128)> = Vec::new();
    let mut received: Vec<(i32, i32, i128)> = Vec::new();
    for round in 0..5 {
        for k in 0..round {
            let id = round * 10 + k;
            s.record(ValuePair::new(id, 64, id as i128));
            received.push((id, 64, id as i128));
        }
        if let Some(rows) = s.bulk_copy() {
            if round % 2 == 0 {
                stored.extend(ids(rows));
                s.copied();
            }
        }
        let mut all = stored.clone();
        all.extend(s.bulk_copy().map(ids).unwrap_or_default());
        assert_eq!(all, received);
    }
}

#[test]
fn dispatch_round_robin() {
    let s = DbServer::new(2);
    let plan = s.dispatch_plan(5);
    assert_eq!(
        plan,
        vec![
            Dispatch::Attribute { row: 0, sender: 0 },
            Dispatch::Attribute { row: 1, sender: 1 },
            Dispatch::Attribute { row: 2, sender: 0 },
            Dispatch::Attribute { row: 3, sender: 1 },
            Dispatch::Attribute { row: 4, sender: 0 },
            Dispatch::Count { sender: 0 },
            Dispatch::Count { sender: 1 },
        ]
    );
}

#[test]
fn dispatch_empty_round_still_counts() {
    let s = DbServer::new(3);
    assert_eq!(
        s.dispatch_plan(0),
        vec![Dispatch::Count { sender: 0 }, Dispatch::Count { sender: 1 }, Dispatch::Count { sender: 2 }]
    );
    let z = DbServer::new(0);
    assert!(z.dispatch_plan(0).is_empty());
}

#[test]
fn dispatch_is_balanced() {
    let s = DbServer::new(4);
    let plan = s.dispatch_plan(10);
    let mut per = vec![0usize; 4];
    for d in plan.iter() {
        if let Dispatch::Attribute { sender, .. } = d {
            per[*sender] += 1;
        }
    }
    assert_eq!(per, vec![3, 3, 2, 2]);
}

#[test]
fn start_query_text() {
    assert_eq!(start_collection_query(), "SELECT * FROM POLLEDDATA ORDER BY ID");
}

#[test]
fn repeat_query_text() {
    assert_eq!(
        repeat_collection_query(1600000000),
        "select * from polleddata where id not in (select distinct(id) from statsdata where EXTRACT(epoch FROM timestamp) > 1600000000) ORDER BY ID"
    );
    assert_eq!(
        repeat_collection_query(0),
        "select * from polleddata where id not in (select distinct(id) from statsdata where EXTRACT(epoch FROM timestamp) > 0) ORDER BY ID"
    );
}
