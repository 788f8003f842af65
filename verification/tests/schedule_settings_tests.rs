use snmp_dc::schedule::{collection_steps, CollectionStep};
use snmp_dc::settings::{bind_address, DataCollection, Database};

use CollectionStep::{BulkCopy, RepeatCollection, StartCollection, Wait};

#[test]
fn single_round_without_retries() {
    assert_eq!(collection_steps(0), vec![StartCollection, Wait, BulkCopy]);
    assert_eq!(collection_steps(1), vec![StartCollection, Wait, BulkCopy]);
}

#[test]
fn three_tries() {
    assert_eq!(
        collection_steps(3),
        vec![
            StartCollection, Wait, BulkCopy, RepeatCollection, Wait, BulkCopy, RepeatCollection,
            Wait, BulkCopy
        ]
    );
}

#[test]
fn many_tries_shape() {
    let steps = collection_steps(255);
    assert_eq!(steps.len(), 3 * 255);
    assert_eq!(steps.iter().filter(|s| **s == BulkCopy).count(), 255);
    assert_eq!(*steps.last().unwrap(), BulkCopy);
}

#[test]
fn connection_string() {
    let db = Database {
        dbname: "snmp".to_string(),
        host: "localhost".to_string(),
        user: "postgres".to_string(),
        password: "secret".to_string(),
    };
    assert_eq!(db.connection_string(), "host=localhost user=postgres password=secret dbname=snmp");
}

fn dc(pairs: usize, port: u32) -> DataCollection {
    DataCollection { dc_actor_pairs: pairs, retries: 3, wait_time_millis: 5000, interval_seconds: 60, udp_bind_port: port }
}

#[test]
fn sender_ports_are_consecutive() {
    assert_eq!(dc(3, 9000).sender_ports(), vec![9000, 9001, 9002]);
    assert!(dc(0, 9000).sender_ports().is_empty());
    assert_eq!(dc(1, u32::MAX).sender_ports(), vec![u32::MAX]);
}

#[test]
fn bind_addresses() {
    assert_eq!(bind_address(9000), "0.0.0.0:9000");
    assert_eq!(bind_address(0), "0.0.0.0:0");
}
