//! Tests of the entity store: build, lookup, duplicate rejection.

use transit_model::collection::{Collection, CollectionWithId, WithId};
use transit_model::error::Error;
use transit_model::objects::{Network, StopArea};

fn network(id: &str, name: &str) -> Network {
    Network { id: id.to_string(), name: name.to_string() }
}

#[test]
fn build_preserves_len_and_lookup() {
    let records = vec![network("n1", "one"), network("n2", "two"), network("n3", "three")];
    let store = CollectionWithId::new(records).unwrap();
    assert_eq!(store.len(), 3);
    for id in ["n1", "n2", "n3"] {
        let got = store.get(&id.to_string()).unwrap();
        assert_eq!(got.id, id);
    }
    assert_eq!(store.get_idx(&"n2".to_string()), Some(1));
    assert!(store.get(&"n4".to_string()).is_none());
}

#[test]
fn build_fails_on_duplicate_identifier() {
    let records = vec![network("n1", "one"), network("n2", "two"), network("n1", "again")];
    match CollectionWithId::new(records) {
        Err(Error::IdentifierAlreadyExists(id)) => assert_eq!(id, "n1"),
        _ => panic!("a duplicate identifier must be rejected"),
    }
}

#[test]
fn push_rejects_existing_identifier() {
    let mut store = CollectionWithId::new(vec![network("n1", "one")]).unwrap();
    assert!(store.push(network("n2", "two")).is_ok());
    assert!(store.push(network("n1", "again")).is_err());
    assert_eq!(store.len(), 2);
}

#[test]
fn iteration_order_is_insertion_order() {
    let store = CollectionWithId::new(vec![network("b", "late"), network("a", "early")]).unwrap();
    let values = store.values();
    assert_eq!(values[0].id, "b");
    assert_eq!(values[1].id, "a");
}

#[test]
fn plain_collection_holds_records() {
    let mut c: Collection<u32> = Collection::new(vec![1, 2]);
    c.push(3);
    assert_eq!(c.len(), 3);
    assert_eq!(*c.get_by_idx(2), 3);
}

#[test]
fn get_by_idx_returns_the_record() {
    let store = CollectionWithId::new(vec![StopArea::default()]).unwrap();
    assert_eq!(store.get_by_idx(0).id, "");
    let _ = store.get_by_idx(0).id();
}
