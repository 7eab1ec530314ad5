//! The parameter map: insertion order, replacement in place, lookup.

use wsrouter::command::Command;
use wsrouter::params::Params;

#[test]
fn insert_keeps_first_insertion_order() {
    let mut params = Params::new();
    params.insert("a".to_string(), "1".to_string());
    params.insert("b".to_string(), "2".to_string());
    params.insert("a".to_string(), "3".to_string());
    assert_eq!(params.len(), 2);
    assert_eq!(params.key_at(0), "a");
    assert_eq!(params.value_at(0), "3");
    assert_eq!(params.key_at(1), "b");
    assert_eq!(Command::from("X", &params), "@X #a '3' #b '2'");
}

#[test]
fn get_finds_present_and_misses_absent_keys() {
    let mut params = Params::new();
    params.insert("k".to_string(), "v".to_string());
    assert_eq!(params.get(&"k".to_string()), Some(&"v".to_string()));
    assert_eq!(params.get(&"other".to_string()), None);
    assert!(params.contains_key(&"k".to_string()));
    assert!(!params.contains_key(&"other".to_string()));
}

#[test]
fn clone_is_independent() {
    let mut params = Params::new();
    params.insert("k".to_string(), "v".to_string());
    let mut copy = params.clone();
    copy.insert("k".to_string(), "w".to_string());
    assert_eq!(params.get(&"k".to_string()), Some(&"v".to_string()));
    assert_eq!(copy.get(&"k".to_string()), Some(&"w".to_string()));
}
