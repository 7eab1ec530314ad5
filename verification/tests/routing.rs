//! Route lookup, dispatchers, and the connection registry.

use wsrouter::registry::ConnectionRegistry;
use wsrouter::routes::{Dispatcher, RouteTable, ServerDispatcher};

#[test]
fn find_returns_first_registration() {
    let mut table = RouteTable::new();
    let a = table.register("A".to_string());
    let b = table.register("B".to_string());
    let a2 = table.register("A".to_string());
    assert_eq!(a, 0);
    assert_eq!(b, 1);
    assert_eq!(a2, 2);
    assert_eq!(table.find(&"A".to_string()), Some(0));
    assert_eq!(table.find(&"B".to_string()), Some(1));
    assert_eq!(table.find(&"MISSING".to_string()), None);
    assert_eq!(table.len(), 3);
}

#[test]
fn dispatcher_send_reaches_its_own_queue() {
    let (tx, mut rx) = tokio::sync::mpsc::unbounded_channel::<String>();
    let dispatcher = Dispatcher::new(tx);
    dispatcher.send("@PONG".to_string());
    assert_eq!(rx.try_recv(), Ok("@PONG".to_string()));
}

#[test]
fn addressed_send_delivers_exact_text() {
    let (tx_a, mut rx_a) = tokio::sync::mpsc::unbounded_channel::<String>();
    let (tx_b, mut rx_b) = tokio::sync::mpsc::unbounded_channel::<String>();
    let mut registry = ConnectionRegistry::new();
    registry.insert(1, tx_a);
    registry.insert(2, tx_b);
    assert!(registry.deliver(2, "@HELLO #from 'a'".to_string()));
    assert_eq!(rx_b.try_recv(), Ok("@HELLO #from 'a'".to_string()));
    assert!(rx_a.try_recv().is_err());
}

#[test]
fn addressed_send_to_unknown_id_is_a_noop() {
    let registry = ConnectionRegistry::new();
    assert!(!registry.deliver(99, "@LOST".to_string()));
}

#[test]
fn removed_session_is_absent_from_the_registry() {
    let (tx, mut rx) = tokio::sync::mpsc::unbounded_channel::<String>();
    let mut registry = ConnectionRegistry::new();
    registry.insert(7, tx);
    assert!(registry.contains(7));
    registry.remove(7);
    assert!(!registry.contains(7));
    assert!(!registry.deliver(7, "@GONE".to_string()));
    assert!(rx.try_recv().is_err());
}

#[test]
fn reinserting_an_id_replaces_the_handle() {
    let (tx_old, mut rx_old) = tokio::sync::mpsc::unbounded_channel::<String>();
    let (tx_new, mut rx_new) = tokio::sync::mpsc::unbounded_channel::<String>();
    let mut registry = ConnectionRegistry::new();
    registry.insert(5, tx_old);
    registry.insert(5, tx_new);
    assert!(registry.deliver(5, "@HI".to_string()));
    assert_eq!(rx_new.try_recv(), Ok("@HI".to_string()));
    assert!(rx_old.try_recv().is_err());
}

#[test]
fn server_dispatcher_sends_on_its_own_session() {
    let (tx, mut rx) = tokio::sync::mpsc::unbounded_channel::<String>();
    let (gtx, _grx) = tokio::sync::mpsc::unbounded_channel();
    let dispatcher = ServerDispatcher::new(tx, gtx);
    dispatcher.send("@PONG".to_string());
    assert_eq!(rx.try_recv(), Ok("@PONG".to_string()));
}

#[test]
fn send_to_queues_addressed_message_for_valid_id() {
    let (tx, _rx) = tokio::sync::mpsc::unbounded_channel::<String>();
    let (gtx, mut grx) = tokio::sync::mpsc::unbounded_channel();
    let dispatcher = ServerDispatcher::new(tx, gtx);
    let id_text = uuid::Uuid::from_u128(42).to_string();
    assert!(dispatcher.send_to("@HI".to_string(), &id_text));
    let gd = grx.try_recv().expect("an addressed message");
    assert_eq!(gd.to, 42);
    assert_eq!(gd.msg, "@HI");
}

#[test]
fn send_to_with_malformed_id_is_a_noop() {
    let (tx, _rx) = tokio::sync::mpsc::unbounded_channel::<String>();
    let (gtx, mut grx) = tokio::sync::mpsc::unbounded_channel();
    let dispatcher = ServerDispatcher::new(tx, gtx);
    assert!(!dispatcher.send_to("@HI".to_string(), &"not-a-uuid".to_string()));
    assert!(grx.try_recv().is_err());
}
