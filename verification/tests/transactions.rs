use bytes::Bytes;
use redis_core::commands::Command;
use redis_core::resp::RedisValueRef;
use redis_core::transactions::Transaction;
use redis_core::transactions::TransactionState;

fn simple(s: &str) -> RedisValueRef {
    RedisValueRef::String(Bytes::from(s.to_string()))
}

fn error(s: &str) -> RedisValueRef {
    RedisValueRef::Error(Bytes::from(s.to_string()))
}

#[test]
fn a_new_state_has_no_queue() {
    assert!(TransactionState::new().transaction_queue.is_none());
}

#[test]
fn multi_opens_a_transaction() {
    let mut registry = Transaction::new();
    assert!(!registry.in_transaction(1));
    assert_eq!(registry.start_transaction(1), simple("OK"));
    assert!(registry.in_transaction(1));
    assert!(!registry.in_transaction(2));
}

#[test]
fn multi_cannot_be_nested() {
    let mut registry = Transaction::new();
    registry.start_transaction(1);
    registry.queue_command(1, Command::Ping);
    assert_eq!(registry.start_transaction(1), error("ERR MULTI calls can not be nested"));
    // The queue is kept.
    assert_eq!(registry.exec_transaction(1).map(|q| q.len()), Some(1));
}

#[test]
fn commands_are_queued_in_order() {
    let mut registry = Transaction::new();
    registry.start_transaction(7);
    assert_eq!(registry.queue_command(7, Command::Ping), simple("QUEUED"));
    assert_eq!(
        registry.queue_command(7, Command::Get(Bytes::from("k"))),
        simple("QUEUED")
    );
    let queue = registry.exec_transaction(7).expect("the client is in a transaction");
    assert_eq!(queue.len(), 2);
    assert!(matches!(queue[0], Command::Ping));
    assert!(matches!(&queue[1], Command::Get(k) if &k[..] == b"k"));
    assert!(!registry.in_transaction(7));
    assert!(registry.exec_transaction(7).is_none());
}

#[test]
fn queue_without_multi() {
    let mut registry = Transaction::new();
    assert_eq!(registry.queue_command(3, Command::Ping), error("ERR EXEC without MULTI"));
    assert!(!registry.in_transaction(3));
}

#[test]
fn discard_drops_the_queue() {
    let mut registry = Transaction::new();
    assert_eq!(registry.discard_transaction(1), error("ERR DISCARD without MULTI"));
    registry.start_transaction(1);
    registry.queue_command(1, Command::Ping);
    assert_eq!(registry.discard_transaction(1), simple("OK"));
    assert!(!registry.in_transaction(1));
    assert!(registry.exec_transaction(1).is_none());
    assert_eq!(registry.discard_transaction(1), error("ERR DISCARD without MULTI"));
}

#[test]
fn clients_do_not_share_queues() {
    let mut registry = Transaction::new();
    registry.start_transaction(1);
    registry.start_transaction(2);
    registry.queue_command(1, Command::Ping);
    assert_eq!(registry.exec_transaction(2).map(|q| q.len()), Some(0));
    assert_eq!(registry.exec_transaction(1).map(|q| q.len()), Some(1));
}
