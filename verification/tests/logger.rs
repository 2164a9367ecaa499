use lumina::logger::{timestamp, Logger, Message, SeverityLevel};
use lumina::revier_logger;

#[test]
fn messages_are_numbered_in_order() {
    let mut counter = 0u64;
    let mut log = Logger::new();
    log.push_message("first", SeverityLevel::INFO, None, &mut counter);
    log.push_message("second", SeverityLevel::ERROR, Some(0), &mut counter);
    assert_eq!(counter, 2);
    let a = log.take_message().unwrap();
    assert_eq!(a.id(), 0);
    assert_eq!(a.message(), "first");
    assert_eq!(*a.severity(), SeverityLevel::INFO);
    assert_eq!(a.parent_id(), None);
    let b = log.take_message().unwrap();
    assert_eq!(b.id(), 1);
    assert_eq!(b.parent_id(), Some(0));
    assert!(log.take_message().is_none());
}

#[test]
fn message_nodes_take_the_counter() {
    let mut counter = 41;
    let m = Message::create_message_node(&mut counter, SeverityLevel::WARNING, "w".to_string(), None);
    assert_eq!(m.id(), 41);
    assert_eq!(counter, 42);
    let n = Message::new(7, SeverityLevel::CRASH, "c".to_string(), Some(3));
    assert_eq!(n.id(), 7);
    assert_eq!(n.parent_id(), Some(3));
}

#[test]
fn tags_and_time_stamps() {
    assert_eq!(SeverityLevel::TRACE.tag(), "LOG");
    assert_eq!(SeverityLevel::WARNING.tag(), "WARNING");
    assert_eq!(timestamp(125, 125_678), (2, 5, 567));
    assert_eq!(timestamp(59, 9_999), (0, 59, 999));
}

#[test]
fn second_engine_logger() {
    let mut counter = 5u64;
    let mut log: revier_logger::Logger = revier_logger::Logger::new();
    log.push_message("hello", revier_logger::SeverityLevel::LOG, None, &mut counter);
    let m: revier_logger::Message = log.take_message().unwrap();
    assert_eq!(*m.severity(), revier_logger::SeverityLevel::LOG);
    assert_eq!(m.message(), "hello");
    assert_eq!(m.id(), 5);
}

#[test]
fn loggers_share_one_counter() {
    let mut counter = 0u64;
    let mut a = Logger::new();
    let mut b = Logger::new();
    a.push_message("a", SeverityLevel::INFO, None, &mut counter);
    b.push_message("b", SeverityLevel::INFO, None, &mut counter);
    a.push_message("c", SeverityLevel::INFO, None, &mut counter);
    assert_eq!(b.take_message().unwrap().id(), 1);
    assert_eq!(a.take_message().unwrap().id(), 0);
    assert_eq!(a.take_message().unwrap().id(), 2);
}
