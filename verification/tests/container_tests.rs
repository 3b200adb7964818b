//! Behavior of the history containers, the status-bar text, the per-label
//! series split, and the Fibonacci helpers.

use manual_data_creator::data_conversion::{array_of_anom, array_of_normal};
use manual_data_creator::data_definition::{DataLabel, DataPoint};
use manual_data_creator::dequeue::Deque;
use manual_data_creator::fib::{bad_fib, fib_iterative, fib_recursive};
use manual_data_creator::stack::Stack;
use manual_data_creator::status_msg::StatusMsg;

#[test]
fn deque_pushes_and_pops_at_the_back() {
    let mut d: Deque<u32> = Deque::default();
    assert!(d.is_empty());
    assert_eq!(d.len(), 0);
    assert_eq!(d.pop(), None);
    assert_eq!(d.remove_oldest(), None);
    d.push(1);
    d.push(2);
    d.push(3);
    assert_eq!(d.len(), 3);
    assert_eq!(d.peek(), Some(&3));
    assert_eq!(d.pop(), Some(3));
    assert_eq!(d.len(), 2);
    assert_eq!(d.pop(), Some(2));
    assert_eq!(d.pop(), Some(1));
    assert_eq!(d.pop(), None);
}

#[test]
fn deque_evicts_at_the_front() {
    let mut d: Deque<u32> = Deque::default();
    d.push(1);
    d.push(2);
    d.push(3);
    assert_eq!(d.remove_oldest(), Some(1));
    assert_eq!(d.remove_oldest(), Some(2));
    assert_eq!(d.peek(), Some(&3));
    d.clear();
    assert!(d.is_empty());
    assert_eq!(d.peek(), None);
}

#[test]
fn stack_is_last_in_first_out() {
    let mut s: Stack<&str> = Stack::default();
    assert!(s.is_empty());
    assert_eq!(s.pop(), None);
    assert_eq!(s.peek(), None);
    s.push("a");
    s.push("b");
    assert_eq!(s.peek(), Some(&"b"));
    assert_eq!(s.pop(), Some("b"));
    assert_eq!(s.pop(), Some("a"));
    assert_eq!(s.pop(), None);
    s.push("c");
    s.clear();
    assert!(s.is_empty());
}

#[test]
fn status_msg_appends_lines() {
    let mut m = StatusMsg::default();
    assert!(m.is_empty());
    assert_eq!(m.get_msg(), "");
    m.add_msg("first");
    assert_eq!(m.get_msg(), "first");
    m.add_err("second");
    assert_eq!(m.get_msg(), "first\nsecond");
    assert!(!m.is_empty());
    m.clear();
    assert!(m.is_empty());
    assert_eq!(m.get_msg(), "");
    m.add_err("third");
    assert_eq!(m.get_msg(), "third");
}

#[test]
fn series_split_by_label_keeps_order() {
    let pts = vec![
        DataPoint { x: 1, y: 2, label: DataLabel::Normal },
        DataPoint { x: 3, y: 4, label: DataLabel::Anomaly },
        DataPoint { x: 5, y: 6, label: DataLabel::Normal },
    ];
    assert_eq!(array_of_normal(&pts), vec![(1, 2), (5, 6)]);
    assert_eq!(array_of_anom(&pts), vec![(3, 4)]);
    let none: Vec<DataPoint> = Vec::new();
    assert_eq!(array_of_normal(&none), Vec::<(i64, i64)>::new());
}

#[test]
fn fib_implementations_agree_on_exact_values() {
    assert_eq!(fib_iterative(0), 1);
    assert_eq!(fib_iterative(1), 1);
    assert_eq!(fib_iterative(2), 2);
    assert_eq!(fib_iterative(5), 8);
    assert_eq!(fib_iterative(10), 89);
    assert_eq!(fib_recursive(0), 1);
    assert_eq!(fib_recursive(10), 89);
    assert_eq!(bad_fib(20), 10946);
    for n in 0..20u64 {
        assert_eq!(fib_iterative(n), fib_recursive(n));
    }
}
