use kerblam::swap::FileMover;
use kerblam::transaction::SwapTransaction;

#[test]
fn invert_swaps_the_pair() {
    let m = FileMover::new("data/in/a.txt".to_string(), "scratch/a.txt.x1y2z".to_string());
    let inv = m.invert();
    assert_eq!(inv.get_from(), "scratch/a.txt.x1y2z".to_string());
    assert_eq!(inv.get_to(), "data/in/a.txt".to_string());
}

#[test]
fn invert_twice_restores_the_pair() {
    let m = FileMover::new("a".to_string(), "b".to_string());
    let back = m.invert().invert();
    assert_eq!(back.get_from(), "a".to_string());
    assert_eq!(back.get_to(), "b".to_string());
}

#[test]
fn transaction_hands_out_moves_in_order() {
    let movers = vec![
        FileMover::new("in/a".to_string(), "tmp/a.s".to_string()),
        FileMover::new("in/b".to_string(), "in/a".to_string()),
    ];
    let mut tx = SwapTransaction::new(movers, true);
    assert!(!tx.is_done());
    let op1 = tx.next_op().unwrap();
    assert_eq!(op1.from, "in/a".to_string());
    assert_eq!(op1.to, "tmp/a.s".to_string());
    assert!(op1.update_time);
    tx.op_succeeded();
    let op2 = tx.next_op().unwrap();
    assert_eq!(op2.from, "in/b".to_string());
    assert_eq!(op2.to, "in/a".to_string());
    tx.op_succeeded();
    assert!(tx.is_done());
    assert!(tx.next_op().is_none());
}

#[test]
fn unwind_is_reversed_inverses() {
    let movers = vec![
        FileMover::new("in/a".to_string(), "tmp/a.s".to_string()),
        FileMover::new("in/b".to_string(), "in/a".to_string()),
    ];
    let mut tx = SwapTransaction::new(movers, true);
    tx.op_succeeded();
    tx.op_succeeded();
    let undo = tx.unwind_ops();
    assert_eq!(undo.len(), 2);
    assert_eq!(undo[0].from, "in/a".to_string());
    assert_eq!(undo[0].to, "in/b".to_string());
    assert_eq!(undo[1].from, "tmp/a.s".to_string());
    assert_eq!(undo[1].to, "in/a".to_string());
    assert!(!undo[0].update_time);
    assert!(!undo[1].update_time);
}

#[test]
fn rollback_covers_only_applied_moves() {
    let movers = vec![
        FileMover::new("in/a".to_string(), "tmp/a.s".to_string()),
        FileMover::new("in/b".to_string(), "in/a".to_string()),
        FileMover::new("in/c".to_string(), "tmp/c.s".to_string()),
    ];
    let mut tx = SwapTransaction::new(movers, false);
    // The first move succeeded; the second failed: roll back just the first.
    tx.op_succeeded();
    let undo = tx.unwind_ops();
    assert_eq!(undo.len(), 1);
    assert_eq!(undo[0].from, "tmp/a.s".to_string());
    assert_eq!(undo[0].to, "in/a".to_string());
}

#[test]
fn untouched_transaction_plans_no_timestamp_updates() {
    let movers = vec![FileMover::new("in/a".to_string(), "tmp/a.s".to_string())];
    let tx = SwapTransaction::new(movers, false);
    let op = tx.next_op().unwrap();
    assert!(!op.update_time);
}
