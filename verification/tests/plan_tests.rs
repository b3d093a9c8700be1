use ipc::ring::{read_action, read_plan, write_action, write_plan, PollAction};

#[test]
fn write_plan_contiguous() {
    // head 0, tail 3, capacity 10: seven slots to the region's end,
    // six free payload bytes; a four-byte offer fits in one copy.
    let p = write_plan(0, 3, 10, 4);
    assert_eq!(p.count, 4);
    assert_eq!(p.first, 4);
    assert_eq!(p.second, 0);
    assert_eq!(p.next_index, 7);
}

#[test]
fn write_plan_splits_across_the_end() {
    // head 5, tail 8, capacity 10: free space runs 8, 9, then wraps
    // to 0; four offered bytes split two and two.
    let p = write_plan(5, 8, 10, 4);
    assert_eq!(p.count, 4);
    assert_eq!(p.first, 2);
    assert_eq!(p.second, 2);
    assert_eq!(p.next_index, 2);
}

#[test]
fn write_plan_capped_by_free_space() {
    // head 2, tail 0, capacity 10: only one free payload byte stands
    // before the sentinel, however much is offered.
    let p = write_plan(2, 0, 10, 100);
    assert_eq!(p.count, 1);
    assert_eq!(p.first, 1);
    assert_eq!(p.second, 0);
    assert_eq!(p.next_index, 1);
}

#[test]
fn read_plan_follows_the_unread_window() {
    // head 8, tail 3, capacity 10: five unread bytes, two before the
    // wrap and three after it.
    let p = read_plan(8, 3, 10, 100);
    assert_eq!(p.count, 5);
    assert_eq!(p.first, 2);
    assert_eq!(p.second, 3);
    assert_eq!(p.next_index, 3);
    // A smaller request stays before the wrap.
    let p = read_plan(8, 3, 10, 2);
    assert_eq!(p.count, 2);
    assert_eq!(p.first, 2);
    assert_eq!(p.second, 0);
    assert_eq!(p.next_index, 0);
}

#[test]
fn read_action_spins_then_sleeps_only_on_empty() {
    assert_eq!(read_action(4, 7, 0, 256), PollAction::Proceed);
    assert_eq!(read_action(4, 4, 0, 256), PollAction::Retry);
    assert_eq!(read_action(4, 4, 255, 256), PollAction::Retry);
    assert_eq!(read_action(4, 4, 256, 256), PollAction::Sleep);
    // A woken reader re-decides: with data present it can only
    // proceed, never sleep again.
    assert_eq!(read_action(4, 5, 256, 256), PollAction::Proceed);
}

#[test]
fn write_action_spins_then_sleeps_only_on_full() {
    // head 3, tail 2, capacity 10: the sentinel position, no free
    // byte.
    assert_eq!(write_action(3, 2, 10, 0, 256), PollAction::Retry);
    assert_eq!(write_action(3, 2, 10, 256, 256), PollAction::Sleep);
    // One byte of room: proceed even with the budget spent.
    assert_eq!(write_action(4, 2, 10, 256, 256), PollAction::Proceed);
    // The wrapping full case: head 0, tail at the last slot.
    assert_eq!(write_action(0, 9, 10, 256, 256), PollAction::Sleep);
}
