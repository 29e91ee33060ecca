use velvet::rollback::{RollbackCursor, RollbackRecorder, RollbackStack};
use velvet::screens::StoryWait;

fn at(op: usize, text: &str) -> RollbackCursor {
    RollbackCursor { scene: "start".into(), op_index: op, wait: StoryWait::Line, current_text: text.into() }
}

#[test]
fn rollback_capacity_trims_oldest() {
    let mut stack: RollbackStack<u32> = RollbackStack::with_capacity(3);
    for i in 0..5u32 {
        stack.push(at(i as usize, "line"), i);
    }
    assert_eq!(stack.len(), 3);
    let kept: Vec<u32> = stack.frames().iter().map(|(_, f)| *f).collect();
    assert_eq!(kept, vec![2, 3, 4]);
    assert_eq!(RollbackStack::<u32>::with_capacity(0).capacity(), 1);
    assert_eq!(RollbackStack::<u32>::default().capacity(), 50);
}

#[test]
fn rollback_same_cursor_replaces_top() {
    let mut stack: RollbackStack<u32> = RollbackStack::with_capacity(10);
    stack.push(at(0, "One"), 1);
    stack.push(at(0, "One"), 2);
    assert_eq!(stack.len(), 1);
    assert_eq!(stack.peek(), Some(&2));
    stack.push(at(0, "Two"), 3);
    assert_eq!(stack.len(), 2);
}

#[test]
fn rollback_steps_back() {
    let mut stack: RollbackStack<u32> = RollbackStack::with_capacity(10);
    stack.push(at(0, "One"), 10);
    stack.push(at(1, "Two"), 20);
    stack.push(at(2, "Three"), 30);
    assert_eq!(stack.len(), 3);
    assert_eq!(stack.rollback(2), Some(&10));
    assert_eq!(stack.len(), 1);
    assert_eq!(stack.rollback(0), Some(&10));
    assert_eq!(stack.rollback(5), None);
    assert!(stack.is_empty());
}

#[test]
fn rollback_set_capacity_and_pop() {
    let mut stack: RollbackStack<u32> = RollbackStack::with_capacity(10);
    for i in 0..4u32 {
        stack.push(at(i as usize, "x"), i);
    }
    stack.set_capacity(2);
    assert_eq!(stack.len(), 2);
    let (cursor, frame) = stack.pop().unwrap();
    assert_eq!((cursor.op_index, frame), (3, 3));
    stack.clear();
    assert!(stack.pop().is_none());
}

#[test]
fn rollback_step_back_keeps_last_frame() {
    let mut stack: RollbackStack<u32> = RollbackStack::with_capacity(10);
    assert_eq!(stack.step_back(), (false, None));
    stack.push(at(0, "One"), 1);
    assert_eq!(stack.step_back(), (false, Some(&1)));
    assert_eq!(stack.len(), 1);
    stack.push(at(1, "Two"), 2);
    assert_eq!(stack.step_back(), (true, Some(&1)));
    assert_eq!(stack.len(), 1);
}

#[test]
fn recorder_pushes_only_on_change() {
    let mut rec: RollbackRecorder<u32> = RollbackRecorder::new(20);
    rec.observe(at(0, "One"), 1);
    rec.observe(at(0, "One"), 2);
    assert_eq!(rec.stack.len(), 1);
    assert_eq!(rec.stack.peek(), Some(&1));
    rec.observe(at(1, "Two"), 3);
    let mut choice = at(1, "Two");
    choice.wait = StoryWait::Choice;
    rec.observe(choice, 4);
    assert_eq!(rec.stack.len(), 3);
}

#[test]
fn capacity_trims_oldest() {
    let mut stack: RollbackStack<u32> = RollbackStack::with_capacity(3);
    for i in 0..5usize {
        stack.push(at(i, "line"), i as u32);
    }
    assert!(stack.len() <= 3);
}

#[test]
fn duplicate_cursor_replaces_frame() {
    let mut stack: RollbackStack<u32> = RollbackStack::with_capacity(10);
    stack.push(at(0, "One"), 0);
    stack.push(at(0, "One"), 0);
    assert_eq!(stack.len(), 1);
}

#[test]
fn rollback_n_steps() {
    let mut stack: RollbackStack<u32> = RollbackStack::with_capacity(10);
    stack.push(at(0, "One"), 0);
    stack.push(at(1, "Two"), 1);
    stack.push(at(2, "Three"), 2);
    assert_eq!(stack.len(), 3);
    let frame = stack.rollback(2);
    assert!(frame.is_some());
    assert_eq!(stack.len(), 1);
}
