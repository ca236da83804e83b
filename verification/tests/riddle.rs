use riddle_board::riddle::{Riddle, RiddleView};

#[test]
fn test_riddle_view() {
    let riddle = Riddle::new(
        "title".to_string(),
        "text".to_string(),
        "hint".to_string(),
        "answer".to_string(),
        1,
    );
    let riddle_view = RiddleView::new(&riddle);
    assert_eq!(riddle_view.title, "title");
    assert_eq!(riddle_view.text, "text");
    assert!(!riddle_view.solved);
    assert_eq!(riddle_view.bounty, 1);
}

#[test]
fn test_riddle_create() {
    let riddle = Riddle::new(
        "title".to_string(),
        "text".to_string(),
        "hint".to_string(),
        "answer".to_string(),
        1,
    );
    assert_eq!(riddle.get_title(), "title");
    assert_eq!(riddle.get_text(), "text");
    assert_eq!(riddle.get_hint(), "hint");
    assert!(riddle.check_answer("answer".to_string()));
    assert_eq!(riddle.get_bounty(), 1);
    assert!(!riddle.is_solved());
}

#[test]
fn test_riddle_solve() {
    let mut riddle = Riddle::new(
        "title".to_string(),
        "text".to_string(),
        "hint".to_string(),
        "answer".to_string(),
        1,
    );
    riddle.solve();
    assert!(riddle.is_solved());
}

#[test]
fn test_riddle_check_answer() {
    let riddle = Riddle::new(
        "title".to_string(),
        "text".to_string(),
        "hint".to_string(),
        "answer".to_string(),
        1,
    );
    assert!(riddle.check_answer("answer".to_string()));
    assert!(!riddle.check_answer("wrong".to_string()));
}

#[test]
fn test_riddle_increase_bounty() {
    let mut riddle = Riddle::new(
        "title".to_string(),
        "text".to_string(),
        "hint".to_string(),
        "answer".to_string(),
        1,
    );
    riddle.increase_bounty(1);
    assert_eq!(riddle.get_bounty(), 2);
}

#[test]
fn test_riddle_restore_roundtrip() {
    let riddle = Riddle::restore(
        "title".to_string(),
        "text".to_string(),
        "hint".to_string(),
        "answer".to_string(),
        42,
        true,
    );
    assert!(riddle.is_solved());
    assert_eq!(riddle.get_bounty(), 42);
    let (title, text, hint, answer, bounty, solved) = riddle.into_parts();
    assert_eq!(title, "title");
    assert_eq!(text, "text");
    assert_eq!(hint, "hint");
    assert_eq!(answer, "answer");
    assert_eq!(bounty, 42);
    assert!(solved);
}

#[test]
fn test_riddle_equality() {
    let a = Riddle::new(
        "title".to_string(),
        "text".to_string(),
        "hint".to_string(),
        "answer".to_string(),
        1,
    );
    let b = Riddle::new(
        "title".to_string(),
        "text".to_string(),
        "hint".to_string(),
        "answer".to_string(),
        1,
    );
    let c = Riddle::new(
        "title".to_string(),
        "text".to_string(),
        "hint".to_string(),
        "other".to_string(),
        1,
    );
    assert_eq!(a, b);
    assert_ne!(a, c);
    assert_eq!(RiddleView::new(&a), RiddleView::new(&b));
    // The view drops the answer, so riddles differing only there project
    // onto equal views.
    assert_eq!(RiddleView::new(&a), RiddleView::new(&c));
}
