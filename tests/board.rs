use kanban::board::{CreateError, KanbanBoard, MoveError};
use kanban::card::{DropZone, EditMode};
use kanban::filler::{join_words, MAX_WORDS, MIN_WORDS};

fn s(t: &str) -> String {
    t.to_string()
}

fn lane_ids(b: &KanbanBoard, lane: usize) -> Vec<String> {
    (0..b.lane_len(lane)).map(|i| b.card_at(lane, i).id.clone()).collect()
}

fn board_with(cards: &[(usize, &str)]) -> KanbanBoard {
    let mut b = KanbanBoard::new();
    for (lane, id) in cards {
        assert_eq!(b.create_card(*lane, s(id), format!("title {id}"), format!("desc {id}")), Ok(()));
    }
    b
}

fn total(b: &KanbanBoard) -> usize {
    (0..b.lane_count()).map(|l| b.lane_len(l)).sum()
}

#[test]
fn new_board_has_three_empty_named_lanes() {
    let b = KanbanBoard::new();
    assert_eq!(b.lane_count(), 3);
    assert_eq!(b.lane_name(0), "Todo");
    assert_eq!(b.lane_name(1), "In Progress");
    assert_eq!(b.lane_name(2), "Done");
    for l in 0..3 {
        assert_eq!(b.lane_len(l), 0);
    }
    assert!(b.dragged_card().is_none());
}

#[test]
fn create_drag_drop_and_edit_scenario() {
    let mut b = KanbanBoard::new();
    assert_eq!(b.create_card(0, s("c1"), s("Ann Lee"), s("alpha beta gamma")), Ok(()));
    assert_eq!((b.lane_len(0), b.lane_len(1), b.lane_len(2)), (1, 0, 0));
    assert_eq!(b.card_at(0, 0).lane_id, 0);

    assert!(b.start_drag(0, 0));
    assert_eq!(b.dragged_card().map(|c| c.id.clone()), Some(s("c1")));
    assert_eq!(b.drop_on(2), Ok(()));
    assert_eq!((b.lane_len(0), b.lane_len(1), b.lane_len(2)), (0, 0, 1));
    assert_eq!(b.card_at(2, 0).lane_id, 2);
    assert!(b.dragged_card().is_none());

    assert!(b.set_title(&s("c1"), s("X")));
    let c = b.card_at(2, 0);
    assert_eq!(c.title, "X");
    assert_eq!(c.id, "c1");
    assert_eq!(c.lane_id, 2);
    assert_eq!(c.description, Some(s("alpha beta gamma")));
}

#[test]
fn move_of_card_absent_from_source_changes_no_lane() {
    let mut b = board_with(&[(0, "a"), (1, "b")]);
    assert!(b.start_drag(0, 0));
    assert_eq!(b.move_card(&s("b"), 0, 2), Err(MoveError::CardNotInLane));
    assert_eq!(lane_ids(&b, 0), vec![s("a")]);
    assert_eq!(lane_ids(&b, 1), vec![s("b")]);
    assert_eq!(b.lane_len(2), 0);
    assert!(b.dragged_card().is_none());
}

#[test]
fn move_between_lanes_shifts_one_card() {
    let mut b = board_with(&[(0, "a"), (0, "b"), (0, "c"), (1, "d")]);
    assert!(b.start_drag(0, 1));
    assert_eq!(b.move_card(&s("b"), 0, 1), Ok(()));
    assert_eq!(lane_ids(&b, 0), vec![s("a"), s("c")]);
    assert_eq!(lane_ids(&b, 1), vec![s("d"), s("b")]);
    assert_eq!(b.card_at(1, 1).lane_id, 1);
    assert_eq!(b.card_at(1, 1).title, "title b");
    assert_eq!(total(&b), 4);
}

#[test]
fn moves_keep_total_count() {
    let mut b = board_with(&[(0, "a"), (1, "b"), (2, "c")]);
    let moves = [("a", 0, 2), ("c", 2, 1), ("b", 1, 1), ("zz", 0, 1), ("a", 2, 0)];
    for (id, from, to) in moves {
        assert!(b.start_drag(0, 0) || b.start_drag(1, 0) || b.start_drag(2, 0));
        let _ = b.move_card(&s(id), from, to);
        assert_eq!(total(&b), 3);
    }
    assert_eq!(lane_ids(&b, 0), vec![s("a")]);
    assert_eq!(lane_ids(&b, 1), vec![s("c"), s("b")]);
    assert_eq!(b.lane_len(2), 0);
}

#[test]
fn move_within_lane_puts_card_last() {
    let mut b = board_with(&[(1, "a"), (1, "b"), (1, "c")]);
    assert!(b.start_drag(1, 0));
    assert_eq!(b.drop_on(1), Ok(()));
    assert_eq!(lane_ids(&b, 1), vec![s("b"), s("c"), s("a")]);
    assert_eq!(b.card_at(1, 2).lane_id, 1);
    assert_eq!(total(&b), 3);
}

#[test]
fn move_without_drag_is_refused() {
    let mut b = board_with(&[(0, "a")]);
    assert_eq!(b.move_card(&s("a"), 0, 1), Err(MoveError::NoDraggedCard));
    assert_eq!(b.drop_on(1), Err(MoveError::NoDraggedCard));
    assert_eq!(lane_ids(&b, 0), vec![s("a")]);
    assert_eq!(b.lane_len(1), 0);
}

#[test]
fn move_with_lane_out_of_range_is_refused() {
    let mut b = board_with(&[(0, "a")]);
    assert!(b.start_drag(0, 0));
    assert_eq!(b.move_card(&s("a"), 0, 3), Err(MoveError::LaneOutOfRange));
    assert!(b.dragged_card().is_none());
    assert!(b.start_drag(0, 0));
    assert_eq!(b.move_card(&s("a"), 7, 1), Err(MoveError::LaneOutOfRange));
    assert_eq!(lane_ids(&b, 0), vec![s("a")]);
}

#[test]
fn end_drag_clears_marker() {
    let mut b = board_with(&[(0, "a")]);
    assert!(b.start_drag(0, 0));
    b.end_drag();
    assert!(b.dragged_card().is_none());
    assert_eq!(b.drop_on(2), Err(MoveError::NoDraggedCard));
    assert_eq!(lane_ids(&b, 0), vec![s("a")]);
}

#[test]
fn start_drag_out_of_range_changes_nothing() {
    let mut b = board_with(&[(0, "a")]);
    assert!(!b.start_drag(0, 1));
    assert!(!b.start_drag(3, 0));
    assert!(b.dragged_card().is_none());
    assert!(b.start_drag(0, 0));
    assert!(!b.start_drag(1, 0));
    assert_eq!(b.dragged_card().map(|c| c.id.clone()), Some(s("a")));
}

#[test]
fn create_card_appends_with_new_id() {
    let mut b = board_with(&[(2, "a"), (2, "b")]);
    assert_eq!(b.create_card(2, s("c"), s("T"), s("D")), Ok(()));
    assert_eq!(lane_ids(&b, 2), vec![s("a"), s("b"), s("c")]);
    let c = b.card_at(2, 2);
    assert_eq!((c.lane_id, c.title.as_str()), (2, "T"));
    assert_eq!(c.description, Some(s("D")));
    assert!(b.contains_card(&s("c")));
    assert!(!b.contains_card(&s("d")));
}

#[test]
fn create_card_with_used_id_is_refused() {
    let mut b = board_with(&[(0, "a")]);
    assert_eq!(b.create_card(1, s("a"), s("T"), s("D")), Err(CreateError::DuplicateId));
    assert_eq!(b.lane_len(1), 0);
    assert_eq!(total(&b), 1);
}

#[test]
fn create_card_in_missing_lane_is_refused() {
    let mut b = KanbanBoard::new();
    assert_eq!(b.create_card(3, s("a"), s("T"), s("D")), Err(CreateError::LaneOutOfRange));
    assert_eq!(total(&b), 0);
}

#[test]
fn new_task_adds_card_with_placeholder_content() {
    let mut b = KanbanBoard::new();
    assert_eq!(b.new_task(1), Ok(()));
    assert_eq!(b.new_task(1), Ok(()));
    assert_eq!(b.lane_len(1), 2);
    let (c0, c1) = (b.card_at(1, 0), b.card_at(1, 1));
    assert_eq!(c0.id.chars().count(), 36);
    assert_ne!(c0.id, c1.id);
    assert_eq!(c0.lane_id, 1);
    assert!(!c0.title.is_empty());
    let words = c0.description.as_ref().unwrap().split(' ').count();
    assert!(MIN_WORDS <= words && words < MAX_WORDS);
    assert_eq!(b.new_task(5), Err(CreateError::LaneOutOfRange));
}

#[test]
fn edit_title_changes_only_that_card() {
    let mut b = board_with(&[(0, "a"), (1, "b")]);
    assert!(b.set_title(&s("b"), s("new")));
    let c = b.card_at(1, 0);
    assert_eq!((c.id.as_str(), c.lane_id, c.title.as_str()), ("b", 1, "new"));
    assert_eq!(c.description, Some(s("desc b")));
    let a = b.card_at(0, 0);
    assert_eq!((a.title.as_str(), a.description.clone()), ("title a", Some(s("desc a"))));
    assert!(!b.set_title(&s("zz"), s("q")));
}

#[test]
fn edit_description_changes_only_that_card() {
    let mut b = board_with(&[(0, "a"), (0, "b")]);
    assert!(b.set_description(&s("a"), s("changed")));
    let c = b.card_at(0, 0);
    assert_eq!((c.id.as_str(), c.lane_id, c.title.as_str()), ("a", 0, "title a"));
    assert_eq!(c.description, Some(s("changed")));
    assert_eq!(b.card_at(0, 1).description, Some(s("desc b")));
    assert!(!b.set_description(&s("zz"), s("q")));
}

#[test]
fn join_words_separates_by_single_spaces() {
    assert_eq!(join_words(&vec![s("a"), s("bc"), s("d")]), "a bc d");
    assert_eq!(join_words(&vec![s("solo")]), "solo");
    assert_eq!(join_words(&vec![]), "");
}

#[test]
fn card_duplicate_keeps_fields() {
    let b = board_with(&[(2, "a")]);
    let c = b.card_at(2, 0).duplicate();
    assert_eq!((c.id, c.title, c.lane_id), (s("a"), s("title a"), 2));
}

#[test]
fn edit_mode_and_drop_zone_transitions() {
    let m = EditMode::Viewing;
    assert!(!m.is_editing());
    assert_eq!(m.edit(), EditMode::Editing);
    assert!(m.edit().is_editing());
    assert_eq!(m.edit().save(), EditMode::Viewing);
    let z = DropZone::Idle;
    assert!(z.drag_enter().is_hovering());
    assert_eq!(z.drag_enter().drag_leave(), DropZone::Idle);
    assert_eq!(z.drag_enter().drop(), DropZone::Idle);
}
