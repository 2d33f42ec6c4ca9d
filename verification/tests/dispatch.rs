use botnana::{Action, Botnana};

fn call(pointer: usize, callback: usize, text: &str) -> Action {
    Action::Call { pointer, callback, text: text.to_string() }
}

fn indexed(pointer: usize, callback: usize, index0: u32, index1: u32, text: &str) -> Action {
    Action::CallIndexed { pointer, callback, index0, index1, text: text.to_string() }
}

#[test]
fn handler_with_count_three_fires_three_times() {
    let mut b = Botnana::new();
    b.set_tag_callback("ready", 3, 7, 1);
    for _ in 0..3 {
        assert_eq!(b.handle_message("ready|ok"), vec![call(7, 1, "ok"), Action::Flush]);
    }
    assert_eq!(b.handle_message("ready|ok"), vec![Action::Flush]);
    assert_eq!(b.handle_message("ready|ok"), vec![Action::Flush]);
}

#[test]
fn handler_with_count_zero_stays() {
    let mut b = Botnana::new();
    b.set_tag_callback("ready", 0, 7, 1);
    for _ in 0..50 {
        assert_eq!(b.handle_message("ready|ok"), vec![call(7, 1, "ok"), Action::Flush]);
    }
}

#[test]
fn handlers_are_invoked_most_recent_first() {
    let mut b = Botnana::new();
    b.set_tag_callback("t", 0, 1, 10);
    b.set_tag_callback("t", 1, 2, 20);
    b.set_tag_callback("t", 2, 3, 30);
    assert_eq!(
        b.handle_message("t|v"),
        vec![call(3, 30, "v"), call(2, 20, "v"), call(1, 10, "v"), Action::Flush]
    );
    assert_eq!(b.handle_message("t|v"), vec![call(3, 30, "v"), call(1, 10, "v"), Action::Flush]);
    assert_eq!(b.handle_message("t|v"), vec![call(1, 10, "v"), Action::Flush]);
}

#[test]
fn paths_run_internal_then_indexed_then_simple() {
    let mut first = Botnana::new();
    first.set_tag_callback("pos.1.2", 0, 1, 10);
    first.set_tagname_callback("pos", 0, 2, 20);
    first.set_internal_handler("pos");
    let mut second = Botnana::new();
    second.set_internal_handler("pos");
    second.set_tagname_callback("pos", 0, 2, 20);
    second.set_tag_callback("pos.1.2", 0, 1, 10);
    let expected = vec![
        Action::Mutate { key: "pos".to_string(), slot0: 1, slot1: 2, value: "5".to_string() },
        indexed(2, 20, 1, 2, "5"),
        call(1, 10, "5"),
        Action::Flush,
    ];
    assert_eq!(first.handle_message("pos.1.2|5"), expected);
    assert_eq!(second.handle_message("pos.1.2|5"), expected);
}

#[test]
fn events_are_dispatched_in_frame_order() {
    let mut b = Botnana::new();
    b.set_tag_callback("a", 0, 1, 1);
    b.set_tag_callback("b", 0, 2, 2);
    b.set_tag_callback("c", 0, 3, 3);
    assert_eq!(
        b.handle_message("b|1|a|2\nc|3|b|4\n"),
        vec![call(2, 2, "1"), call(1, 1, "2"), call(3, 3, "3"), call(2, 2, "4"), Action::Flush]
    );
}

#[test]
fn handler_expires_within_one_frame() {
    let mut b = Botnana::new();
    b.set_tag_callback("a", 1, 1, 1);
    assert_eq!(b.handle_message("a|1|a|2"), vec![call(1, 1, "1"), Action::Flush]);
}

#[test]
fn simple_registry_uses_the_full_key() {
    let mut b = Botnana::new();
    b.set_tag_callback("pos", 0, 1, 1);
    assert_eq!(b.handle_message("pos.1|9"), vec![Action::Flush]);
    assert_eq!(b.handle_message("pos|9"), vec![call(1, 1, "9"), Action::Flush]);
}

#[test]
fn indices_are_aligned_to_the_right() {
    let mut b = Botnana::new();
    b.set_tagname_callback("pos", 0, 1, 1);
    assert_eq!(b.handle_message("pos|v"), vec![indexed(1, 1, 0, 0, "v"), Action::Flush]);
    assert_eq!(b.handle_message("pos.4|v"), vec![indexed(1, 1, 0, 4, "v"), Action::Flush]);
    assert_eq!(b.handle_message("pos.4.5|v"), vec![indexed(1, 1, 4, 5, "v"), Action::Flush]);
    assert_eq!(b.handle_message("pos.4.5.6|v"), vec![indexed(1, 1, 4, 5, "v"), Action::Flush]);
}

#[test]
fn non_numeric_index_counts_as_zero() {
    let mut b = Botnana::new();
    b.set_tagname_callback("pos", 0, 1, 1);
    assert_eq!(b.handle_message("pos.x.5|v"), vec![indexed(1, 1, 0, 5, "v"), Action::Flush]);
    assert_eq!(b.handle_message("pos.4.-5|v"), vec![indexed(1, 1, 4, 0, "v"), Action::Flush]);
    assert_eq!(b.handle_message("pos..|v"), vec![indexed(1, 1, 0, 0, "v"), Action::Flush]);
    assert_eq!(b.handle_message("pos.+7.007|v"), vec![indexed(1, 1, 7, 7, "v"), Action::Flush]);
    assert_eq!(b.handle_message("pos.+.1 |v"), vec![indexed(1, 1, 0, 0, "v"), Action::Flush]);
}

#[test]
fn index_beyond_the_range_counts_as_zero() {
    let mut b = Botnana::new();
    b.set_tagname_callback("pos", 0, 1, 1);
    assert_eq!(
        b.handle_message("pos.4294967295.4294967296|v"),
        vec![indexed(1, 1, 4294967295, 0, "v"), Action::Flush]
    );
}

#[test]
fn internal_indices_have_the_range_of_a_machine_word() {
    let mut b = Botnana::new();
    b.set_internal_handler("pos");
    assert_eq!(
        b.handle_message("pos.3.99999999999999999999999999|v"),
        vec![
            Action::Mutate { key: "pos".to_string(), slot0: 3, slot1: 0, value: "v".to_string() },
            Action::Flush
        ]
    );
}

#[test]
fn unmatched_trailing_key_is_dropped() {
    let mut b = Botnana::new();
    b.set_tag_callback("a", 0, 1, 1);
    b.set_tag_callback("b", 0, 2, 2);
    assert_eq!(b.handle_message("a|1|b"), vec![call(1, 1, "1"), Action::Flush]);
    assert_eq!(b.handle_message("b"), vec![Action::Flush]);
    assert_eq!(b.handle_message("a|1|b\nb|2"), vec![call(1, 1, "1"), call(2, 2, "2"), Action::Flush]);
}

#[test]
fn key_loses_leading_white_space_and_value_keeps_it() {
    let mut b = Botnana::new();
    b.set_tag_callback("a", 0, 1, 1);
    assert_eq!(b.handle_message("  a| 1 | \ta| 2"), vec![call(1, 1, " 1 "), call(1, 1, " 2"), Action::Flush]);
    assert_eq!(b.handle_message("a |1"), vec![Action::Flush]);
}

#[test]
fn frame_loses_leading_white_space_and_markers() {
    let mut b = Botnana::new();
    b.set_tag_callback("a", 0, 1, 1);
    assert_eq!(b.handle_message(" \n ||a|1"), vec![call(1, 1, "1"), Action::Flush]);
    assert_eq!(b.handle_message("|a|1"), vec![call(1, 1, "1"), Action::Flush]);
    assert_eq!(b.handle_message("| |a|1"), vec![Action::Flush]);
}

#[test]
fn empty_frame_runs_the_hook_only() {
    let mut b = Botnana::new();
    b.set_on_message_cb(9, 9);
    assert_eq!(b.handle_message(""), vec![Action::Flush]);
}

#[test]
fn raw_message_handler_gets_the_frame_ended_by_a_line_feed() {
    let mut b = Botnana::new();
    b.set_on_message_cb(9, 8);
    assert_eq!(b.handle_message("a|1"), vec![call(9, 8, "a|1\n"), Action::Flush]);
    assert_eq!(b.handle_message("a|1\n"), vec![call(9, 8, "a|1\n"), Action::Flush]);
    assert_eq!(b.handle_message(" |a|1"), vec![call(9, 8, " |a|1\n"), Action::Flush]);
}

#[test]
fn emptied_key_can_be_registered_again() {
    let mut b = Botnana::new();
    b.set_tagname_callback("n", 1, 1, 1);
    assert_eq!(b.handle_message("n.1|v"), vec![indexed(1, 1, 0, 1, "v"), Action::Flush]);
    assert_eq!(b.handle_message("n.1|v"), vec![Action::Flush]);
    b.set_tagname_callback("n", 1, 2, 2);
    assert_eq!(b.handle_message("n.1|v"), vec![indexed(2, 2, 0, 1, "v"), Action::Flush]);
}

#[test]
fn unicode_white_space_and_text() {
    let mut b = Botnana::new();
    b.set_tag_callback("é", 0, 1, 1);
    assert_eq!(b.handle_message("\u{3000}\u{a0}é|値"), vec![call(1, 1, "値"), Action::Flush]);
}
