use botnana::{Action, Botnana};

fn evaluate(script_json: &str) -> Vec<Action> {
    vec![Action::Transmit {
        text: format!(
            "{{\"jsonrpc\":\"2.0\",\"method\":\"script.evaluate\",\"params\":{{\"script\":{}}}}}",
            script_json
        ),
    }]
}

fn heartbeat() -> Vec<Action> {
    vec![Action::Heartbeat { text: "{\"jsonrpc\":\"2.0\",\"method\":\"motion.poll\"}".to_string() }]
}

fn connected() -> Botnana {
    let mut b = Botnana::new();
    b.connect();
    b.opened();
    b
}

#[test]
fn outbound_queue_is_first_in_first_out() {
    let mut b = connected();
    b.set_scripts_pop_count(2);
    b.send_script_to_buffer("a");
    b.send_script_to_buffer("b");
    b.send_script_to_buffer("c");
    assert_eq!(b.scripts_buffer_len(), 3);
    assert_eq!(b.poll(false), evaluate("\"a\\nb\\n\""));
    assert_eq!(b.scripts_buffer_len(), 1);
    assert_eq!(b.poll(false), evaluate("\"c\\n\""));
    assert_eq!(b.scripts_buffer_len(), 0);
    assert_eq!(b.poll(false), heartbeat());
}

#[test]
fn default_batch_takes_eight_scripts() {
    let mut b = connected();
    for i in 0..10 {
        b.send_script_to_buffer(&format!("{}", i));
    }
    assert_eq!(b.pop_scripts_buffer(), evaluate("\"0\\n1\\n2\\n3\\n4\\n5\\n6\\n7\\n\""));
    assert_eq!(b.scripts_buffer_len(), 2);
}

#[test]
fn script_is_not_buffered_without_a_handle() {
    let mut b = Botnana::new();
    b.send_script_to_buffer("a");
    assert_eq!(b.scripts_buffer_len(), 0);
}

#[test]
fn teardown_signal_stops_the_scheduler_first() {
    let mut b = connected();
    b.send_script_to_buffer("a");
    assert_eq!(b.poll(true), vec![Action::StopPolling]);
    assert_eq!(b.scripts_buffer_len(), 1);
}

#[test]
fn idle_tick_sends_a_heartbeat() {
    let mut b = connected();
    assert_eq!(b.poll(false), heartbeat());
    assert_eq!(b.poll(false), heartbeat());
}

#[test]
fn scripts_come_before_queries() {
    let mut b = connected();
    b.add_cyclic_query("q ");
    b.send_script_to_buffer("a");
    assert_eq!(b.poll(false), evaluate("\"a\\n\""));
    assert_eq!(b.poll(false), evaluate("\"q \""));
}

#[test]
fn init_queries_are_sent_once_and_first() {
    let mut b = connected();
    b.set_query_count(2);
    b.add_cyclic_query("c1 ");
    b.add_init_query("i1 ");
    b.add_init_query("i2 ");
    b.add_init_query("i3 ");
    assert_eq!(b.poll(false), evaluate("\"i1 i2 \""));
    assert_eq!(b.poll(false), evaluate("\"i3 \""));
    assert_eq!(b.poll(false), evaluate("\"c1 \""));
    assert_eq!(b.poll(false), evaluate("\"c1 \""));
}

#[test]
fn cyclic_cursor_visits_every_query_once_per_round() {
    let mut b = connected();
    b.set_query_count(2);
    for q in ["q0 ", "q1 ", "q2 ", "q3 ", "q4 "] {
        b.add_cyclic_query(q);
    }
    for _ in 0..3 {
        assert_eq!(b.poll(false), evaluate("\"q0 q1 \""));
        assert_eq!(b.poll(false), evaluate("\"q2 q3 \""));
        assert_eq!(b.poll(false), evaluate("\"q4 \""));
    }
}

#[test]
fn cyclic_cursor_wraps_when_the_batch_ends_at_the_list_end() {
    let mut b = connected();
    b.set_query_count(2);
    for q in ["q0 ", "q1 ", "q2 ", "q3 "] {
        b.add_cyclic_query(q);
    }
    assert_eq!(b.send_internal_query_command(), (2, evaluate("\"q0 q1 \"")));
    assert_eq!(b.send_internal_query_command(), (2, evaluate("\"q2 q3 \"")));
    assert_eq!(b.send_internal_query_command(), (2, evaluate("\"q0 q1 \"")));
}

#[test]
fn default_query_batch_is_three() {
    let mut b = connected();
    for q in ["a ", "b ", "c ", "d "] {
        b.add_cyclic_query(q);
    }
    assert_eq!(b.send_internal_query_command(), (3, evaluate("\"a b c \"")));
    assert_eq!(b.send_internal_query_command(), (1, evaluate("\"d \"")));
}

#[test]
fn query_batch_of_zero_sends_heartbeats() {
    let mut b = connected();
    b.set_query_count(0);
    b.add_init_query("i ");
    b.add_cyclic_query("c ");
    assert_eq!(b.send_internal_query_command(), (0, vec![]));
    assert_eq!(b.poll(false), heartbeat());
}

#[test]
fn queries_count_without_a_handle_but_nothing_is_sent() {
    let mut b = Botnana::new();
    b.add_cyclic_query("c ");
    assert_eq!(b.send_internal_query_command(), (1, vec![]));
    assert_eq!(b.poll(false), vec![]);
}

#[test]
fn flush_sends_the_whole_queue_at_once() {
    let mut b = connected();
    b.set_scripts_pop_count(1);
    b.send_script_to_buffer("a");
    b.send_script_to_buffer("b");
    b.send_script_to_buffer("c");
    assert_eq!(b.flush_scripts_buffer(), evaluate("\"a\\nb\\nc\\n\""));
    assert_eq!(b.scripts_buffer_len(), 0);
    assert_eq!(b.flush_scripts_buffer(), vec![]);
}

#[test]
fn pop_count_of_zero_sends_an_empty_script() {
    let mut b = connected();
    b.set_scripts_pop_count(0);
    b.send_script_to_buffer("a");
    assert_eq!(b.poll(false), evaluate("\"\""));
    assert_eq!(b.scripts_buffer_len(), 1);
}
