use botnana::{Action, Botnana, Client};

fn call(pointer: usize, callback: usize, text: &str) -> Action {
    Action::Call { pointer, callback, text: text.to_string() }
}

fn evaluate_frame(quoted: &str) -> String {
    format!("{{\"jsonrpc\":\"2.0\",\"method\":\"script.evaluate\",\"params\":{{\"script\":{}}}}}", quoted)
}

fn connected() -> Botnana {
    let mut b = Botnana::new();
    b.connect();
    b.opened();
    b
}

#[test]
fn new_engine_has_the_defaults() {
    let b = Botnana::new();
    assert_eq!(b.ip(), "192.168.7.2");
    assert_eq!(b.port(), 3012);
    assert_eq!(b.url(), "ws://192.168.7.2:3012");
    assert_eq!(b.mb_url(), "192.168.7.2:502");
    assert_eq!(b.poll_interval_ms(), 10);
    assert!(!b.is_connected());
    assert!(!b.has_ws_sender());
    assert!(!b.is_mb_connected());
    assert_eq!(b.scripts_buffer_len(), 0);
    assert_eq!(Botnana::version(), "0.1.0");
}

#[test]
fn connect_asks_for_one_handshake() {
    let mut b = Botnana::new();
    assert_eq!(b.connect(), vec![Action::Handshake { url: "ws://192.168.7.2:3012".to_string() }]);
    assert!(!b.is_connected());
}

#[test]
fn second_connect_while_connecting_is_a_no_op() {
    let mut b = Botnana::new();
    assert_eq!(b.connect().len(), 1);
    assert_eq!(b.connect(), vec![]);
    assert_eq!(b.connect(), vec![]);
}

#[test]
fn connect_while_connected_is_a_no_op() {
    let mut b = connected();
    assert!(b.is_connected());
    assert_eq!(b.connect(), vec![]);
}

#[test]
fn connect_after_an_error_asks_again() {
    let mut b = connected();
    b.execute_on_error_cb("gone\n");
    assert_eq!(b.connect(), vec![Action::Handshake { url: "ws://192.168.7.2:3012".to_string() }]);
}

#[test]
fn opened_starts_the_workers_and_reports() {
    let mut b = Botnana::new();
    b.set_on_open_cb(5, 6);
    b.connect();
    assert_eq!(
        b.opened(),
        vec![Action::StartWorkers, call(5, 6, "Connect to ws://192.168.7.2:3012 (0.1.0)")]
    );
    assert!(b.is_connected());
    assert!(b.has_ws_sender());
}

#[test]
fn opened_without_handler_only_starts_the_workers() {
    let mut b = Botnana::new();
    b.connect();
    assert_eq!(b.opened(), vec![Action::StartWorkers]);
}

#[test]
fn error_clears_the_connection_and_reports_once() {
    let mut b = connected();
    b.set_on_error_cb(3, 4);
    b.send_script_to_buffer("1 .");
    assert_eq!(b.scripts_buffer_len(), 1);
    assert_eq!(b.execute_on_error_cb("Send Message Error: x\n"), vec![call(3, 4, "Send Message Error: x\n")]);
    assert!(!b.is_connected());
    assert!(!b.has_ws_sender());
    assert_eq!(b.scripts_buffer_len(), 0);
    assert_eq!(b.send_message("x"), vec![]);
}

#[test]
fn closed_clears_without_report() {
    let mut b = connected();
    b.set_on_error_cb(3, 4);
    b.send_script_to_buffer("1 .");
    b.closed();
    assert!(!b.is_connected());
    assert_eq!(b.scripts_buffer_len(), 0);
    assert_eq!(b.connect().len(), 1);
}

#[test]
fn disconnect_closes_only_with_a_handle() {
    let mut b = Botnana::new();
    assert_eq!(b.disconnect(), vec![]);
    b.connect();
    assert_eq!(b.disconnect(), vec![]);
    b.opened();
    assert_eq!(b.disconnect(), vec![Action::Close]);
    assert!(b.is_connected());
}

#[test]
fn send_message_needs_a_handle() {
    let mut b = Botnana::new();
    b.set_on_send_cb(1, 2);
    assert_eq!(b.send_message("hello"), vec![]);
    b.connect();
    assert_eq!(b.send_message("hello"), vec![]);
    b.opened();
    assert_eq!(
        b.send_message("hello"),
        vec![call(1, 2, "hello"), Action::Transmit { text: "hello".to_string() }]
    );
}

#[test]
fn evaluate_wraps_the_script_as_json() {
    let mut b = connected();
    assert_eq!(
        b.evaluate("1 ."),
        vec![Action::Transmit { text: evaluate_frame("\"1 .\"") }]
    );
    assert_eq!(
        b.evaluate("say \"hi\"\n\\"),
        vec![Action::Transmit { text: evaluate_frame("\"say \\\"hi\\\"\\n\\\\\"") }]
    );
}

#[test]
fn evaluate_reports_the_request_to_the_send_handler() {
    let mut b = connected();
    b.set_on_send_cb(1, 2);
    let frame = evaluate_frame("\"abort-program\"");
    assert_eq!(b.abort_program(), vec![call(1, 2, &frame), Action::Transmit { text: frame.clone() }]);
}

#[test]
fn evaluate_without_handle_does_nothing() {
    let mut b = Botnana::new();
    assert_eq!(b.evaluate("1 ."), vec![]);
}

#[test]
fn program_requests() {
    let mut b = connected();
    assert_eq!(
        b.program_run("main"),
        vec![Action::Transmit { text: evaluate_frame("\"deploy user$main ;deploy\"") }]
    );
    assert_eq!(
        b.program_deploy(": user$main\nend-of-program ;\n"),
        vec![Action::Transmit {
            text: evaluate_frame(
                "\"deploy : user$main\\nend-of-program ;\\n\\n 10 emit .( deployed|ok) 10 emit cr ;deploy\""
            )
        }]
    );
}

#[test]
fn set_ip_takes_an_address_that_parses() {
    let mut b = Botnana::new();
    b.set_ip("10.0.0.5");
    assert_eq!(b.ip(), "10.0.0.5");
    assert_eq!(b.url(), "ws://10.0.0.5:3012");
    assert_eq!(b.mb_url(), "10.0.0.5:502");
    b.set_ip("motion.example");
    assert_eq!(b.ip(), "motion.example");
}

#[test]
fn set_ip_keeps_the_address_otherwise() {
    let mut b = Botnana::new();
    b.set_ip("not an address");
    assert_eq!(b.ip(), "192.168.7.2");
    b.set_ip("300.1.1.1");
    assert_eq!(b.ip(), "192.168.7.2");
    b.set_ip("");
    assert_eq!(b.ip(), "192.168.7.2");
}

#[test]
fn watchdog_without_message_reports_and_shuts_down() {
    let mut b = Botnana::new();
    b.set_on_error_cb(3, 4);
    let mut c = Client::new(10_000);
    assert_eq!(c.on_open(), vec![Action::ArmWatchdog { period_ms: 10_000 }, Action::HandOver]);
    assert_eq!(c.on_timeout(&b), vec![call(3, 4, "WS Client timeout!\n"), Action::Shutdown]);
}

#[test]
fn watchdog_without_handler_still_shuts_down() {
    let b = Botnana::new();
    let mut c = Client::new(500);
    assert_eq!(c.on_timeout(&b), vec![Action::Shutdown]);
}

#[test]
fn watchdog_after_a_message_rearms_silently() {
    let mut b = Botnana::new();
    b.set_on_error_cb(3, 4);
    let mut c = Client::new(10_000);
    c.on_open();
    assert_eq!(c.on_message("a|1"), vec![Action::Deliver { text: "a|1".to_string() }]);
    assert_eq!(c.on_message("b|2"), vec![Action::Deliver { text: "b|2".to_string() }]);
    assert_eq!(c.on_timeout(&b), vec![Action::ArmWatchdog { period_ms: 10_000 }]);
    assert_eq!(c.on_timeout(&b), vec![call(3, 4, "WS Client timeout!\n"), Action::Shutdown]);
}

#[test]
fn empty_message_refreshes_the_watchdog_only() {
    let b = Botnana::new();
    let mut c = Client::new(7);
    assert_eq!(c.on_message(""), vec![]);
    assert_eq!(c.on_timeout(&b), vec![Action::ArmWatchdog { period_ms: 7 }]);
}

#[test]
fn transport_error_and_close_are_reported() {
    let mut b = Botnana::new();
    b.set_on_error_cb(3, 4);
    let mut c = Client::new(10_000);
    assert_eq!(c.on_error(&b, "Io(refused)"), vec![call(3, 4, "Io(refused)\n")]);
    assert_eq!(
        c.on_close(&b, "Normal", "bye"),
        vec![call(3, 4, "WS Client close code = Normal, reason = bye\n")]
    );
    assert_eq!(c.execute_on_error_cb(&b, "x"), vec![call(3, 4, "x")]);
}

#[test]
fn port_is_part_of_the_endpoint() {
    let mut b = Botnana::new();
    b.set_port(80);
    assert_eq!(b.port(), 80);
    assert_eq!(b.url(), "ws://192.168.7.2:80");
    assert_eq!(b.connect(), vec![Action::Handshake { url: "ws://192.168.7.2:80".to_string() }]);
    assert_eq!(b.mb_url(), "192.168.7.2:502");
}

#[test]
fn send_failure_is_a_terminal_event() {
    let mut b = connected();
    b.set_on_error_cb(3, 4);
    assert_eq!(b.send_failed("sending on a closed channel"), vec![call(
        3,
        4,
        "Send Message Error: sending on a closed channel\n"
    )]);
    assert!(!b.is_connected());
    assert!(!b.has_ws_sender());
}

#[test]
fn worker_failure_is_a_terminal_event() {
    let mut b = connected();
    b.set_on_error_cb(3, 4);
    assert_eq!(b.worker_failed("POLL", "no threads left"), vec![call(
        3,
        4,
        "Can't create POLL thread (no threads left)\n"
    )]);
    assert!(!b.is_connected());
}

#[test]
fn open_and_send_reports() {
    let mut b = Botnana::new();
    assert_eq!(b.execute_on_open_cb(), vec![]);
    assert_eq!(b.execute_on_send_cb("m"), vec![]);
    b.set_on_open_cb(1, 2);
    b.set_on_send_cb(3, 4);
    assert_eq!(b.execute_on_open_cb(), vec![call(1, 2, "Connect to ws://192.168.7.2:3012 (0.1.0)")]);
    assert_eq!(b.execute_on_send_cb("m"), vec![call(3, 4, "m")]);
}
