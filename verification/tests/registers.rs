use botnana::{chunk_plan, register_slots, Action, Botnana, Chunk, Exchange, RegisterError};

#[test]
fn block_of_200_words_falls_into_two_chunks() {
    assert_eq!(chunk_plan(200), vec![Chunk { start: 0, count: 121 }, Chunk { start: 121, count: 79 }]);
}

#[test]
fn block_of_384_words_falls_into_four_chunks() {
    assert_eq!(
        chunk_plan(384),
        vec![
            Chunk { start: 0, count: 121 },
            Chunk { start: 121, count: 121 },
            Chunk { start: 242, count: 121 },
            Chunk { start: 363, count: 21 },
        ]
    );
}

#[test]
fn chunk_plan_edge_cases() {
    assert_eq!(chunk_plan(0), vec![]);
    assert_eq!(chunk_plan(1), vec![Chunk { start: 0, count: 1 }]);
    assert_eq!(chunk_plan(121), vec![Chunk { start: 0, count: 121 }]);
    assert_eq!(chunk_plan(122), vec![Chunk { start: 0, count: 121 }, Chunk { start: 121, count: 1 }]);
}

#[test]
fn published_inputs_reflect_both_chunks() {
    let (mut bridge, mut table) = register_slots(200);
    let plan = bridge.plan();
    assert_eq!(plan.len(), 2);
    bridge.begin_cycle();
    assert!(bridge.complete(plan[0], Some(vec![1; 121])));
    assert!(bridge.complete(plan[1], Some(vec![2; 79])));
    bridge.publish();
    assert_eq!(table.u16(0), Ok(0));
    table.update();
    for addr in 0..121 {
        assert_eq!(table.u16(addr), Ok(1));
    }
    for addr in 121..200 {
        assert_eq!(table.u16(addr), Ok(2));
    }
    assert_eq!(table.u16(200), Err(RegisterError::OutOfRange));
}

#[test]
fn failed_second_chunk_leaves_only_its_slice_stale() {
    let (mut bridge, mut table) = register_slots(200);
    let plan = bridge.plan();
    bridge.begin_cycle();
    bridge.complete(plan[0], Some(vec![1; 121]));
    bridge.complete(plan[1], Some(vec![2; 79]));
    bridge.publish();
    bridge.begin_cycle();
    assert!(bridge.complete(plan[0], Some(vec![3; 121])));
    assert!(!bridge.complete(plan[1], None));
    bridge.publish();
    table.update();
    for addr in 0..121 {
        assert_eq!(table.u16(addr), Ok(3));
    }
    for addr in 121..200 {
        assert_eq!(table.u16(addr), Ok(2));
    }
}

#[test]
fn result_of_the_wrong_length_counts_as_a_failure() {
    let (mut bridge, mut table) = register_slots(200);
    let plan = bridge.plan();
    assert!(!bridge.complete(plan[1], Some(vec![9; 121])));
    assert!(!bridge.complete(Chunk { start: 150, count: 51 }, Some(vec![9; 51])));
    bridge.publish();
    table.update();
    for addr in 0..200 {
        assert_eq!(table.u16(addr), Ok(0));
    }
}

#[test]
fn reader_sees_the_latest_publication() {
    let (mut bridge, mut table) = register_slots(4);
    for round in 1..=5u16 {
        assert!(bridge.complete(Chunk { start: 0, count: 4 }, Some(vec![round; 4])));
        bridge.publish();
    }
    table.update();
    assert_eq!(table.u16(3), Ok(5));
    table.update();
    assert_eq!(table.u16(3), Ok(5));
}

#[test]
fn requests_carry_the_published_holding_values() {
    let (mut bridge, mut table) = register_slots(200);
    assert_eq!(table.set_u16(0, 11), Ok(()));
    assert_eq!(table.set_u16(120, 12), Ok(()));
    assert_eq!(table.set_u16(121, 13), Ok(()));
    assert_eq!(table.set_u16(199, 14), Ok(()));
    assert_eq!(table.set_u16(200, 15), Err(RegisterError::OutOfRange));
    let plan = bridge.plan();
    bridge.begin_cycle();
    assert_eq!(
        bridge.request(plan[0]),
        Some(Exchange { read_address: 30001, count: 121, write_address: 40001, words: vec![0; 121] })
    );
    table.publish();
    bridge.begin_cycle();
    let mut first = vec![0u16; 121];
    first[0] = 11;
    first[120] = 12;
    let mut second = vec![0u16; 79];
    second[0] = 13;
    second[78] = 14;
    assert_eq!(
        bridge.request(plan[0]),
        Some(Exchange { read_address: 30001, count: 121, write_address: 40001, words: first })
    );
    assert_eq!(
        bridge.request(plan[1]),
        Some(Exchange { read_address: 30122, count: 79, write_address: 40122, words: second })
    );
}

#[test]
fn no_request_for_a_chunk_outside_the_block() {
    let (bridge, _table) = register_slots(10);
    assert_eq!(bridge.request(Chunk { start: 5, count: 6 }), None);
    assert_eq!(bridge.request(Chunk { start: 5, count: 0 }), None);
    assert!(bridge.request(Chunk { start: 5, count: 5 }).is_some());
    let (wide, _table) = register_slots(200);
    assert_eq!(wide.request(Chunk { start: 0, count: 122 }), None);
    assert!(wide.request(Chunk { start: 79, count: 121 }).is_some());
}

#[test]
fn no_request_beyond_the_last_address() {
    let (bridge, _table) = register_slots(25540);
    assert_eq!(bridge.request(Chunk { start: 25534, count: 2 }), None);
    assert_eq!(
        bridge.request(Chunk { start: 25534, count: 1 }),
        Some(Exchange { read_address: 55535, count: 1, write_address: 65535, words: vec![0] })
    );
}

#[test]
fn engine_hands_out_the_bridge_once() {
    let mut b = Botnana::new();
    let (bridge, actions) = b.mb_connect();
    assert!(bridge.is_some());
    assert_eq!(actions, vec![Action::ConnectRegisters { address: "192.168.7.2:502".to_string() }]);
    assert_eq!(bridge.unwrap().plan().len(), 4);
    let (again, actions) = b.mb_connect();
    assert!(again.is_none());
    assert_eq!(actions, vec![]);
}

#[test]
fn failed_register_handshake_retries_after_the_pause() {
    let mut b = Botnana::new();
    assert_eq!(b.mb_handshake(false), vec![Action::RetryRegisters { delay_ms: 1500 }]);
    assert!(!b.is_mb_connected());
    assert_eq!(b.mb_handshake(true), vec![]);
    assert!(b.is_mb_connected());
}

#[test]
fn engine_reads_and_writes_the_shared_slots() {
    let mut b = Botnana::new();
    let (bridge, _) = b.mb_connect();
    let mut bridge = bridge.unwrap();
    assert_eq!(b.mb_set_u16(383, 77), Ok(()));
    assert_eq!(b.mb_set_u16(384, 77), Err(RegisterError::OutOfRange));
    b.mb_publish();
    bridge.begin_cycle();
    let plan = bridge.plan();
    let last = bridge.request(plan[3]).unwrap();
    assert_eq!(last.read_address, 30364);
    assert_eq!(last.write_address, 40364);
    assert_eq!(last.words[20], 77);
    assert!(bridge.complete(plan[3], Some(vec![5; 21])));
    bridge.publish();
    assert_eq!(b.mb_u16(383), Ok(0));
    b.mb_update();
    assert_eq!(b.mb_u16(383), Ok(5));
    assert_eq!(b.mb_u16(0), Ok(0));
    assert_eq!(b.mb_u16(384), Err(RegisterError::OutOfRange));
    assert_eq!(b.mb_table().u16(383), Ok(5));
}

#[test]
fn fresh_slots_hold_zeros_on_both_sides() {
    let (mut bridge, mut table) = register_slots(3);
    table.update();
    assert_eq!(table.u16(0), Ok(0));
    assert_eq!(table.u16(2), Ok(0));
    assert_eq!(table.u16(3), Err(RegisterError::OutOfRange));
    bridge.begin_cycle();
    assert_eq!(
        bridge.request(Chunk { start: 0, count: 3 }),
        Some(Exchange { read_address: 30001, count: 3, write_address: 40001, words: vec![0; 3] })
    );
}

#[test]
fn holding_values_reach_the_bridge_only_when_published() {
    let (mut bridge, mut table) = register_slots(2);
    assert_eq!(table.set_u16(1, 8), Ok(()));
    bridge.begin_cycle();
    assert_eq!(bridge.request(Chunk { start: 0, count: 2 }).unwrap().words, vec![0, 0]);
    table.publish();
    bridge.begin_cycle();
    assert_eq!(bridge.request(Chunk { start: 0, count: 2 }).unwrap().words, vec![0, 8]);
    assert_eq!(table.set_u16(0, 9), Ok(()));
    bridge.begin_cycle();
    assert_eq!(bridge.request(Chunk { start: 0, count: 2 }).unwrap().words, vec![0, 8]);
}
