use shellymon::json::JsonDoc;
use shellymon::row::{build_row, insert_sql};
use shellymon::sched::{is_due, DeviceDescriptor, Monitor, PollState};

fn device(name: &str, table: &str, interval: u64, fields: &[(&str, &str)]) -> DeviceDescriptor {
    DeviceDescriptor {
        name: name.to_string(),
        address: format!("{}.local", name),
        storage_location: "metrics.db".to_string(),
        table_name: table.to_string(),
        poll_interval: interval,
        field_map: fields.iter().map(|(p, c)| (p.to_string(), c.to_string())).collect(),
    }
}

fn sensor_payload(value: f64) -> JsonDoc {
    JsonDoc::Obj(vec![(
        "temp".to_string(),
        JsonDoc::Obj(vec![("value".to_string(), JsonDoc::Num(value.to_bits()))]),
    )])
}

#[test]
fn declared_columns_follow_the_field_map() {
    let d = device("a", "t", 5, &[("temp.value", "temperature"), ("power", "watts")]);
    assert_eq!(d.declared_columns(), vec!["temperature".to_string(), "watts".to_string()]);
}

#[test]
fn unattempted_device_is_due_at_once() {
    assert!(is_due(None, 5, 0));
    assert!(is_due(None, 1000, 3));
}

#[test]
fn attempted_device_waits_a_full_interval() {
    assert!(!is_due(Some(100), 5, 100));
    assert!(!is_due(Some(100), 5, 104));
    assert!(is_due(Some(100), 5, 105));
    assert!(is_due(Some(100), 5, 400));
}

#[test]
fn poll_state_records_latest_attempt() {
    let mut st = PollState::new();
    let a = "a".to_string();
    let b = "b".to_string();
    assert_eq!(st.last(&a), None);
    st.record(&a, 7);
    st.record(&b, 9);
    assert_eq!(st.last(&a), Some(7));
    assert_eq!(st.last(&b), Some(9));
    st.record(&a, 20);
    assert_eq!(st.last(&a), Some(20));
    assert_eq!(st.last(&b), Some(9));
}

#[test]
fn failing_device_backs_off_at_its_interval() {
    // A device whose polls always fail is still attempted at intervals of
    // at least its configured interval, never busy-polled every tick.
    let mut monitor = Monitor::new(vec![device("flaky", "readings", 5, &[("temp.value", "t")])]);
    let mut attempts: Vec<u64> = Vec::new();
    for now in 0..12u64 {
        let due = monitor.due_now(now);
        for &i in &due {
            // The poll fails; the attempt is recorded all the same.
            attempts.push(now);
            monitor.record_attempt(i, now);
        }
    }
    assert_eq!(attempts, vec![0, 5, 10]);
}

#[test]
fn due_devices_come_in_configuration_order() {
    let mut monitor = Monitor::new(vec![
        device("a", "t", 5, &[]),
        device("b", "t", 3, &[]),
        device("c", "t", 5, &[]),
    ]);
    assert_eq!(monitor.due_now(0), vec![0, 1, 2]);
    for i in [0usize, 1, 2] {
        monitor.record_attempt(i, 0);
    }
    assert_eq!(monitor.due_now(3), vec![1]);
    monitor.record_attempt(1, 3);
    assert_eq!(monitor.due_now(5), vec![0, 2]);
}

#[test]
fn first_poll_then_skip_then_due_again() {
    // Scenario: device sensor1, interval 5s, field map
    // {"temp.value": "temperature"}.
    let mut monitor =
        Monitor::new(vec![device("sensor1", "readings", 5, &[("temp.value", "temperature")])]);

    // First poll at t = 0: due, and the payload yields one row with
    // temperature = 21.5.
    let due = monitor.due_now(0);
    assert_eq!(due, vec![0]);
    let payload = sensor_payload(21.5);
    let (row, misses) = build_row(
        "2024-05-01T00:00:00+00:00".to_string(),
        "sensor1".to_string(),
        &monitor.devices[0].field_map,
        &payload,
    );
    assert!(misses.is_empty());
    assert_eq!(row.columns.len(), 1);
    assert_eq!(row.columns[0].0, "temperature");
    assert_eq!(f64::from_bits(row.columns[0].1), 21.5);
    let sql = insert_sql(&"readings".to_string(), &row);
    assert_eq!(sql, "INSERT INTO readings (timestamp, device, temperature) VALUES (?, ?, ?);");
    monitor.record_attempt(0, 0);

    // A second identical poll 3 s later is skipped: not yet due.
    assert!(monitor.due_now(3).is_empty());

    // After 5 s it is due again.
    assert_eq!(monitor.due_now(5), vec![0]);
}

#[test]
fn stop_signal_mid_tick_finishes_the_tick() {
    // Scenario: a stop signal arrives while a poll is in flight.  The
    // in-flight poll completes and is written; the loop exits at the next
    // boundary check, never mid-tick.
    let mut monitor = Monitor::new(vec![device("sensor1", "readings", 5, &[("temp.value", "t")])]);
    assert!(monitor.should_continue());

    let due = monitor.due_now(0);
    assert_eq!(due, vec![0]);

    // The poll is in flight when the signal arrives.
    monitor.request_stop();

    // The tick's plan is unchanged by the signal, and the in-flight poll
    // still produces its complete row.
    assert_eq!(monitor.due_now(0), due);
    let (row, _) = build_row(
        "2024-05-01T00:00:00+00:00".to_string(),
        "sensor1".to_string(),
        &monitor.devices[0].field_map,
        &sensor_payload(19.0),
    );
    assert_eq!(row.columns.len(), 1);
    assert_eq!(
        insert_sql(&"readings".to_string(), &row),
        "INSERT INTO readings (timestamp, device, t) VALUES (?, ?, ?);"
    );
    monitor.record_attempt(0, 0);

    // Only the boundary check that follows observes the stop.
    assert!(!monitor.should_continue());
}

#[test]
fn boundary_observes_the_signal_and_decides_the_next_tick() {
    let mut monitor = Monitor::new(vec![device("a", "t", 5, &[])]);
    assert!(monitor.tick_boundary(false));
    assert!(monitor.should_continue());
    assert!(!monitor.tick_boundary(true));
    assert!(!monitor.should_continue());
    // Once stopping, a boundary without a signal does not resume.
    assert!(!monitor.tick_boundary(false));
}
