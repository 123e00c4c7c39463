use kaleidoscope::{
    encode_frame, find_device, normalize_reply, send_plan, split_chunks, supported_devices,
    DeviceDescriptor, Exchange, ExchangeAction, Focus, Outcome, Phase, PortEntry, ReadAction,
    ReadEvent, ReplyCollector, SendStep, Stage,
};

/// Answers every send step with success and returns the steps handed out and
/// the first action after them.
fn run_send(ex: &mut Exchange, first: ExchangeAction) -> (Vec<SendStep>, ExchangeAction) {
    let mut steps = Vec::new();
    let mut action = first;
    while let ExchangeAction::Send(step) = action {
        steps.push(step);
        action = ex.step(Outcome::Sent);
    }
    (steps, action)
}

fn strings(items: &[&str]) -> Vec<String> {
    items.iter().map(|s| s.to_string()).collect()
}

fn written(steps: &[SendStep]) -> Vec<u8> {
    let mut out = Vec::new();
    for s in steps {
        if let SendStep::Write(b) = s {
            out.extend_from_slice(b);
        }
    }
    out
}

#[test]
fn cleanup_reply() {
    assert_eq!(
        kaleidoscope::cleanup_reply(String::from("line1\nline2\r\nline3")),
        "line1\nline2\nline3"
    );
}

#[test]
fn normalizer_drops_blank_and_sentinel_lines() {
    assert_eq!(normalize_reply(&b"line1\nline2\r\n.\n\n".to_vec()), "line1\nline2");
    assert_eq!(
        kaleidoscope::cleanup_reply(String::from("line1\nline2\r\n.\n\n")),
        "line1\nline2"
    );
}

#[test]
fn empty_reply_normalizes_to_empty() {
    assert_eq!(normalize_reply(&Vec::new()), "");
    assert_eq!(kaleidoscope::cleanup_reply(String::new()), "");
}

#[test]
fn sentinel_only_reply_is_empty() {
    assert_eq!(kaleidoscope::cleanup_reply(String::from(".\n")), "");
    assert_eq!(kaleidoscope::cleanup_reply(String::from("\n\n\r\n")), "");
}

#[test]
fn dot_inside_a_line_is_kept() {
    assert_eq!(kaleidoscope::cleanup_reply(String::from("a.b\n..\n.")), "a.b\n..");
}

#[test]
fn normalizing_twice_changes_nothing() {
    let once = kaleidoscope::cleanup_reply(String::from("x\r\n\r\n.\ny z\n\n.\nend"));
    assert_eq!(once, "x\ny z\nend");
    assert_eq!(kaleidoscope::cleanup_reply(once.clone()), once);
}

#[test]
fn invalid_utf8_is_replaced() {
    assert_eq!(normalize_reply(&vec![b'o', b'k', 0xff, b'\n', b'.', b'\n']), "ok\u{fffd}");
}

#[test]
fn frame_without_args() {
    assert_eq!(encode_frame(&String::from("version"), &Vec::new()), "version\n");
}

#[test]
fn frame_with_args() {
    assert_eq!(
        encode_frame(&String::from("led.at"), &strings(&["1", "2", "red"])),
        "led.at 1 2 red\n"
    );
    assert_eq!(encode_frame(&String::from("led.mode"), &strings(&["2"])), "led.mode 2\n");
}

#[test]
fn request_plan_for_version() {
    let focus = Focus::new();
    let (mut ex, first) = focus.request(String::from("version"), None);
    let (steps, next) = run_send(&mut ex, first);
    assert_eq!(next, ExchangeAction::Collect(ReadAction::RaiseSignal));
    assert_eq!(
        steps,
        vec![
            SendStep::RaiseReady,
            SendStep::ReportLength(8),
            SendStep::Progress(8),
            SendStep::Write(b"version\n".to_vec()),
            SendStep::Pause(500),
        ]
    );
}

#[test]
fn flush_sends_a_single_space() {
    let mut focus = Focus::new();
    focus.write_delay(5);
    let (mut ex, first) = focus.flush();
    let (steps, next) = run_send(&mut ex, first);
    assert_eq!(next, ExchangeAction::Collect(ReadAction::RaiseSignal));
    assert_eq!(
        steps,
        vec![
            SendStep::RaiseReady,
            SendStep::ReportLength(2),
            SendStep::Progress(2),
            SendStep::Write(b" \n".to_vec()),
            SendStep::Pause(5),
        ]
    );
}

#[test]
fn chunks_partition_the_frame() {
    let bytes: Vec<u8> = (0u8..70).collect();
    let chunks = split_chunks(&bytes, 32);
    assert_eq!(chunks.len(), 3);
    assert_eq!(chunks[0].len(), 32);
    assert_eq!(chunks[1].len(), 32);
    assert_eq!(chunks[2].len(), 6);
    assert_eq!(chunks.concat(), bytes);
}

#[test]
fn chunks_of_exact_multiple_and_empty() {
    let bytes: Vec<u8> = vec![7; 64];
    assert_eq!(split_chunks(&bytes, 32).len(), 2);
    assert_eq!(split_chunks(&[], 32).len(), 0);
    assert_eq!(split_chunks(&[1, 2, 3], 100), vec![vec![1, 2, 3]]);
}

#[test]
fn pacing_counts_match() {
    let mut focus = Focus::new();
    focus.chunk_size(4);
    focus.write_delay(50);
    let args = strings(&["1", "2", "red"]);
    let (mut ex, first) = focus.request_with_progress(String::from("led.at"), Some(args));
    let (steps, _) = run_send(&mut ex, first);
    let writes = steps.iter().filter(|s| matches!(s, SendStep::Write(_))).count();
    let pauses = steps.iter().filter(|s| matches!(s, SendStep::Pause(50))).count();
    // 15 bytes in chunks of 4
    assert_eq!(writes, 4);
    assert_eq!(pauses, writes);
    assert_eq!(written(&steps), b"led.at 1 2 red\n".to_vec());
    assert_eq!(steps[0], SendStep::RaiseReady);
    assert_eq!(steps[1], SendStep::ReportLength(15));
    assert_eq!(steps[steps.len() - 2], SendStep::Write(b"ed\n".to_vec()));
    assert_eq!(steps[steps.len() - 3], SendStep::Progress(3));
}

#[test]
fn send_plan_of_nothing_only_raises_and_reports() {
    assert_eq!(send_plan(&[], 8, 10), vec![SendStep::RaiseReady, SendStep::ReportLength(0)]);
}

#[test]
fn timeout_ends_collection_with_the_chunk() {
    let (mut c, first) = ReplyCollector::start(100);
    assert_eq!(first, ReadAction::RaiseSignal);
    assert_eq!(c.step(ReadEvent::Signalled), ReadAction::Poll { pause_ms: 0 });
    assert_eq!(c.step(ReadEvent::Available(0)), ReadAction::Poll { pause_ms: 100 });
    assert_eq!(c.step(ReadEvent::Available(5)), ReadAction::Read { pause_ms: 0 });
    assert_eq!(c.step(ReadEvent::Received(b"ok\n.\n".to_vec())), ReadAction::Read { pause_ms: 100 });
    assert_eq!(c.step(ReadEvent::TimedOut), ReadAction::Finish);
    assert_eq!(c.phase(), Phase::Done);
    assert_eq!(c.step(ReadEvent::Received(b"late".to_vec())), ReadAction::Finish);
    assert_eq!(c.into_reply(), b"ok\n.\n".to_vec());
}

#[test]
fn error_aborts_collection_and_drops_bytes() {
    let (mut c, _) = ReplyCollector::start(10);
    c.step(ReadEvent::Signalled);
    c.step(ReadEvent::Available(3));
    c.step(ReadEvent::Received(b"abc".to_vec()));
    c.step(ReadEvent::Received(b"def".to_vec()));
    assert_eq!(c.step(ReadEvent::Failed), ReadAction::Abort);
    assert_eq!(c.phase(), Phase::Failed);
    assert_eq!(c.step(ReadEvent::TimedOut), ReadAction::Abort);
    assert!(c.into_reply().is_empty());
}

#[test]
fn error_while_waiting_aborts() {
    let (mut c, _) = ReplyCollector::start(10);
    assert_eq!(c.step(ReadEvent::Failed), ReadAction::Abort);
    assert_eq!(c.phase(), Phase::Failed);
}

#[test]
fn out_of_turn_events_change_nothing() {
    let (mut c, _) = ReplyCollector::start(7);
    assert_eq!(c.step(ReadEvent::Received(b"x".to_vec())), ReadAction::RaiseSignal);
    assert_eq!(c.phase(), Phase::Signalling);
    c.step(ReadEvent::Signalled);
    assert_eq!(c.step(ReadEvent::TimedOut), ReadAction::Poll { pause_ms: 7 });
    assert_eq!(c.phase(), Phase::Waiting);
    assert!(c.into_reply().is_empty());
}

#[test]
fn session_collector_uses_write_delay() {
    let mut focus = Focus::new();
    focus.write_delay(42);
    let (mut c, first) = focus.read_reply();
    assert_eq!(first, ReadAction::RaiseSignal);
    c.step(ReadEvent::Signalled);
    assert_eq!(c.step(ReadEvent::Available(0)), ReadAction::Poll { pause_ms: 42 });
}

fn port(name: &str, usb: Option<(u16, u16)>) -> PortEntry {
    PortEntry {
        name: name.to_string(),
        usb: usb.map(|(vid, pid)| DeviceDescriptor { vid, pid }),
    }
}

#[test]
fn explicit_device_wins() {
    let ports = vec![port("/dev/ttyACM0", Some((0x3496, 0x0006)))];
    assert_eq!(
        find_device(Some(String::from("/dev/custom")), &ports, &supported_devices()),
        Some(String::from("/dev/custom"))
    );
}

#[test]
fn first_supported_port_is_found() {
    let ports = vec![
        port("/dev/ttyS0", None),
        port("/dev/ttyUSB0", Some((0x0403, 0x6001))),
        port("/dev/ttyACM1", Some((0x1209, 0x2301))),
        port("/dev/ttyACM2", Some((0x3496, 0x0006))),
    ];
    assert_eq!(
        find_device(None, &ports, &supported_devices()),
        Some(String::from("/dev/ttyACM1"))
    );
}

#[test]
fn no_supported_port() {
    let ports = vec![port("/dev/ttyS0", None), port("/dev/ttyUSB0", Some((0x1209, 0x2302)))];
    assert_eq!(find_device(None, &ports, &supported_devices()), None);
    assert_eq!(find_device(None, &Vec::new(), &supported_devices()), None);
}

#[test]
fn supported_table_lists_three_keyboards() {
    let t = supported_devices();
    assert_eq!(t.len(), 3);
    assert_eq!(t[0], DeviceDescriptor { vid: 0x3496, pid: 0x0006 });
    assert_eq!(t[1], DeviceDescriptor { vid: 0x1209, pid: 0x2303 });
    assert_eq!(t[2], DeviceDescriptor { vid: 0x1209, pid: 0x2301 });
}

#[test]
fn request_returns_normalized_reply() {
    let mut focus = Focus::new();
    focus.write_delay(1);
    let (mut ex, first) = focus.request(String::from("version"), None);
    let (_, next) = run_send(&mut ex, first);
    assert_eq!(next, ExchangeAction::Collect(ReadAction::RaiseSignal));
    let read = |e| Outcome::Read(e);
    assert_eq!(ex.step(read(ReadEvent::Signalled)), ExchangeAction::Collect(ReadAction::Poll { pause_ms: 0 }));
    assert_eq!(ex.step(read(ReadEvent::Available(4))), ExchangeAction::Collect(ReadAction::Read { pause_ms: 0 }));
    assert_eq!(
        ex.step(read(ReadEvent::Received(b"line1\nline2\r\n".to_vec()))),
        ExchangeAction::Collect(ReadAction::Read { pause_ms: 1 })
    );
    ex.step(read(ReadEvent::Received(b".\n\n".to_vec())));
    assert_eq!(
        ex.step(read(ReadEvent::TimedOut)),
        ExchangeAction::Finish(Some(String::from("line1\nline2")))
    );
    assert_eq!(ex.stage(), Stage::Finished);
}

#[test]
fn flush_collects_and_drops_the_reply() {
    let focus = Focus::new();
    let (mut ex, first) = focus.flush();
    run_send(&mut ex, first);
    ex.step(Outcome::Read(ReadEvent::Signalled));
    ex.step(Outcome::Read(ReadEvent::Available(2)));
    ex.step(Outcome::Read(ReadEvent::Received(b"stale\n".to_vec())));
    assert_eq!(ex.step(Outcome::Read(ReadEvent::TimedOut)), ExchangeAction::Finish(None));
}

#[test]
fn failed_raise_aborts_before_any_write() {
    let focus = Focus::new();
    let (mut ex, first) = focus.request(String::from("version"), None);
    assert_eq!(first, ExchangeAction::Send(SendStep::RaiseReady));
    assert_eq!(ex.step(Outcome::SendFailed), ExchangeAction::Abort);
    assert_eq!(ex.stage(), Stage::Aborted);
    assert_eq!(ex.step(Outcome::Sent), ExchangeAction::Abort);
}

#[test]
fn failed_write_stops_the_remaining_chunks() {
    let mut focus = Focus::new();
    focus.chunk_size(2);
    let (mut ex, mut action) = focus.request(String::from("abcdef"), None);
    let mut writes = 0;
    loop {
        match action {
            ExchangeAction::Send(SendStep::Write(_)) => {
                writes += 1;
                action = ex.step(if writes == 2 { Outcome::SendFailed } else { Outcome::Sent });
            }
            ExchangeAction::Send(_) => action = ex.step(Outcome::Sent),
            other => {
                assert_eq!(other, ExchangeAction::Abort);
                break;
            }
        }
    }
    assert_eq!(writes, 2);
}

#[test]
fn collection_error_aborts_request() {
    let focus = Focus::new();
    let (mut ex, first) = focus.request(String::from("version"), None);
    run_send(&mut ex, first);
    ex.step(Outcome::Read(ReadEvent::Signalled));
    ex.step(Outcome::Read(ReadEvent::Available(1)));
    ex.step(Outcome::Read(ReadEvent::Received(b"partial".to_vec())));
    assert_eq!(ex.step(Outcome::Read(ReadEvent::Failed)), ExchangeAction::Abort);
    assert_eq!(ex.stage(), Stage::Aborted);
}

#[test]
fn chunk_size_zero_is_accepted_by_the_setter() {
    let mut focus = Focus::new();
    focus.chunk_size(0);
    focus.chunk_size(16);
    let (mut ex, first) = focus.request(String::from("version"), None);
    let (steps, _) = run_send(&mut ex, first);
    assert_eq!(steps.len(), 5);
}
