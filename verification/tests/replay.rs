use rx::color::Bgra8;
use rx::event::{Event, TimedEvent};
use rx::execution::{DigestMode, DigestState, Execution, GifMode, VerifyResult};
use rx::platform::{InputState, MouseButton};

fn frame(v: u8) -> Vec<Bgra8> {
    vec![Bgra8 { b: v, g: v, r: v, a: 255 }; 4]
}

fn click(frame: u64, st: InputState) -> TimedEvent {
    TimedEvent::new(frame, 16, Event::MouseInput(MouseButton::Left, st))
}

#[test]
fn recording_writes_events_and_digests() {
    let digest = DigestState::record("rec/rec.digest").unwrap();
    let mut exec = Execution::recording("rec".to_string(), digest, GifMode::Ignore);
    assert!(exec.is_recording());
    exec.push_event(click(1, InputState::Pressed));
    exec.push_event(click(2, InputState::Released));
    exec.push_event(click(3, InputState::Pressed));
    exec.discard_last_event();
    exec.record(&frame(1));
    exec.record(&frame(1));
    exec.record(&frame(2));

    let out = exec.stop_recording();
    assert_eq!(out.path, "rec");
    assert_eq!(
        out.event_lines,
        vec!["00001 0000016 mouse/input pressed", "00002 0000016 mouse/input released"]
    );
    let (dpath, lines) = out.digest.unwrap();
    assert_eq!(dpath, "rec/rec.digest");
    assert_eq!(lines.len(), 2);
    for l in &lines {
        assert_eq!(l.len(), 16);
    }
}

#[test]
fn replaying_reads_back_a_recording() {
    let digest = DigestState::record("r.digest").unwrap();
    let mut exec = Execution::recording("r".to_string(), digest, GifMode::Ignore);
    exec.push_event(click(1, InputState::Pressed));
    exec.push_event(click(1, InputState::Released));
    exec.push_event(click(4, InputState::Pressed));
    exec.record(&frame(7));
    exec.record(&frame(8));
    let out = exec.stop_recording();
    let (_, digest_lines) = out.digest.unwrap();

    let digest = DigestState::verify("r.digest", &digest_lines).unwrap();
    let mut replay =
        Execution::replaying("r".to_string(), digest, &digest_lines, "r/r.events", &out.event_lines).unwrap();
    assert!(!replay.replay_over());
    assert_eq!(replay.next_frame(0), 1);

    let now = replay.take_frame_events(1);
    assert_eq!(now, vec![click(1, InputState::Pressed), click(1, InputState::Released)]);
    assert_eq!(replay.take_frame_events(2), vec![]);
    assert_eq!(replay.next_frame(1), 4);

    replay.record(&frame(7));
    replay.record(&frame(7));
    replay.record(&frame(8));
    assert!(!replay.replay_over());
    assert_eq!(replay.take_frame_events(4), vec![click(4, InputState::Pressed)]);
    assert!(!replay.replay_over());
    replay.record(&frame(9));
    assert!(replay.replay_over());
    match &replay {
        Execution::Replaying { result, .. } => {
            assert!(result.is_ok());
            assert!(result.is_done());
            assert_eq!(result.counts(), (2, 0, 1));
        },
        _ => panic!("not replaying"),
    }
}

#[test]
fn a_failed_frame_ends_the_replay() {
    let h = rx::execution::Hash(42).to_hex();
    let digest_lines = vec![h];
    let digest = DigestState::verify("d", &digest_lines).unwrap();
    let lines = vec!["00001 0000016 mouse/input pressed".to_string()];
    let mut replay = Execution::replaying("d".to_string(), digest, &digest_lines, "d.events", &lines).unwrap();
    replay.record(&frame(1));
    assert!(replay.replay_over());
}

#[test]
fn replay_errors_name_the_line() {
    let digest = DigestState::ignore().unwrap();
    let lines = vec!["00001 0000016 mouse/input pressed".to_string(), "bogus".to_string()];
    let r = Execution::replaying("x".to_string(), digest, &[], "x/x.events", &lines);
    assert_eq!(r.err(), Some("x/x.events:2: expected 0-9, got `bogus`".to_string()));

    let digest_lines = vec!["zz".to_string()];
    let digest = DigestState { mode: DigestMode::Verify, path: Some("x.digest".to_string()) };
    let r = Execution::replaying("x".to_string(), digest, &digest_lines, "x/x.events", &[]);
    assert_eq!(r.err(), Some("invalid digit found in string".to_string()));
}

#[test]
fn replaying_without_digests_records_frames() {
    let digest = DigestState::record("y.digest").unwrap();
    let lines = vec!["00000 0000000 char/received 'a'".to_string()];
    let mut replay = Execution::replaying("y".to_string(), digest, &[], "y.events", &lines).unwrap();
    replay.record(&frame(1));
    replay.record(&frame(2));
    let (p, digest_lines) = replay.finalize_replaying();
    assert_eq!(p, "y.digest");
    assert_eq!(digest_lines.len(), 2);
    let _ = VerifyResult::EOF;
    let mut normal = Execution::normal();
    assert!(normal.is_normal());
    normal.record(&frame(1));
    assert!(normal.take_frame_events(0).is_empty());
}
