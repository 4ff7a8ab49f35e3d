use rx::execution::{DigestMode, ExecutionMode, GifMode};
use rx::options::{invocation, FlagError, Flags, Invocation, Options};

fn flags() -> Flags {
    Flags {
        help: false,
        version: false,
        verbose: false,
        debug: false,
        width: None,
        height: None,
        record_digests: false,
        record_gif: false,
        verify_digests: false,
        headless: false,
        source: None,
        replay: None,
        record: None,
    }
}

#[test]
fn plain_run_uses_defaults() {
    match invocation(flags()) {
        Ok(Invocation::Run(o)) => {
            let d = Options::default();
            assert_eq!((o.width, o.height), (d.width, d.height));
            assert_eq!((o.width, o.height), (1280, 720));
            assert!(o.resizable);
            assert!(matches!(o.execution, ExecutionMode::Normal));
        },
        _ => panic!("expected a run"),
    }
}

#[test]
fn help_and_version_come_first() {
    let mut f = flags();
    f.help = true;
    f.record = Some("a".to_string());
    f.replay = Some("b".to_string());
    assert!(matches!(invocation(f), Ok(Invocation::Help)));
    let mut f = flags();
    f.version = true;
    assert!(matches!(invocation(f), Ok(Invocation::Version)));
}

#[test]
fn conflicting_flags() {
    let mut f = flags();
    f.record = Some("a".to_string());
    f.replay = Some("b".to_string());
    let e = invocation(f).unwrap_err();
    assert_eq!(e, FlagError::RecordAndReplay);
    assert_eq!(e.message(), "'--replay' and '--record' can't both be specified");

    let mut f = flags();
    f.record_digests = true;
    f.verify_digests = true;
    assert_eq!(invocation(f).unwrap_err(), FlagError::RecordAndVerifyDigests);

    let mut f = flags();
    f.record_gif = true;
    assert_eq!(
        invocation(f).unwrap_err().message(),
        "'--record-gif' has no effect without '--record' or '--replay'"
    );

    let mut f = flags();
    f.record_digests = true;
    assert_eq!(invocation(f).unwrap_err(), FlagError::DigestsWithoutRecording);
}

#[test]
fn recording_and_replaying() {
    let mut f = flags();
    f.record = Some("rec".to_string());
    f.record_digests = true;
    f.record_gif = true;
    f.width = Some(64);
    match invocation(f) {
        Ok(Invocation::Run(o)) => {
            assert!(!o.resizable);
            assert_eq!((o.width, o.height), (64, 720));
            match o.execution {
                ExecutionMode::Record(p, d, g) => {
                    assert_eq!(p, "rec");
                    assert_eq!(d, DigestMode::Record);
                    assert_eq!(g, GifMode::Record);
                },
                _ => panic!("expected a recording"),
            }
        },
        _ => panic!("expected a run"),
    }

    let mut f = flags();
    f.replay = Some("rec".to_string());
    f.verify_digests = true;
    match invocation(f) {
        Ok(Invocation::Run(o)) => match o.execution {
            ExecutionMode::Replay(p, d) => {
                assert_eq!(p, "rec");
                assert_eq!(d, DigestMode::Verify);
            },
            _ => panic!("expected a replay"),
        },
        _ => panic!("expected a run"),
    }
}
