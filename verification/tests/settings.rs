use rx::cmd::Value;
use rx::color::Rgba8;
use rx::parser::Decimal;
use rx::session::{
    deprecation_warning, ExitReason, PresentMode, SetOutcome, SettingError, Settings, State, ToggleError,
};

fn dec(s: &str) -> Decimal {
    Decimal { text: s.to_string() }
}

#[test]
fn default_settings() {
    let s = Settings::default();
    assert_eq!(s.get("animation/delay"), Some(&Value::U32(160)));
    assert_eq!(s.get("scale"), Some(&Value::F64(dec("1.0"))));
    assert_eq!(s.get("grid/color"), Some(&Value::Rgba8(Rgba8::new(0, 0, 0xff, 0xff))));
    assert_eq!(s.get("grid/spacing"), Some(&Value::U32Tuple(8, 8)));
    assert_eq!(s.get("p/height"), Some(&Value::U32(16)));
    assert_eq!(s.get("fnord"), None);
    assert_eq!(s.present_mode(), PresentMode::NoVsync);
}

#[test]
fn set_gives_back_the_old_value() {
    let mut s = Settings::default();
    assert_eq!(s.set("vsync", Value::Bool(true)), Ok(Value::Bool(false)));
    assert_eq!(s.get("vsync"), Some(&Value::Bool(true)));
    assert_eq!(s.present_mode(), PresentMode::Vsync);
    assert_eq!(s.get("debug"), Some(&Value::Bool(false)));
}

#[test]
fn set_errors() {
    let mut s = Settings::default();
    let e = s.set("fnord", Value::Bool(true)).unwrap_err();
    assert_eq!(e, SettingError::NoSuchSetting("fnord".to_string()));
    assert_eq!(e.message(), Some("no such setting `fnord`".to_string()));

    let e = s.set("vsync", Value::U32(1)).unwrap_err();
    assert_eq!(e.message(), Some("invalid value `1` for `vsync`, expected on / off".to_string()));
    assert_eq!(s.get("vsync"), Some(&Value::Bool(false)));

    let e = s.set("animation", Value::F64(dec("1.5"))).unwrap_err();
    assert_eq!(e.message(), None);
}

#[test]
fn set_command_outcomes() {
    let mut s = Settings::default();
    assert_eq!(s.apply_set("frame_delay", Value::F64(dec("2.0"))), SetOutcome::Deprecated);
    assert_eq!(s.get("frame_delay"), Some(&Value::F64(dec("0.0"))));
    assert_eq!(s.apply_set("animation", Value::Bool(true)), SetOutcome::Unchanged);
    assert_eq!(s.apply_set("animation", Value::Bool(false)), SetOutcome::Changed(Value::Bool(true)));
    assert!(matches!(s.apply_set("animation", Value::U32(3)), SetOutcome::Failed(_)));
    assert_eq!(
        deprecation_warning("input/delay"),
        "Warning: the setting `input/delay` has been deprecated"
    );
}

#[test]
fn toggling() {
    let s = Settings::default();
    assert_eq!(s.toggled("grid"), Ok(Value::Bool(true)));
    let e = s.toggled("scale").unwrap_err();
    assert_eq!(e.message(), "Error: can't toggle `scale`");
    let e = s.toggled("fnord").unwrap_err();
    assert_eq!(e, ToggleError::NoSuchSetting("fnord".to_string()));
    assert_eq!(e.message(), "Error: no such setting `fnord`");
}

#[test]
fn state_transitions() {
    let mut st = State::Initializing;
    st.transition(State::Paused);
    assert_eq!(st, State::Initializing);
    st.transition(State::Running);
    assert_eq!(st, State::Running);
    st.transition(State::Paused);
    assert_eq!(st, State::Paused);
    st.transition(State::Closing(ExitReason::Normal));
    assert_eq!(st, State::Closing(ExitReason::Normal));
    st.transition(State::Running);
    assert_eq!(st, State::Closing(ExitReason::Normal));
    st.transition(State::Initializing);
    assert_eq!(st, State::Closing(ExitReason::Normal));
}
