use dpscript::report::{is_rust_backtrace_enabled, Panic, PanicLocation, HELP_TEXT};

#[test]
fn panic_without_backtrace_gives_the_hint() {
    let p = Panic::new("boom".to_string(), None);
    assert_eq!(p.help(), Some(HELP_TEXT));
    assert_eq!(p.to_string(), "boom");
}

#[test]
fn panic_with_backtrace_shows_it() {
    let p = Panic::new("boom".to_string(), Some("\n==== Backtrace ====\n".to_string()));
    assert_eq!(p.help(), None);
    assert_eq!(p.to_string(), "boom\n==== Backtrace ====\n");
}

#[test]
fn panic_location_text() {
    let p = Panic::new("boom".to_string(), None);
    let loc = PanicLocation::new(p, "src/main.rs".to_string(), 12, 5, false);
    assert_eq!(loc.to_string(), "Panic at src/main.rs:12:5");
    assert_eq!(loc.help(), Some(HELP_TEXT));
    assert_eq!(loc.panic().to_string(), "boom");
    let quiet = PanicLocation::new(Panic::new("x".to_string(), None), "f".to_string(), 0, 0, true);
    assert_eq!(quiet.help(), None);
    assert_eq!(quiet.to_string(), "Panic at f:0:0");
}

#[test]
fn hint_text() {
    assert_eq!(HELP_TEXT, "run with `RUST_BACKTRACE=1` environment variable to display a backtrace");
}

#[test]
fn backtrace_setting() {
    assert!(!is_rust_backtrace_enabled(None));
    assert!(!is_rust_backtrace_enabled(Some("")));
    assert!(!is_rust_backtrace_enabled(Some("0")));
    assert!(is_rust_backtrace_enabled(Some("1")));
    assert!(is_rust_backtrace_enabled(Some("full")));
    assert!(is_rust_backtrace_enabled(Some("00")));
}
