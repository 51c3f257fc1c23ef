use winperf_relay::audit::{AuditGuard, Level};

#[test]
fn log_line_names_event_and_source() {
    let audit = AuditGuard::new("WinPerfRelay");
    let record = audit.log(Level::Info, 1000, "starting");
    assert_eq!(record.text, "[1000][WinPerfRelay] starting");
    assert_eq!(record.level, Level::Info);
}

#[test]
fn levels_below_info_are_written_as_info() {
    let audit = AuditGuard::new("s");
    assert_eq!(audit.log(Level::Error, 1, "m").level, Level::Error);
    assert_eq!(audit.log(Level::Warn, 1, "m").level, Level::Warn);
    assert_eq!(audit.log(Level::Info, 1, "m").level, Level::Info);
    assert_eq!(audit.log(Level::Debug, 1, "m").level, Level::Info);
    assert_eq!(audit.log(Level::Trace, 1, "m").level, Level::Info);
}

#[test]
fn event_ids_are_decimal() {
    let audit = AuditGuard::new("");
    for id in [0u32, 7, 9, 10, 99, 100, 1022, 4_294_967_295] {
        assert_eq!(audit.log(Level::Warn, id, "").text, format!("[{}][] ", id));
    }
}

#[test]
fn structured_fields_come_before_the_message() {
    let audit = AuditGuard::new("src");
    let record = audit.log_structured(Level::Warn, 42, "disk", "high", "nearly full");
    assert_eq!(record.text, "[42][src] [disk][high][42] nearly full");
    assert_eq!(record.level, Level::Warn);
}

#[test]
fn text_outside_ascii_is_kept() {
    let audit = AuditGuard::new("\u{e9}v\u{e9}nement");
    let record = audit.log_structured(Level::Error, 3, "\u{3b1}", "\u{3b2}", "\u{1f4be}");
    assert_eq!(
        record.text,
        "[3][\u{e9}v\u{e9}nement] [\u{3b1}][\u{3b2}][3] \u{1f4be}"
    );
}
