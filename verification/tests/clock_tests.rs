use herobot::clock::heartbeat_text;
use herobot::clock::normalize_mtime;
use herobot::clock::render_date;
use herobot::clock::MTIME_MAX;

#[test]
fn heartbeat_text_at_epoch() {
    assert_eq!(heartbeat_text(0), "Herobot pinged at 1970-01-01 00:00:00 UTC");
}

#[test]
fn heartbeat_text_at_known_instant() {
    assert_eq!(
        heartbeat_text(1431648000),
        "Herobot pinged at 2015-05-15 00:00:00 UTC"
    );
}

#[test]
fn heartbeat_text_clamps_negative_clock() {
    assert_eq!(heartbeat_text(-5), heartbeat_text(0));
}

#[test]
fn heartbeat_text_clamps_huge_clock() {
    assert_eq!(heartbeat_text(i64::MAX), heartbeat_text(MTIME_MAX));
}

#[test]
fn render_date_known_value() {
    assert_eq!(render_date(Some(0)), "1970-01-01 00:00:00 UTC");
}

#[test]
fn render_date_absent() {
    assert_eq!(render_date(None), "unknown date");
}

#[test]
fn normalize_keeps_in_range() {
    assert_eq!(normalize_mtime(Some(5)), Some(5));
    assert_eq!(normalize_mtime(Some(0)), Some(0));
    assert_eq!(normalize_mtime(Some(MTIME_MAX)), Some(MTIME_MAX));
}

#[test]
fn normalize_drops_out_of_range() {
    assert_eq!(normalize_mtime(Some(-1)), None);
    assert_eq!(normalize_mtime(Some(MTIME_MAX + 1)), None);
    assert_eq!(normalize_mtime(None), None);
}
