use laminaria_run::tracer::{exit_status_from_wait, peak_rss_bytes};
use laminaria_run::types::ExitStatusRecord;

#[test]
fn wait_statuses_read_as_exit_codes_or_signals() {
    assert_eq!(exit_status_from_wait(0), ExitStatusRecord { success: true, code: Some(0), signal: None });
    assert_eq!(exit_status_from_wait(3 << 8), ExitStatusRecord { success: false, code: Some(3), signal: None });
    assert_eq!(
        exit_status_from_wait(libc::SIGTERM),
        ExitStatusRecord { success: false, code: None, signal: Some(libc::SIGTERM) }
    );
    // A stopped process reports neither.
    assert_eq!(
        exit_status_from_wait(0x7f | (libc::SIGSTOP << 8)),
        ExitStatusRecord { success: false, code: None, signal: None }
    );
}

#[test]
fn peak_rss_is_in_bytes_on_each_platform() {
    assert_eq!(peak_rss_bytes(2048, true, false), Some(2048 * 1024));
    assert_eq!(peak_rss_bytes(u64::MAX / 2, true, false), Some(u64::MAX));
    assert_eq!(peak_rss_bytes(4096, false, true), Some(4096));
    assert_eq!(peak_rss_bytes(4096, false, false), None);
}
