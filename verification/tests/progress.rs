use deps_lsp::progress::{
    begin_message, progress_title, progress_token, report_message, ProgressTracker,
};

#[test]
fn test_progress_token_format() {
    let uri = "file:///test/Cargo.toml";
    let token = progress_token(uri);
    assert_eq!(token, "deps-fetch-file:///test/Cargo.toml");
    assert_eq!(ProgressTracker::start(uri).token(), "deps-fetch-file:///test/Cargo.toml");
}

#[test]
fn test_percentage_calculation() {
    let calculate = |fetched: usize, total: usize| -> u32 {
        if total == 0 {
            return 0;
        }
        ((fetched as f64 / total as f64) * 100.0) as u32
    };

    assert_eq!(calculate(0, 10), 0);
    assert_eq!(calculate(5, 10), 50);
    assert_eq!(calculate(10, 10), 100);
    assert_eq!(calculate(7, 10), 70);
    assert_eq!(calculate(0, 0), 0);
}

#[test]
fn test_progress_message_format() {
    assert_eq!(report_message(5, 10), "Fetched 5/10 packages");
    assert_eq!(report_message(0, 15), "Fetched 0/15 packages");
    assert_eq!(report_message(20, 20), "Fetched 20/20 packages");
}

#[test]
fn progress_begin_message_and_title() {
    assert_eq!(begin_message(3), "Loading 3 dependencies...");
    assert_eq!(begin_message(0), "Loading 0 dependencies...");
    assert_eq!(progress_title(), "Fetching package versions");
}

#[test]
fn test_update_after_end_is_safe() {
    let mut p = ProgressTracker::start("file:///a");
    assert!(p.end(true).is_some());
    let total = 10;
    assert!(!p.should_report(total));
}

#[test]
fn test_update_with_zero_total_returns_early() {
    let p = ProgressTracker::start("file:///a");
    assert!(p.is_active());
    let total = 0;
    assert!(!p.should_report(total));
    assert!(p.should_report(1));
}

#[test]
fn test_end_idempotency_flag() {
    let mut p = ProgressTracker::start("file:///a");
    assert!(p.is_active(), "First call should proceed");
    assert_eq!(p.end(true), Some("Package versions loaded"));
    assert!(!p.is_active(), "Second call should be no-op due to inactive flag");
    assert_eq!(p.end(false), None);
}

#[test]
fn progress_end_failure_message() {
    let mut p = ProgressTracker::start("file:///a");
    assert_eq!(p.end(false), Some("Failed to fetch some versions"));
}

#[test]
fn test_drop_cleanup_active_flag_logic() {
    let p = ProgressTracker::start("file:///a");
    assert!(p.needs_cleanup(), "Active progress should trigger cleanup on drop");
    let mut p = ProgressTracker::start("file:///a");
    p.end(true);
    assert!(!p.needs_cleanup(), "Inactive progress should not trigger cleanup");
}
