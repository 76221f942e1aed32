use summer_lsp::status::ServerStatus;

#[test]
fn test_server_status_creation() {
    let status = ServerStatus::new();
    let counts = status.get_counts();

    assert_eq!(counts.document_count, 0);
    assert_eq!(counts.request_count, 0);
    assert_eq!(counts.error_count, 0);
    assert_eq!(counts.completion_count, 0);
    assert_eq!(counts.hover_count, 0);
    assert_eq!(counts.diagnostic_count, 0);
}

#[test]
fn test_document_count() {
    let mut status = ServerStatus::new();

    status.increment_document_count();
    status.increment_document_count();
    assert_eq!(status.get_counts().document_count, 2);

    status.decrement_document_count();
    assert_eq!(status.get_counts().document_count, 1);
}

#[test]
fn test_request_tracking() {
    let mut status = ServerStatus::new();

    status.record_request();
    status.record_request();
    status.record_request();

    assert_eq!(status.get_counts().request_count, 3);
}

#[test]
fn test_error_tracking() {
    let mut status = ServerStatus::new();

    status.record_request();
    status.record_request();
    status.record_error();

    let counts = status.get_counts();
    assert_eq!(counts.error_count, 1);
    assert_eq!(counts.error_count as f64 / counts.request_count as f64, 0.5);
}

#[test]
fn test_completion_tracking() {
    let mut status = ServerStatus::new();

    status.record_completion();
    status.record_completion();

    assert_eq!(status.get_counts().completion_count, 2);
}

#[test]
fn test_hover_tracking() {
    let mut status = ServerStatus::new();

    status.record_hover();
    status.record_hover();
    status.record_hover();

    assert_eq!(status.get_counts().hover_count, 3);
}

#[test]
fn test_diagnostic_tracking() {
    let mut status = ServerStatus::new();

    status.record_diagnostic();

    assert_eq!(status.get_counts().diagnostic_count, 1);
}

#[test]
fn test_reset() {
    let mut status = ServerStatus::new();

    status.increment_document_count();
    status.record_request();
    status.record_error();

    status.reset();

    let counts = status.get_counts();
    assert_eq!(counts.document_count, 0);
    assert_eq!(counts.request_count, 0);
    assert_eq!(counts.error_count, 0);
}

#[test]
fn test_open_then_close_restores_count() {
    let mut status = ServerStatus::new();
    status.increment_document_count();
    let before = status.get_counts();
    status.increment_document_count();
    status.decrement_document_count();
    assert_eq!(status.get_counts(), before);
}

#[test]
fn test_close_without_open_wraps() {
    let mut status = ServerStatus::new();
    status.decrement_document_count();
    assert_eq!(status.get_counts().document_count, usize::MAX);
    status.increment_document_count();
    assert_eq!(status.get_counts().document_count, 0);
}

#[test]
fn test_reset_keeps_start_time() {
    let mut status = ServerStatus::new();
    status.record_request();
    let before = status.uptime();
    status.reset();
    let after = status.uptime();
    assert!(after >= before);
}
