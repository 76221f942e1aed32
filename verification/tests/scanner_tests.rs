use summer_lsp::scanner::component::ComponentScanner;
use summer_lsp::scanner::job::JobScanner;
use summer_lsp::scanner::plugin::PluginScanner;
use summer_lsp::scanner::route::RouteScanner;

#[test]
fn test_component_scanner_new() {
    let _scanner = ComponentScanner::new();
}

#[test]
fn test_component_scanner_default() {
    let _scanner = ComponentScanner::default();
}

#[test]
fn test_job_scanner_new() {
    let _scanner = JobScanner::new();
}

#[test]
fn test_job_scanner_default() {
    let _scanner = JobScanner::default();
}

#[test]
fn test_plugin_scanner_new() {
    let _scanner = PluginScanner::new();
}

#[test]
fn test_extract_plugin_name() {
    let scanner = PluginScanner::new();

    assert_eq!(scanner.extract_plugin_name("    .add_plugin(WebPlugin)"), Some("WebPlugin".to_string()));
    assert_eq!(scanner.extract_plugin_name(".add_plugin(SqlxPlugin::new())"), Some("SqlxPlugin::new".to_string()));
}

#[test]
fn test_route_scanner_new() {
    let _scanner = RouteScanner::new();
}

#[test]
fn test_route_scanner_default() {
    let _scanner = RouteScanner::default();
}

fn job_doc() -> summer_lsp::macros::RustDocument {
    let range = summer_lsp::lsp::Range::zero();
    summer_lsp::macros::RustDocument {
        uri: "file:///app/src/jobs.rs".to_string(),
        macros: vec![
            summer_lsp::macros::SummerMacro::Job(summer_lsp::macros::JobMacro::Cron {
                function_name: "nightly_cleanup".to_string(),
                expression: "0 0 * * * *".to_string(),
                range,
            }),
            summer_lsp::macros::SummerMacro::Job(summer_lsp::macros::JobMacro::FixDelay {
                function_name: "poll_queue".to_string(),
                seconds: 5,
                range,
            }),
            summer_lsp::macros::SummerMacro::Job(summer_lsp::macros::JobMacro::FixRate {
                function_name: "heartbeat".to_string(),
                seconds: 30,
                range,
            }),
        ],
    }
}

#[test]
fn test_scan_jobs_names_each_job_after_its_function() {
    let jobs = JobScanner::new().scan_jobs(true, &vec![job_doc()]).unwrap();
    assert_eq!(jobs.len(), 3);
    assert_eq!(jobs[0].name, "nightly_cleanup");
    assert_eq!(jobs[0].schedule, "0 0 * * * *");
    assert_eq!(jobs[1].name, "poll_queue");
    assert_eq!(jobs[1].schedule, "5 seconds");
    assert_eq!(jobs[2].name, "heartbeat");
    assert_eq!(jobs[2].schedule, "30 seconds");
    assert_eq!(jobs[2].location.uri, "file:///app/src/jobs.rs");
}

#[test]
fn test_scan_jobs_without_src_is_invalid_project() {
    let r = JobScanner::new().scan_jobs(false, &vec![job_doc()]);
    assert!(matches!(r, Err(summer_lsp::scanner::job::ScanError::InvalidProject(_))));
}
