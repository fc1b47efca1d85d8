use lkpm::error::{other, LkpmError};
use lkpm::ui::{
    accepts, confirm, conflict_report, count_successes, dependency_report, format_bytes,
    format_duration, log_file_path, print_operation_summary, prompt_choices,
    render_operation_summary, reverse_dependency_report, PackageSummary,
};

fn entry(name: &str, checksum: &str, status: &str) -> PackageSummary {
    PackageSummary {
        name: name.to_string(),
        version: "1-1".to_string(),
        source: "repo".to_string(),
        size: 1234567,
        duration: 61,
        checksum: checksum.to_string(),
        status: status.to_string(),
    }
}

#[test]
fn bytes_are_grouped() {
    assert_eq!(format_bytes(0), "0");
    assert_eq!(format_bytes(999), "999");
    assert_eq!(format_bytes(1000), "1,000");
    assert_eq!(format_bytes(1234567), "1,234,567");
    assert_eq!(format_bytes(u64::MAX), "18,446,744,073,709,551,615");
    assert_eq!(format_bytes(987654321).replace(',', "").parse::<u64>(), Ok(987654321));
}

#[test]
fn durations_leave_out_leading_zeros() {
    assert_eq!(format_duration(0), "0s");
    assert_eq!(format_duration(59), "59s");
    assert_eq!(format_duration(60), "1m 0s");
    assert_eq!(format_duration(3600), "1h 0m 0s");
    assert_eq!(format_duration(90061), "25h 1m 1s");
}

#[test]
fn answers_mean_what_they_say() {
    assert!(accepts("", true));
    assert!(!accepts("", false));
    assert!(accepts("y", false));
    assert!(!accepts("yep", true));
    assert!(confirm(&Some("Y\n".to_string()), false));
    assert!(confirm(&None, true));
    assert_eq!(prompt_choices(true), "[y/n] (default: y)\n    ‣ ");
    assert_eq!(prompt_choices(false), "[y/n] (default: n)\n    ‣ ");
}

#[test]
fn reports_list_their_packages() {
    assert_eq!(
        dependency_report(&vec![("a".to_string(), true), ("b".to_string(), false)], &vec!["c".to_string()]),
        vec![
            "Required dependencies found (3):",
            "    ‣ a (installed)",
            "    ‣ b (missing)",
            "    ‣ c (optional)",
        ]
    );
    assert_eq!(conflict_report(&Vec::new()), vec!["Conflicting packages (0):"]);
    assert_eq!(
        reverse_dependency_report(&vec!["x".to_string()]),
        vec!["Required by this dependencies (1):", "    ‣ x"]
    );
}

#[test]
fn operations_are_summarized() {
    let all = vec![entry("a", "sum", "installed"), entry("b", "", "error: x"), entry("c", "s", "deleted")];
    assert_eq!(count_successes(&all), 2);
    assert_eq!(print_operation_summary(&all), "    2 success, 1 failed.");
    assert_eq!(
        print_operation_summary(&vec![entry("a", "", "updated")]),
        "    1 package(s) has been proceed."
    );
    assert_eq!(log_file_path("/var/log/lkpm", "01-02-2026"), "/var/log/lkpm/01-02-2026.log");
    assert_eq!(
        render_operation_summary("D", "H", &vec![entry("a", "sum", "installed"), entry("b", "", "error: x")]),
        "‣ Date   : D\n‣ Hour   : H\nOperation summary detailed log:\n\n          ::: [ a (1-1) ] :::\n        • Source      : repo\n        • Size        : 1,234,567 bytes\n        • Duration    : 1m 1s\n        • SHA256      : [ sum ]\n        • Status      : installed\n\n          ::: [ b (1-1) ] :::\n        • Source      : repo\n        • Size        : 1,234,567 bytes\n        • Duration    : 1m 1s\n        • SHA256      : [ FATAL: not provided by the repository! ]\n        • Status      : error: x\n\n─────────────────────────────────────────────────────────────\n\n"
    );
}

#[test]
fn errors_have_messages() {
    assert_eq!(LkpmError::Network("m".to_string()).message(), "Network error: m. Check your internet connection first with 'ping' before running lkpm!");
    assert_eq!(LkpmError::PackageNotFound("m".to_string()).message(), "Package not found: m. Try running 'lkpm -r' to update repository metadata if the package exists in any configured repository!");
    assert_eq!(LkpmError::PermissionDenied.message(), "Root permission required. Use 'sudo' for this operation!");
    assert_eq!(LkpmError::Io("m".to_string()).message(), "m");
    assert_eq!(other("m").message(), "m");
}
