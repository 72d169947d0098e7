use code_rag::topology::{resolve_projects, tail};
use code_rag::viz::{check_response_status, check_schema_version, sanitize_project, viz_url, VizFetchError};

#[test]
fn resolve_explicit_unknown_and_absent() {
    let available = vec!["a".to_string(), "b".to_string()];
    assert_eq!(resolve_projects(Some("a"), &available).unwrap(), vec!["a"]);
    assert!(resolve_projects(Some("zzz"), &available).unwrap_err().contains("a, b"));
    assert_eq!(resolve_projects(None, &available).unwrap(), available);
    assert_eq!(resolve_projects(Some("  "), &available).unwrap(), available);
}

#[test]
fn resolve_unknown_project_message() {
    let available = vec!["a".to_string(), "b".to_string()];
    assert_eq!(
        resolve_projects(Some(" zzz "), &available).unwrap_err(),
        "unknown project 'zzz' \u{2014} indexed projects: a, b"
    );
    assert_eq!(resolve_projects(Some(" b "), &available).unwrap(), vec!["b"]);
}

#[test]
fn tail_keeps_last_lines() {
    assert_eq!(tail("a\nb\nc\n", 2), "b\nc");
    assert_eq!(tail("a\nb", 5), "a\nb");
    assert_eq!(tail("a\nb", 0), "");
}

#[test]
fn sanitize_and_url() {
    assert_eq!(sanitize_project("my proj/v1.0_x-y"), "my_proj_v1.0_x-y");
    assert_eq!(viz_url("a b"), "static/viz/graph_viz_a_b.json");
}

#[test]
fn response_status_and_schema_checks() {
    assert_eq!(check_response_status(404, false), Err(VizFetchError::Missing));
    assert_eq!(check_response_status(500, false), Err(VizFetchError::Other("Fetch failed (500)".to_string())));
    assert_eq!(check_response_status(200, true), Ok(()));
    assert_eq!(check_schema_version(1), Ok(()));
    assert_eq!(
        check_schema_version(2),
        Err(VizFetchError::Other("Unsupported viz schema v2 (expected v1)".to_string()))
    );
}
