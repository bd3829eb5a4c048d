use morpho_rs::mode::{Output, OutputMode, VisibilityFilter};
use morpho_rs::scan::{
    is_source_extension, path_is_excluded, should_ingest, should_ingest_entry,
};
use morpho_rs::service::{
    directory_to_probe, resolve_directory, select_directories, tool_response, CallGraphRequest,
    ErrorResponse, ListAllRequest, ProjectConfig, ProjectInfoResponse, SourceRequest,
    ToolCallResponse,
};

fn config() -> ProjectConfig {
    ProjectConfig::new(vec![
        "/work/main".to_string(),
        "/deps/ui".to_string(),
        "/other/ui".to_string(),
    ])
    .unwrap()
}

#[test]
fn no_directories_no_configuration() {
    assert!(ProjectConfig::new(vec![]).is_none());
}

#[test]
fn short_names_are_the_last_components() {
    let c = config();
    let names: Vec<(String, String, bool)> = c
        .projects()
        .iter()
        .map(|p| (p.short_name.clone(), p.full_path.clone(), p.is_primary))
        .collect();
    assert_eq!(
        names,
        vec![
            ("main".to_string(), "/work/main".to_string(), true),
            ("ui".to_string(), "/deps/ui".to_string(), false),
            ("ui".to_string(), "/other/ui".to_string(), false),
        ]
    );
    let odd = ProjectConfig::new(vec!["..".to_string(), "a/b/".to_string()]).unwrap();
    assert_eq!(odd.projects()[0].short_name, "unknown");
    assert_eq!(odd.projects()[1].short_name, "b");
}

#[test]
fn information_names_the_primary_project_first() {
    let info = config().info();
    assert_eq!(
        info.primary_project,
        ProjectInfoResponse { name: "main".to_string(), path: "/work/main".to_string() }
    );
    assert_eq!(
        info.dependencies,
        vec![
            ProjectInfoResponse { name: "ui".to_string(), path: "/deps/ui".to_string() },
            ProjectInfoResponse { name: "ui".to_string(), path: "/other/ui".to_string() },
        ]
    );
}

#[test]
fn a_short_name_means_its_project() {
    let c = config();
    assert_eq!(directory_to_probe(&c, "main"), None);
    assert_eq!(resolve_directory(&c, "main", false), Ok("/work/main".to_string()));
}

#[test]
fn of_two_projects_with_one_short_name_the_last_counts() {
    let c = config();
    assert_eq!(resolve_directory(&c, "ui", false), Ok("/other/ui".to_string()));
    assert_eq!(resolve_directory(&c, "ui/src", true), Ok("/other/ui/src".to_string()));
}

#[test]
fn a_subdirectory_must_be_on_disk() {
    let c = config();
    assert_eq!(directory_to_probe(&c, "main/crates/core"), Some("/work/main/crates/core".to_string()));
    assert_eq!(
        resolve_directory(&c, "main/crates/core", true),
        Ok("/work/main/crates/core".to_string())
    );
    assert_eq!(
        resolve_directory(&c, "main/crates/core", false),
        Err("Directory '/work/main/crates/core' does not exist".to_string())
    );
}

#[test]
fn a_configured_path_means_itself() {
    let c = config();
    assert_eq!(directory_to_probe(&c, "/deps/ui"), None);
    assert_eq!(resolve_directory(&c, "/deps/ui", false), Ok("/deps/ui".to_string()));
}

#[test]
fn any_other_path_must_be_on_disk() {
    let c = config();
    assert_eq!(directory_to_probe(&c, "/tmp/x"), Some("/tmp/x".to_string()));
    assert_eq!(resolve_directory(&c, "/tmp/x", true), Ok("/tmp/x".to_string()));
    assert_eq!(
        resolve_directory(&c, "/tmp/x", false),
        Err("Unknown directory: '/tmp/x'. Available projects:\n  'main' -> /work/main\n  'ui' -> /deps/ui\n  'ui' -> /other/ui\n\nYou can also use subdirectories: 'project-name/subdir/path'"
            .to_string())
    );
}

#[test]
fn a_request_without_directory_runs_on_all_projects() {
    let c = config();
    assert_eq!(
        select_directories(&c, &None, false),
        Ok(vec!["/work/main".to_string(), "/deps/ui".to_string(), "/other/ui".to_string()])
    );
    assert_eq!(
        select_directories(&c, &Some("main".to_string()), false),
        Ok(vec!["/work/main".to_string()])
    );
}

#[test]
fn a_call_graph_request_becomes_a_job() {
    let c = config();
    let request = CallGraphRequest {
        root_function: "start".to_string(),
        public_only: Some(true),
        blacklist: Some(vec!["target".to_string()]),
        directory: Some("main".to_string()),
    };
    let job = request.job(&c, false).unwrap();
    assert_eq!(job.dirs, vec!["/work/main".to_string()]);
    assert_eq!(
        job.mode,
        OutputMode::CallGraph { root: "start".to_string(), visibility: VisibilityFilter::PublicOnly }
    );
    assert_eq!(job.blacklist, vec!["target".to_string()]);
}

#[test]
fn requests_default_to_everything() {
    let c = config();
    let job = ListAllRequest { public_only: None, blacklist: None, directory: None }
        .job(&c, false)
        .unwrap();
    assert_eq!(job.dirs.len(), 3);
    assert_eq!(job.mode, OutputMode::ListAll { visibility: VisibilityFilter::All });
    assert!(job.blacklist.is_empty());
    let job = ListAllRequest { public_only: Some(false), blacklist: None, directory: None }
        .job(&c, false)
        .unwrap();
    assert_eq!(job.mode, OutputMode::ListAll { visibility: VisibilityFilter::All });
    let job = SourceRequest { function: "f".to_string(), blacklist: None, directory: None }
        .job(&c, false)
        .unwrap();
    assert_eq!(job.mode, OutputMode::Source { function: "f".to_string() });
}

#[test]
fn a_request_for_an_unknown_directory_is_refused() {
    let c = ProjectConfig::new(vec!["/p".to_string()]).unwrap();
    let request =
        SourceRequest { function: "f".to_string(), blacklist: None, directory: Some("q".to_string()) };
    assert_eq!(
        request.job(&c, false),
        Err(ErrorResponse {
            error: "Unknown directory: 'q'. Available projects:\n  'p' -> /p\n\nYou can also use subdirectories: 'project-name/subdir/path'"
                .to_string()
        })
    );
}

#[test]
fn answers_carry_the_text_or_the_error() {
    assert_eq!(
        tool_response(Ok(Output { content: "report".to_string() })),
        Ok(ToolCallResponse { result: "report".to_string() })
    );
    assert_eq!(
        tool_response(Err("failed".to_string())),
        Err(ErrorResponse { error: "failed".to_string() })
    );
}

#[test]
fn filters_from_flags() {
    assert_eq!(VisibilityFilter::from_flag(None), VisibilityFilter::All);
    assert_eq!(VisibilityFilter::from_flag(Some(false)), VisibilityFilter::All);
    assert_eq!(VisibilityFilter::from_flag(Some(true)), VisibilityFilter::PublicOnly);
    assert!(VisibilityFilter::All.admits(false));
    assert!(!VisibilityFilter::PublicOnly.admits(false));
    assert!(VisibilityFilter::PublicOnly.admits(true));
}

#[test]
fn modes_from_a_command_line() {
    let all = VisibilityFilter::All;
    assert_eq!(OutputMode::select(None, false, all), OutputMode::ListAll { visibility: all });
    assert_eq!(OutputMode::select(None, true, all), OutputMode::ListAll { visibility: all });
    assert_eq!(
        OutputMode::select(Some("f".to_string()), false, VisibilityFilter::PublicOnly),
        OutputMode::CallGraph { root: "f".to_string(), visibility: VisibilityFilter::PublicOnly }
    );
    assert_eq!(
        OutputMode::select(Some("f".to_string()), true, all),
        OutputMode::Source { function: "f".to_string() }
    );
}

#[test]
fn source_files_by_extension() {
    let none: Vec<String> = vec![];
    assert!(should_ingest("src/lib.rs", true, &none));
    assert!(!should_ingest("src/lib.txt", true, &none));
    assert!(!should_ingest("rs.toml", true, &none));
    assert!(!should_ingest("d/Makefile", true, &none));
    assert!(!should_ingest(".hidden", true, &none));
    assert!(!should_ingest(".rs", true, &none));
    assert!(should_ingest("d/a.rs", true, &none));
    assert!(!should_ingest("d/notes.txt", true, &none));
    assert!(!should_ingest("src/lib.rs.bak", true, &none));
}

#[test]
fn entries_pass_by_their_extension() {
    assert!(is_source_extension(&Some("rs".to_string())));
    assert!(!is_source_extension(&None));
    assert!(!is_source_extension(&Some("RS".to_string())));
    assert!(!is_source_extension(&Some(String::new())));
    let none: Vec<String> = vec![];
    assert!(should_ingest_entry("a", &Some("rs".to_string()), true, &none));
    assert!(!should_ingest_entry("a", &Some("rs".to_string()), false, &none));
    assert!(!should_ingest_entry("a", &Some("c".to_string()), true, &none));
    assert!(!should_ingest_entry("a", &Some("rs".to_string()), true, &vec!["a".to_string()]));
    assert!(!should_ingest_entry("d/Makefile", &None, true, &none));
}

#[test]
fn projects_from_directories_and_their_names() {
    let c = ProjectConfig::with_names(
        vec!["/x/one".to_string(), "/".to_string()],
        vec![Some("one".to_string()), None],
    )
    .unwrap();
    assert_eq!(c.projects()[0].short_name, "one");
    assert!(c.projects()[0].is_primary);
    assert_eq!(c.projects()[1].short_name, "unknown");
    assert_eq!(c.projects()[1].full_path, "/");
    assert!(!c.projects()[1].is_primary);
    assert!(ProjectConfig::with_names(vec![], vec![]).is_none());
    assert!(ProjectConfig::with_names(vec!["/x".to_string()], vec![]).is_none());
}

#[test]
fn listed_texts_exclude_paths() {
    let blacklist = vec!["target".to_string(), "/tests/".to_string()];
    assert!(path_is_excluded("proj/target/debug/a.rs", &blacklist));
    assert!(path_is_excluded("proj/tests/a.rs", &blacklist));
    assert!(!path_is_excluded("proj/src/tests.rs", &blacklist));
    assert!(!path_is_excluded("proj/src/a.rs", &vec![]));
    assert!(path_is_excluded("anything", &vec![String::new()]));
}

#[test]
fn only_files_with_source_paths_outside_the_blacklist_are_read() {
    let blacklist = vec!["target".to_string()];
    assert!(should_ingest("src/a.rs", true, &blacklist));
    assert!(!should_ingest("src/a.rs", false, &blacklist));
    assert!(!should_ingest("src/a.md", true, &blacklist));
    assert!(!should_ingest("target/a.rs", true, &blacklist));
}
