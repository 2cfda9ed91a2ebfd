use nanite::search_index::{
    check_within_root, dirty_repo_ids, file_status, file_view_of, resolve_file_request, FileAccessError,
    RepositoryEntry, indexed_files_total, is_indexed, manifest_key, refresh_plan,
    reports_scan_progress, sort_key, IndexManifest, IndexedFileStatus, ManifestEntry, RefreshMode,
    RefreshPlan, line_documents, LineSource, asks_for_nothing, search_response, zed_target, collect_file, collect_repo_files, sort_by_path, ScanCounts,
    ScannedFile,
};
use nanite::search_query::{
    SearchRequest,
    normalize_query_string, normalize_searchable_text, parse_search_request, query_parts, split_query_tokens,
    split_url, workspace_hash,
};
use nanite::search_server::{
    parse_position, zed_help_text, HttpMethod, IndexBuildReport, IndexPhase, IndexProgress, IndexStatus,
    QueryParams, Route, ServePhase, route_request,
};

#[test]
fn query_parts_extract_qualifiers() {
    let parts = query_parts(r#"repo:github.com/icepuma/nanite path:"src/search" lang:rust "search ui""#);

    assert_eq!(parts.repo_filters, vec!["github.com/icepuma/nanite"]);
    assert_eq!(parts.path_filters, vec!["src/search"]);
    assert_eq!(parts.lang_filters, vec!["rust"]);
    assert_eq!(parts.query, "\"search ui\"");
}

#[test]
fn split_query_tokens_preserves_phrases() {
    assert_eq!(
        split_query_tokens(r#"foo "bar baz" repo:test path:"src/lib""#),
        vec!["foo", "\"bar baz\"", "repo:test", "path:\"src/lib\""]
    );
}

#[test]
fn normalize_searchable_text_splits_code_identifiers() {
    assert_eq!(normalize_searchable_text("HttpServer_path.rs"), "http server path rs");
}

#[test]
fn normalize_query_string_keeps_phrases_and_splits_identifiers() {
    assert_eq!(normalize_query_string(r#""HttpServer" workspace_root"#), r#""http server" workspace root"#);
}

#[test]
fn workspace_hash_is_stable() {
    assert_eq!(workspace_hash("/tmp/nanite"), workspace_hash("/tmp/nanite"));
}

#[test]
fn workspace_hash_is_fnv1a_in_hex() {
    assert_eq!(workspace_hash(""), "cbf29ce484222325");
    assert_eq!(workspace_hash("a"), "af63dc4c8601ec8c");
    assert_eq!(workspace_hash("/tmp/nanite").len(), 16);
}

#[test]
fn split_url_handles_missing_query() {
    assert_eq!(split_url("/api/search"), ("/api/search".to_owned(), String::new()));
}

#[test]
fn split_url_separates_query_string() {
    assert_eq!(split_url("/api/search?query=test"), ("/api/search".to_owned(), "query=test".to_owned()));
}

#[test]
fn query_params_parse_known_fields() {
    let params = QueryParams::parse("query=hello&repo=github.com%2Ficepuma%2Fnanite&limit=12");

    assert_eq!(params.query.as_deref(), Some("hello"));
    assert_eq!(params.repo.as_deref(), Some("github.com/icepuma/nanite"));
    assert_eq!(params.limit.as_deref(), Some("12"));
}

#[test]
fn query_params_keep_the_last_value_and_default_the_limit() {
    let params = QueryParams::parse("query=a&query=b&limit=x");
    assert_eq!(params.query.as_deref(), Some("b"));
    assert_eq!(params.limit_or_default(), 50);
    assert!(!params.is_empty());
    assert!(QueryParams::parse("line=3&column=4").is_empty());
    assert_eq!(parse_position(&Some("7".to_owned())), 7);
    assert_eq!(parse_position(&Some("x".to_owned())), 1);
    assert_eq!(parse_position(&None), 1);
}

#[test]
fn search_request_merges_qualifiers_and_filters() {
    let request = parse_search_request(
        "repo:a HttpServer lang:rust",
        Some("b".to_owned()),
        Some("src/Lib".to_owned()),
        None,
        None,
        10,
    );
    assert_eq!(request.query, "http server");
    assert_eq!(request.repo_filters, vec!["a", "b"]);
    assert_eq!(request.path_filters, vec!["src lib"]);
    assert_eq!(request.lang_filters, vec!["rust"]);
    assert_eq!(request.limit, 10);
}

#[test]
fn routes_follow_method_and_path() {
    assert!(matches!(route_request(HttpMethod::Get, "/"), Route::Page));
    assert!(matches!(route_request(HttpMethod::Get, "/api/status"), Route::Status));
    assert!(matches!(route_request(HttpMethod::Get, "/api/repos"), Route::Repos));
    assert!(matches!(route_request(HttpMethod::Post, "/api/reindex"), Route::Reindex));
    assert!(matches!(route_request(HttpMethod::Post, "/"), Route::NotFound));
    assert!(matches!(route_request(HttpMethod::Get, "/api/reindex"), Route::NotFound));
    match route_request(HttpMethod::Post, "/api/open?repo=r&path=p&line=3") {
        Route::Open(raw) => assert_eq!(raw, "repo=r&path=p&line=3"),
        _ => panic!("expected open"),
    }
    match route_request(HttpMethod::Get, "/api/search") {
        Route::Search { request, empty } => {
            assert!(empty);
            assert_eq!(request.query, "");
            assert_eq!(request.limit, 50);
        }
        _ => panic!("expected search"),
    }
    match route_request(HttpMethod::Get, "/api/search?query=workspace_root&limit=5") {
        Route::Search { request, empty } => {
            assert!(!empty);
            assert_eq!(request.query, "workspace root");
            assert_eq!(request.limit, 5);
        }
        _ => panic!("expected search"),
    }
    match route_request(HttpMethod::Get, "/api/file?repo=r") {
        Route::MissingParameter(name) => assert_eq!(name, "path"),
        _ => panic!("expected missing path"),
    }
    match route_request(HttpMethod::Get, "/api/file?path=p") {
        Route::MissingParameter(name) => assert_eq!(name, "repo"),
        _ => panic!("expected missing repo"),
    }
    match route_request(HttpMethod::Get, "/api/file?repo=r&path=src%2Flib.rs") {
        Route::File { repo, path } => {
            assert_eq!(repo, "r");
            assert_eq!(path, "src/lib.rs");
        }
        _ => panic!("expected file"),
    }
}

fn report(rebuilt: bool, partial: bool) -> IndexBuildReport {
    IndexBuildReport {
        rebuilt,
        partial,
        repos_refreshed: 2,
        files_scanned: 5,
        files_indexed: 4,
        lines_indexed: 40,
        skipped_binary: 1,
        skipped_large: 0,
        index_path: "/tmp/index".to_owned(),
    }
}

#[test]
fn status_moves_through_a_build() {
    let mut status = IndexStatus::initial(false, false, zed_help_text("zed", false));
    assert_eq!(status.message, "Preparing the first workspace index…");
    assert!(status.zed_help.starts_with("Disabled because `zed` was not found"));
    status.begin_refresh();
    assert!(status.indexing);
    assert_eq!(status.message, "Building the first workspace index…");
    status.apply_progress(IndexProgress {
        phase: IndexPhase::Building,
        message: "Indexing".to_owned(),
        files_scanned: 3,
        files_total: Some(4),
        files_indexed: 2,
        lines_indexed: 20,
        skipped_binary: 0,
        skipped_large: 0,
    });
    assert_eq!(status.phase, ServePhase::Building);
    status.apply_finish(report(true, false), true);
    assert!(status.ready);
    assert!(!status.indexing);
    assert_eq!(status.message, "Search index ready after rebuilding 2 repos: 4 files across 40 lines.");
    status.apply_failure("disk full".to_owned(), true);
    assert_eq!(status.phase, ServePhase::Ready);
    assert_eq!(status.message, "Index refresh failed. Showing the last loaded index.");
    status.apply_failure("disk full".to_owned(), false);
    assert_eq!(status.phase, ServePhase::Failed);
    assert_eq!(status.error.as_deref(), Some("disk full"));
}

#[test]
fn finish_messages_describe_the_build() {
    let mut status = IndexStatus::initial(true, true, zed_help_text("zed", true));
    assert_eq!(status.message, "Loaded the current workspace index.");
    status.apply_finish(report(true, true), true);
    assert_eq!(status.message, "Search index ready after refreshing 2 repos: 4 files across 40 lines.");
    status.apply_finish(report(false, false), true);
    assert_eq!(status.message, "Search index is current across 4 files.");
}

fn entry(repo: &str, path: &str, size: u64) -> ManifestEntry {
    ManifestEntry {
        key: format!("{repo}/{path}"),
        repo_id: repo.to_owned(),
        relative_path: path.to_owned(),
        size,
        modified_secs: 1,
        modified_nanos: 0,
        language: Some("rust".to_owned()),
        status: IndexedFileStatus::Text,
    }
}

#[test]
fn dirty_repositories_are_those_whose_entries_changed() {
    let previous = vec![entry("b", "x.rs", 1), entry("a", "y.rs", 1), entry("c", "z.rs", 1)];
    let current = vec![entry("a", "y.rs", 1), entry("b", "x.rs", 2), entry("d", "w.rs", 1)];
    assert_eq!(dirty_repo_ids(&previous, &current), vec!["b", "c", "d"]);
    assert!(dirty_repo_ids(&previous, &previous).is_empty());
}

#[test]
fn refresh_plans_follow_mode_manifest_and_changes() {
    let files = vec![entry("a", "y.rs", 1)];
    let manifest = IndexManifest { version: 2, files: vec![entry("a", "y.rs", 1)] };
    assert!(matches!(refresh_plan(RefreshMode::ForceRebuild, true, Some(&manifest), &files), RefreshPlan::FullRebuild));
    assert!(matches!(refresh_plan(RefreshMode::RefreshIfNeeded, false, Some(&manifest), &files), RefreshPlan::FullRebuild));
    assert!(matches!(refresh_plan(RefreshMode::RefreshIfNeeded, true, None, &files), RefreshPlan::FullRebuild));
    let old = IndexManifest { version: 1, files: vec![] };
    assert!(matches!(refresh_plan(RefreshMode::RefreshIfNeeded, true, Some(&old), &files), RefreshPlan::FullRebuild));
    assert!(matches!(refresh_plan(RefreshMode::RefreshIfNeeded, true, Some(&manifest), &files), RefreshPlan::Unchanged));
    let changed = vec![entry("a", "y.rs", 9)];
    match refresh_plan(RefreshMode::RefreshIfNeeded, true, Some(&manifest), &changed) {
        RefreshPlan::Partial { dirty_repo_ids } => assert_eq!(dirty_repo_ids, vec!["a"]),
        _ => panic!("expected a partial refresh"),
    }
}

#[test]
fn sort_keys_pad_line_numbers() {
    assert_eq!(sort_key("repo", "src/lib.rs", 42), "repo\u{1f}src/lib.rs\u{1f}0000000042");
    assert_eq!(sort_key("r", "p", 12345678901), "r\u{1f}p\u{1f}12345678901");
}

#[test]
fn files_are_text_binary_or_too_large() {
    assert_eq!(file_status(10, &b"fn main() {}".to_vec()), IndexedFileStatus::Text);
    assert_eq!(file_status(3, &vec![1, 0, 2]), IndexedFileStatus::Binary);
    assert_eq!(file_status(512 * 1024 + 1, &Vec::new()), IndexedFileStatus::TooLarge);
    assert_eq!(file_status(512 * 1024, &vec![b'a']), IndexedFileStatus::Text);
}

#[test]
fn manifest_keys_join_repository_and_path() {
    assert_eq!(manifest_key("github.com/icepuma/nanite", "src/lib.rs"), "github.com/icepuma/nanite:src/lib.rs");
}

#[test]
fn scanning_reports_after_the_first_and_every_thirty_second_file() {
    assert!(reports_scan_progress(1));
    assert!(!reports_scan_progress(2));
    assert!(reports_scan_progress(32));
    assert!(reports_scan_progress(64));
    assert!(!reports_scan_progress(65));
}

#[test]
fn only_text_files_of_refreshed_repositories_are_indexed() {
    let mut binary = entry("a", "x.bin", 3);
    binary.status = IndexedFileStatus::Binary;
    let entries = vec![entry("a", "src/lib.rs", 10), entry("b", "main.rs", 5), binary];
    assert_eq!(indexed_files_total(&entries, None), 2);
    let dirty = vec!["b".to_owned()];
    assert_eq!(indexed_files_total(&entries, Some(&dirty)), 1);
    assert!(is_indexed(IndexedFileStatus::Text, "b", Some(&dirty)));
    assert!(!is_indexed(IndexedFileStatus::Text, "a", Some(&dirty)));
    assert!(!is_indexed(IndexedFileStatus::TooLarge, "b", None));
}

fn repos() -> Vec<RepositoryEntry> {
    vec![RepositoryEntry {
        id: "github.com/icepuma/nanite".to_owned(),
        label: "nanite".to_owned(),
        root: "/w/github.com/icepuma/nanite".to_owned(),
        canonical_root: "/real/w/github.com/icepuma/nanite".to_owned(),
    }]
}

#[test]
fn file_requests_stay_inside_known_repositories() {
    let (index, path) = resolve_file_request(&repos(), "github.com/icepuma/nanite", "src/lib.rs").ok().unwrap();
    assert_eq!(index, 0);
    assert_eq!(path, "/w/github.com/icepuma/nanite/src/lib.rs");

    let unknown = resolve_file_request(&repos(), "github.com/other/x", "src/lib.rs").err().unwrap();
    assert_eq!(unknown.message(), "unknown repository `github.com/other/x`");
    let absolute = resolve_file_request(&repos(), "github.com/icepuma/nanite", "/etc/passwd").err().unwrap();
    assert!(matches!(absolute, FileAccessError::AbsolutePath));
    assert_eq!(absolute.message(), "file path must be repo-relative");

    assert!(check_within_root("/real/w/github.com/icepuma/nanite/src/lib.rs", "/real/w/github.com/icepuma/nanite").is_ok());
    let escaped = check_within_root("/real/w/secret.txt", "/real/w/github.com/icepuma/nanite").err().unwrap();
    assert_eq!(escaped.message(), "file path escapes repository root");
}

#[test]
fn file_views_fall_back_to_plain_text() {
    let repo = &repos()[0];
    let plain = file_view_of(repo, "src/lib.rs", "a\nb\n".to_owned(), 4, Some("rust".to_owned()), None);
    assert_eq!(plain.line_count, 2);
    assert_eq!(plain.plain_text.as_deref(), Some("a\nb\n"));
    assert!(!plain.truncated);

    let highlighted = file_view_of(repo, "src/lib.rs", "a".to_owned(), 1, None, Some("<b>a</b>".to_owned()));
    assert_eq!(highlighted.plain_text, None);
    assert_eq!(highlighted.highlighted_html.as_deref(), Some("<b>a</b>"));

    let large = file_view_of(repo, "big.txt", String::new(), 256 * 1024 + 1, None, Some("x".to_owned()));
    assert!(large.truncated);
    assert_eq!(large.line_count, 1);
    assert_eq!(large.highlighted_html, None);
}

#[test]
fn normalized_ascii_text_is_settled() {
    let once = normalize_searchable_text("parseHTTP2Request-v1.rs");
    assert_eq!(once, "parse http 2 request v 1 rs");
    assert!(once.chars().all(|c| c.is_ascii_lowercase() || c.is_ascii_digit() || c == ' '));
    assert_eq!(normalize_searchable_text(&once), once);
    let input = "parseHTTP2Request-v1.rs";
    assert!(input.len() <= once.len() && once.len() <= 2 * input.len());
}

#[test]
fn each_text_line_becomes_one_document() {
    let src = LineSource {
        repo_id: "github.com/o/tool".to_owned(),
        repo_label: "tool".to_owned(),
        relative_path: "src/HttpServer.rs".to_owned(),
        file_name: "HttpServer.rs".to_owned(),
        language: Some("Rust".to_owned()),
    };
    let docs = line_documents(&src, "fn parseURL() {}\nlet x_y = 2;\n");
    assert_eq!(docs.len(), 2);
    assert_eq!(docs[0].line_number, 1);
    assert_eq!(docs[1].line_number, 2);
    assert_eq!(docs[0].text_raw, "fn parseURL() {}");
    assert_eq!(docs[0].content, "fn parse url     ");
    assert_eq!(docs[1].content, "let x y   2 ");
    assert_eq!(docs[0].path, "src http server rs");
    assert_eq!(docs[0].file, "http server rs");
    assert_eq!(docs[0].language_raw, "Rust");
    assert_eq!(docs[0].language, "rust");
    assert_eq!(docs[1].sort_key, "github.com/o/tool\u{1f}src/HttpServer.rs\u{1f}0000000002");
    let plain = LineSource { language: None, ..src };
    assert_eq!(line_documents(&plain, "a")[0].language, "text");
    assert!(line_documents(&plain, "").is_empty());
}

fn scanned(path: &str, size: u64, bytes: &[u8]) -> ScannedFile {
    ScannedFile {
        relative_path: path.to_owned(),
        size,
        modified_secs: 7,
        modified_nanos: 9,
        language: None,
        bytes: bytes.to_vec(),
    }
}

#[test]
fn scanned_files_are_keyed_counted_and_classified() {
    let mut counts = ScanCounts::new();
    let text = collect_file("github.com/o/t", "t", scanned("src/main.rs", 4, b"fn x"), &mut counts).ok().unwrap();
    assert_eq!(text.manifest.key, "github.com/o/t:src/main.rs");
    assert_eq!(text.manifest.status, IndexedFileStatus::Text);
    assert_eq!(text.manifest.modified_secs, 7);
    assert_eq!(text.file_name, "main.rs");
    assert_eq!(text.text.as_deref(), Some("fn x"));
    let binary = collect_file("github.com/o/t", "t", scanned("a.bin", 3, &[1, 0, 2]), &mut counts).ok().unwrap();
    assert_eq!(binary.manifest.status, IndexedFileStatus::Binary);
    assert!(binary.text.is_none());
    let large = collect_file("github.com/o/t", "t", scanned("big.txt", 600_000, b""), &mut counts).ok().unwrap();
    assert_eq!(large.manifest.status, IndexedFileStatus::TooLarge);
    assert_eq!((counts.files_scanned, counts.skipped_binary, counts.skipped_large), (3, 1, 1));
    let refused = collect_file("github.com/o/t", "t", scanned("", 0, b""), &mut counts).err().unwrap();
    assert_eq!(refused, "failed to determine a file name for ");
    assert_eq!(counts.files_scanned, 3);
}

#[test]
fn repository_files_come_out_in_path_order() {
    let mut counts = ScanCounts::new();
    let files = collect_repo_files(
        "r",
        "r",
        vec![scanned("b-c.rs", 1, b"x"), scanned("b/a.rs", 1, b"y"), scanned("a.rs", 1, b"z")],
        &mut counts,
    )
    .ok()
    .unwrap();
    let paths: Vec<&str> = files.iter().map(|f| f.relative_path.as_str()).collect();
    assert_eq!(paths, vec!["a.rs", "b/a.rs", "b-c.rs"]);
    assert_eq!(counts.files_scanned, 3);
    let again = sort_by_path(files);
    assert_eq!(again.len(), 3);
    assert_eq!(again[2].relative_path, "b-c.rs");
}

fn request(query: &str, limit: usize) -> SearchRequest {
    SearchRequest {
        query: query.to_owned(),
        repo_filters: vec![],
        path_filters: vec![],
        file_filters: vec![],
        lang_filters: vec![],
        limit,
    }
}

#[test]
fn searches_that_ask_for_nothing_and_truncation() {
    assert!(asks_for_nothing(&request("fn main", 0)));
    assert!(asks_for_nothing(&request("   ", 20)));
    assert!(!asks_for_nothing(&request("fn main", 20)));
    let mut filtered = request("", 20);
    filtered.lang_filters.push("rust".to_owned());
    assert!(!asks_for_nothing(&filtered));
    let response = search_response(request("x", 1), 3, vec![]);
    assert!(response.truncated);
    assert_eq!(response.total_hits, 3);
    assert!(!search_response(request("x", 1), 0, vec![]).truncated);
}

#[test]
fn editor_targets_count_from_one() {
    assert_eq!(zed_target("/ws/r/src/main.rs", 0, 0), "/ws/r/src/main.rs:1:1");
    assert_eq!(zed_target("/ws/r/src/main.rs", 12, 4), "/ws/r/src/main.rs:12:4");
}
