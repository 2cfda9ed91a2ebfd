//! The decisions of the search web server: which request parameters it reads,
//! and how its status report moves through an index build.
use crate::text::{decimal, decimal_string, parse_u64, parse_u64_str, parse_usize, parse_usize_str, push_char, push_str, str_eq};
use vstd::prelude::*;

verus! {

/// The name/value pairs that `url::form_urlencoded::parse` decodes from `raw`.
pub uninterp spec fn form_urlencoded_pairs(raw: Seq<char>) -> Seq<(Seq<char>, Seq<char>)>;

pub open spec fn pairs_view(v: Seq<(String, String)>) -> Seq<(Seq<char>, Seq<char>)> {
    v.map_values(|p: (String, String)| (p.0@, p.1@))
}

/// Calls `url::form_urlencoded::parse` on the bytes of `raw` and collects the decoded
/// pairs as owned strings. Claimed: the pairs are `form_urlencoded_pairs(raw@)`, a
/// function of `raw` alone, and an empty input gives no pair (the parser stops at once
/// on empty input).
#[verifier::external_body]
fn decode_query_pairs(raw: &str) -> (r: Vec<(String, String)>)
    ensures
        pairs_view(r@) == form_urlencoded_pairs(raw@),
        raw@.len() == 0 ==> r@.len() == 0,
{
    url::form_urlencoded::parse(raw.as_bytes()).map(|(k, v)| (k.into_owned(), v.into_owned())).collect()
}

/// The value of the last pair named `key`.
pub open spec fn param(pairs: Seq<(Seq<char>, Seq<char>)>, key: Seq<char>) -> Option<Seq<char>>
    decreases pairs.len(),
{
    if pairs.len() == 0 {
        None
    } else if pairs.last().0 == key {
        Some(pairs.last().1)
    } else {
        param(pairs.drop_last(), key)
    }
}

pub open spec fn opt_view(o: Option<String>) -> Option<Seq<char>> {
    match o {
        Some(x) => Some(x@),
        None => None,
    }
}


/// The parameter names differ from one another.
proof fn lemma_param_names_distinct()
    ensures
        "column"@ != "file"@,
        "column"@ != "lang"@,
        "column"@ != "line"@,
        "column"@ != "limit"@,
        "column"@ != "path"@,
        "column"@ != "query"@,
        "column"@ != "repo"@,
        "file"@ != "lang"@,
        "file"@ != "line"@,
        "file"@ != "limit"@,
        "file"@ != "path"@,
        "file"@ != "query"@,
        "file"@ != "repo"@,
        "lang"@ != "line"@,
        "lang"@ != "limit"@,
        "lang"@ != "path"@,
        "lang"@ != "query"@,
        "lang"@ != "repo"@,
        "line"@ != "limit"@,
        "line"@ != "path"@,
        "line"@ != "query"@,
        "line"@ != "repo"@,
        "limit"@ != "path"@,
        "limit"@ != "query"@,
        "limit"@ != "repo"@,
        "path"@ != "query"@,
        "path"@ != "repo"@,
        "query"@ != "repo"@,
{
    reveal_strlit("column");
    reveal_strlit("file");
    reveal_strlit("lang");
    reveal_strlit("line");
    reveal_strlit("limit");
    reveal_strlit("path");
    reveal_strlit("query");
    reveal_strlit("repo");
    assert("column"@.len() != "file"@.len());
    assert("column"@.len() != "lang"@.len());
    assert("column"@.len() != "line"@.len());
    assert("column"@.len() != "limit"@.len());
    assert("column"@.len() != "path"@.len());
    assert("column"@.len() != "query"@.len());
    assert("column"@.len() != "repo"@.len());
    assert("file"@[0] != "lang"@[0]);
    assert("file"@[0] != "line"@[0]);
    assert("file"@.len() != "limit"@.len());
    assert("file"@[0] != "path"@[0]);
    assert("file"@.len() != "query"@.len());
    assert("file"@[0] != "repo"@[0]);
    assert("lang"@[1] != "line"@[1]);
    assert("lang"@.len() != "limit"@.len());
    assert("lang"@[0] != "path"@[0]);
    assert("lang"@.len() != "query"@.len());
    assert("lang"@[0] != "repo"@[0]);
    assert("line"@.len() != "limit"@.len());
    assert("line"@[0] != "path"@[0]);
    assert("line"@.len() != "query"@.len());
    assert("line"@[0] != "repo"@[0]);
    assert("limit"@.len() != "path"@.len());
    assert("limit"@[0] != "query"@[0]);
    assert("limit"@.len() != "repo"@.len());
    assert("path"@.len() != "query"@.len());
    assert("path"@[0] != "repo"@[0]);
    assert("query"@.len() != "repo"@.len());
}

/// The query parameters the search API reads.
#[derive(Default)]
pub struct QueryParams {
    pub column: Option<String>,
    pub file: Option<String>,
    pub lang: Option<String>,
    pub line: Option<String>,
    pub limit: Option<String>,
    pub path: Option<String>,
    pub query: Option<String>,
    pub repo: Option<String>,
}

impl QueryParams {
    /// Each known parameter holds the value of its last occurrence in the decoded pairs.
    pub open spec fn read_from(&self, pairs: Seq<(Seq<char>, Seq<char>)>) -> bool {
        &&& opt_view(self.column) == param(pairs, "column"@)
        &&& opt_view(self.file) == param(pairs, "file"@)
        &&& opt_view(self.lang) == param(pairs, "lang"@)
        &&& opt_view(self.line) == param(pairs, "line"@)
        &&& opt_view(self.limit) == param(pairs, "limit"@)
        &&& opt_view(self.path) == param(pairs, "path"@)
        &&& opt_view(self.query) == param(pairs, "query"@)
        &&& opt_view(self.repo) == param(pairs, "repo"@)
    }

    /// Reads the known parameters from a URL query string.
    pub fn parse(raw: &str) -> (params: Self)
        ensures
            params.read_from(form_urlencoded_pairs(raw@)),
    {
        let pairs = decode_query_pairs(raw);
        let ghost ps = pairs_view(pairs@);
        let mut params = QueryParams {
            column: None,
            file: None,
            lang: None,
            line: None,
            limit: None,
            path: None,
            query: None,
            repo: None,
        };
        let mut i: usize = 0;
        while i < pairs.len()
            invariant
                i <= pairs.len(),
                ps == pairs_view(pairs@),
                params.read_from(ps.take(i as int)),
            decreases pairs.len() - i,
        {
            let ghost prefix = ps.take(i as int);
            assert(ps.take(i + 1).drop_last() =~= prefix);
            assert(ps.take(i + 1).last() == ps[i as int]);
            let key = pairs[i].0.as_str();
            let value = pairs[i].1.clone();
            assert(ps[i as int] == (key@, value@));
            assert forall|k: Seq<char>|
                #[trigger] param(ps.take(i + 1), k) == (if key@ == k {
                    Some(value@)
                } else {
                    param(prefix, k)
                }) by {}
            proof {
                reveal_strlit("column");
                reveal_strlit("file");
                reveal_strlit("lang");
                reveal_strlit("line");
                reveal_strlit("limit");
                reveal_strlit("path");
                reveal_strlit("query");
                reveal_strlit("repo");
            }
            set_param(&mut params, key, value);
            i += 1;
        }
        assert(ps.take(pairs.len() as int) =~= ps);
        params
    }

    /// No search parameter was given (`line`, `column` and `limit` do not count).
    pub fn is_empty(&self) -> (r: bool)
        ensures
            r == (self.file is None && self.lang is None && self.path is None && self.query is None
                && self.repo is None),
    {
        self.file.is_none() && self.lang.is_none() && self.path.is_none() && self.query.is_none()
            && self.repo.is_none()
    }

    /// The hit limit: the `limit` parameter when it parses as a number, else 50.
    pub fn limit_or_default(&self) -> (r: usize)
        ensures
            r == match opt_view(self.limit) {
                Some(t) => match parse_usize(t) {
                    Some(n) => n,
                    None => 50,
                },
                None => 50,
            },
    {
        match &self.limit {
            Some(t) => match parse_usize_str(t.as_str()) {
                Some(n) => n,
                None => 50,
            },
            None => 50,
        }
    }
}

/// Records one decoded pair: a known name sets its parameter, others are ignored.
fn set_param(params: &mut QueryParams, key: &str, value: String)
    ensures
        opt_view(final(params).column) == (if key@ == "column"@ { Some(value@) } else { opt_view(old(params).column) }),
        opt_view(final(params).file) == (if key@ == "file"@ { Some(value@) } else { opt_view(old(params).file) }),
        opt_view(final(params).lang) == (if key@ == "lang"@ { Some(value@) } else { opt_view(old(params).lang) }),
        opt_view(final(params).line) == (if key@ == "line"@ { Some(value@) } else { opt_view(old(params).line) }),
        opt_view(final(params).limit) == (if key@ == "limit"@ { Some(value@) } else { opt_view(old(params).limit) }),
        opt_view(final(params).path) == (if key@ == "path"@ { Some(value@) } else { opt_view(old(params).path) }),
        opt_view(final(params).query) == (if key@ == "query"@ { Some(value@) } else { opt_view(old(params).query) }),
        opt_view(final(params).repo) == (if key@ == "repo"@ { Some(value@) } else { opt_view(old(params).repo) }),
{
    proof {
        lemma_param_names_distinct();
    }
    if str_eq(key, "column") {
        params.column = Some(value);
    } else if str_eq(key, "file") {
        params.file = Some(value);
    } else if str_eq(key, "lang") {
        params.lang = Some(value);
    } else if str_eq(key, "line") {
        params.line = Some(value);
    } else if str_eq(key, "limit") {
        params.limit = Some(value);
    } else if str_eq(key, "path") {
        params.path = Some(value);
    } else if str_eq(key, "query") {
        params.query = Some(value);
    } else if str_eq(key, "repo") {
        params.repo = Some(value);
    }
}

/// A line or column parameter: its number when it parses, else 1.
pub open spec fn position_or_one(o: Option<Seq<char>>) -> u64 {
    match o {
        Some(t) => match parse_u64(t) {
            Some(n) => n,
            None => 1,
        },
        None => 1,
    }
}

/// Reads a line or column parameter (see [`position_or_one`]).
pub fn parse_position(o: &Option<String>) -> (r: u64)
    ensures
        r == position_or_one(opt_view(*o)),
{
    match o {
        Some(t) => match parse_u64_str(t.as_str()) {
            Some(n) => n,
            None => 1,
        },
        None => 1,
    }
}

/// What the server reports after opening a file in the editor.
#[derive(Debug, Clone)]
pub struct OpenFileResponse {
    pub repo: String,
    pub path: String,
    pub line: u64,
    pub column: u64,
}

impl OpenFileResponse {
    /// The response for an open request, line and column at least 1.
    pub fn new(repo: String, path: String, line: u64, column: u64) -> (r: Self)
        ensures
            r.repo == repo,
            r.path == path,
            r.line == if line >= 1 { line } else { 1 },
            r.column == if column >= 1 { column } else { 1 },
    {
        OpenFileResponse {
            repo,
            path,
            line: if line >= 1 { line } else { 1 },
            column: if column >= 1 { column } else { 1 },
        }
    }
}

/// Where the server's index stands.
#[derive(Debug, Clone, Copy, PartialEq, Eq)]
pub enum ServePhase {
    Starting,
    Scanning,
    Building,
    Ready,
    Failed,
}

/// The stage of a running index build.
#[derive(Debug, Clone, Copy, PartialEq, Eq)]
pub enum IndexPhase {
    Scanning,
    Building,
}

/// Progress of a running index build.
#[derive(Debug, Clone)]
pub struct IndexProgress {
    pub phase: IndexPhase,
    pub message: String,
    pub files_scanned: usize,
    pub files_total: Option<usize>,
    pub files_indexed: usize,
    pub lines_indexed: usize,
    pub skipped_binary: usize,
    pub skipped_large: usize,
}

/// The outcome of an index build.
#[derive(Debug, Clone)]
pub struct IndexBuildReport {
    pub rebuilt: bool,
    pub partial: bool,
    pub repos_refreshed: usize,
    pub files_scanned: usize,
    pub files_indexed: usize,
    pub lines_indexed: usize,
    pub skipped_binary: usize,
    pub skipped_large: usize,
    pub index_path: String,
}

/// The status the server reports.
#[derive(Debug, Clone)]
pub struct IndexStatus {
    pub phase: ServePhase,
    pub ready: bool,
    pub indexing: bool,
    pub message: String,
    pub zed_available: bool,
    pub zed_help: String,
    pub files_scanned: usize,
    pub files_total: Option<usize>,
    pub files_indexed: usize,
    pub lines_indexed: usize,
    pub skipped_binary: usize,
    pub skipped_large: usize,
    pub last_report: Option<IndexBuildReport>,
    pub error: Option<String>,
}

/// The help text for the "open in Zed" action.
pub open spec fn zed_help_spec(zed_binary: Seq<char>, available: bool) -> Seq<char> {
    if available {
        "Opens the viewed file in Zed, rooted at its repository, at line 1 without forcing a new workspace."@
    } else {
        "Disabled because `"@ + zed_binary
            + "` was not found when the server started. Install the Zed CLI or set NANITE_ZED, then restart `nanite search --web`."@
    }
}

/// The help text for the "open in Zed" action, given whether the editor's CLI was found.
pub fn zed_help_text(zed_binary: &str, available: bool) -> (s: String)
    ensures
        s@ == zed_help_spec(zed_binary@, available),
{
    let mut s = String::new();
    if available {
        push_str(
            &mut s,
            "Opens the viewed file in Zed, rooted at its repository, at line 1 without forcing a new workspace.",
        );
    } else {
        push_str(&mut s, "Disabled because `");
        push_str(&mut s, zed_binary);
        push_str(
            &mut s,
            "` was not found when the server started. Install the Zed CLI or set NANITE_ZED, then restart `nanite search --web`.",
        );
    }
    s
}

/// The message shown when a build finishes.
pub open spec fn finish_message(r: IndexBuildReport) -> Seq<char> {
    if r.rebuilt {
        (if r.partial {
            "Search index ready after refreshing "@
        } else {
            "Search index ready after rebuilding "@
        }) + decimal(r.repos_refreshed as nat) + " repos: "@ + decimal(r.files_indexed as nat)
            + " files across "@ + decimal(r.lines_indexed as nat) + " lines."@
    } else {
        "Search index is current across "@ + decimal(r.files_indexed as nat) + " files."@
    }
}

impl IndexStatus {
    /// The status before any build: ready exactly when an index was already loaded.
    pub fn initial(ready: bool, zed_available: bool, zed_help: String) -> (s: Self)
        ensures
            s.phase == (if ready { ServePhase::Ready } else { ServePhase::Starting }),
            s.ready == ready,
            !s.indexing,
            s.message@ == (if ready {
                "Loaded the current workspace index."@
            } else {
                "Preparing the first workspace index…"@
            }),
            s.zed_available == zed_available,
            s.zed_help == zed_help,
            s.files_scanned == 0 && s.files_total is None && s.files_indexed == 0,
            s.lines_indexed == 0 && s.skipped_binary == 0 && s.skipped_large == 0,
            s.last_report is None && s.error is None,
    {
        IndexStatus {
            phase: if ready {
                ServePhase::Ready
            } else {
                ServePhase::Starting
            },
            ready,
            indexing: false,
            message: if ready {
                "Loaded the current workspace index.".to_owned()
            } else {
                "Preparing the first workspace index…".to_owned()
            },
            zed_available,
            zed_help,
            files_scanned: 0,
            files_total: None,
            files_indexed: 0,
            lines_indexed: 0,
            skipped_binary: 0,
            skipped_large: 0,
            last_report: None,
            error: None,
        }
    }

    /// A background build starts: the status shows indexing and clears the error.
    pub fn begin_refresh(&mut self)
        ensures
            final(self).indexing,
            final(self).error is None,
            final(self).ready == old(self).ready,
            final(self).phase == (if old(self).ready { old(self).phase } else { ServePhase::Starting }),
            final(self).message@ == (if old(self).ready {
                "Refreshing the workspace index in the background…"@
            } else {
                "Building the first workspace index…"@
            }),
            final(self).files_indexed == old(self).files_indexed,
            final(self).last_report == old(self).last_report,
    {
        self.indexing = true;
        self.error = None;
        if self.ready {
            self.message = "Refreshing the workspace index in the background…".to_owned();
        } else {
            self.phase = ServePhase::Starting;
            self.message = "Building the first workspace index…".to_owned();
        }
    }

    /// Progress of the running build replaces the counters and the message.
    pub fn apply_progress(&mut self, progress: IndexProgress)
        ensures
            final(self).phase == (match progress.phase {
                IndexPhase::Scanning => ServePhase::Scanning,
                IndexPhase::Building => ServePhase::Building,
            }),
            final(self).indexing,
            final(self).message == progress.message,
            final(self).files_scanned == progress.files_scanned,
            final(self).files_total == progress.files_total,
            final(self).files_indexed == progress.files_indexed,
            final(self).lines_indexed == progress.lines_indexed,
            final(self).skipped_binary == progress.skipped_binary,
            final(self).skipped_large == progress.skipped_large,
            final(self).ready == old(self).ready,
            final(self).error == old(self).error,
            final(self).last_report == old(self).last_report,
    {
        self.phase = match progress.phase {
            IndexPhase::Scanning => ServePhase::Scanning,
            IndexPhase::Building => ServePhase::Building,
        };
        self.indexing = true;
        self.message = progress.message;
        self.files_scanned = progress.files_scanned;
        self.files_total = progress.files_total;
        self.files_indexed = progress.files_indexed;
        self.lines_indexed = progress.lines_indexed;
        self.skipped_binary = progress.skipped_binary;
        self.skipped_large = progress.skipped_large;
    }

    /// A finished build: ready when the new index could be opened, counters from the report.
    pub fn apply_finish(&mut self, report: IndexBuildReport, engine_loaded: bool)
        ensures
            final(self).phase == ServePhase::Ready,
            final(self).ready == engine_loaded,
            !final(self).indexing,
            final(self).message@ == finish_message(report),
            final(self).files_scanned == report.files_scanned,
            final(self).files_total == Some(report.files_indexed),
            final(self).files_indexed == report.files_indexed,
            final(self).lines_indexed == report.lines_indexed,
            final(self).skipped_binary == report.skipped_binary,
            final(self).skipped_large == report.skipped_large,
            final(self).last_report == Some(report),
            final(self).error is None,
            final(self).zed_available == old(self).zed_available,
    {
        let mut message = String::new();
        if report.rebuilt {
            if report.partial {
                push_str(&mut message, "Search index ready after refreshing ");
            } else {
                push_str(&mut message, "Search index ready after rebuilding ");
            }
            push_str(&mut message, decimal_string(report.repos_refreshed).as_str());
            push_str(&mut message, " repos: ");
            push_str(&mut message, decimal_string(report.files_indexed).as_str());
            push_str(&mut message, " files across ");
            push_str(&mut message, decimal_string(report.lines_indexed).as_str());
            push_str(&mut message, " lines.");
        } else {
            push_str(&mut message, "Search index is current across ");
            push_str(&mut message, decimal_string(report.files_indexed).as_str());
            push_str(&mut message, " files.");
        }
        self.phase = ServePhase::Ready;
        self.ready = engine_loaded;
        self.indexing = false;
        self.message = message;
        self.files_scanned = report.files_scanned;
        self.files_total = Some(report.files_indexed);
        self.files_indexed = report.files_indexed;
        self.lines_indexed = report.lines_indexed;
        self.skipped_binary = report.skipped_binary;
        self.skipped_large = report.skipped_large;
        self.last_report = Some(report);
        self.error = None;
    }

    /// A failed build: the last loaded index, if any, stays in service.
    pub fn apply_failure(&mut self, message: String, engine_loaded: bool)
        ensures
            final(self).ready == engine_loaded,
            !final(self).indexing,
            final(self).phase == (if engine_loaded { ServePhase::Ready } else { ServePhase::Failed }),
            final(self).message@ == (if engine_loaded {
                "Index refresh failed. Showing the last loaded index."@
            } else {
                "Search index build failed."@
            }),
            final(self).error == Some(message),
            final(self).files_indexed == old(self).files_indexed,
            final(self).last_report == old(self).last_report,
            final(self).zed_available == old(self).zed_available,
    {
        self.ready = engine_loaded;
        self.indexing = false;
        self.phase = if self.ready {
            ServePhase::Ready
        } else {
            ServePhase::Failed
        };
        self.message = if self.ready {
            "Index refresh failed. Showing the last loaded index.".to_owned()
        } else {
            "Search index build failed.".to_owned()
        };
        self.error = Some(message);
    }
}


/// The method of an HTTP request.
#[derive(Debug, Clone, Copy, PartialEq, Eq, Structural)]
pub enum HttpMethod {
    Get,
    Post,
    Other,
}

/// What the server does with a request.
pub enum Route {
    /// The search page.
    Page,
    /// The index status as JSON.
    Status,
    /// The repositories as JSON.
    Repos,
    /// A search; `empty` where no search parameter was given.
    Search { request: crate::search_query::SearchRequest, empty: bool },
    /// A file view.
    File { repo: String, path: String },
    /// A file view without the named parameter.
    MissingParameter(String),
    /// A rebuild of the index.
    Reindex,
    /// Opening a file in the editor, with the raw query string.
    Open(String),
    /// Anything else.
    NotFound,
}

/// The route of a request, from its method and URL path.
pub open spec fn route_kind(method: HttpMethod, path: Seq<char>) -> int {
    if method == HttpMethod::Get && path == "/"@ {
        0
    } else if method == HttpMethod::Get && path == "/api/status"@ {
        1
    } else if method == HttpMethod::Get && path == "/api/repos"@ {
        2
    } else if method == HttpMethod::Get && path == "/api/search"@ {
        3
    } else if method == HttpMethod::Get && path == "/api/file"@ {
        4
    } else if method == HttpMethod::Post && path == "/api/reindex"@ {
        5
    } else if method == HttpMethod::Post && path == "/api/open"@ {
        6
    } else {
        7
    }
}

/// Whether a route is the one its kind names, with the request it carries
/// built from the URL's query parameters.
pub open spec fn route_matches(r: Route, method: HttpMethod, url: Seq<char>) -> bool {
    let (path, raw) = crate::search_query::split_url_spec(url);
    let pairs = form_urlencoded_pairs(raw);
    let k = route_kind(method, path);
    if k == 0 {
        r is Page
    } else if k == 1 {
        r is Status
    } else if k == 2 {
        r is Repos
    } else if k == 3 {
        let empty = param(pairs, "file"@) is None && param(pairs, "lang"@) is None && param(pairs, "path"@) is None
            && param(pairs, "query"@) is None && param(pairs, "repo"@) is None;
        match r {
            Route::Search { request, empty: e } => e == empty && if empty {
                crate::search_query::request_built_from(request, Seq::empty(), None, None, None, None, 50)
            } else {
                crate::search_query::request_built_from(
                    request,
                    match param(pairs, "query"@) {
                        Some(q) => q,
                        None => Seq::empty(),
                    },
                    param(pairs, "repo"@),
                    param(pairs, "path"@),
                    param(pairs, "file"@),
                    param(pairs, "lang"@),
                    match param(pairs, "limit"@) {
                        Some(t) => match parse_usize(t) {
                            Some(n) => n,
                            None => 50,
                        },
                        None => 50,
                    },
                )
            },
            _ => false,
        }
    } else if k == 4 {
        match (param(pairs, "repo"@), param(pairs, "path"@)) {
            (Some(rp), Some(pp)) => r matches Route::File { repo, path } && repo@ == rp && path@ == pp,
            (None, _) => r matches Route::MissingParameter(n) && n@ == "repo"@,
            (Some(_), None) => r matches Route::MissingParameter(n) && n@ == "path"@,
        }
    } else if k == 5 {
        r is Reindex
    } else if k == 6 {
        r matches Route::Open(q) && q@ == raw
    } else {
        r is NotFound
    }
}

/// Decides what the server does with a request (see [`route_matches`]).
pub fn route_request(method: HttpMethod, url: &str) -> (r: Route)
    ensures
        route_matches(r, method, url@),
{
    let (path, raw) = crate::search_query::split_url(url);
    let p = path.as_str();
    if method == HttpMethod::Get && str_eq(p, "/") {
        Route::Page
    } else if method == HttpMethod::Get && str_eq(p, "/api/status") {
        Route::Status
    } else if method == HttpMethod::Get && str_eq(p, "/api/repos") {
        Route::Repos
    } else if method == HttpMethod::Get && str_eq(p, "/api/search") {
        let params = QueryParams::parse(raw.as_str());
        if params.is_empty() {
            proof {
                reveal_strlit("");
            }
            let request = crate::search_query::parse_search_request("", None, None, None, None, 50);
            assert(""@ == Seq::<char>::empty());
            Route::Search { request, empty: true }
        } else {
            let limit = params.limit_or_default();
            let query = match &params.query {
                Some(q) => q.clone(),
                None => String::new(),
            };
            let request = crate::search_query::parse_search_request(
                query.as_str(),
                params.repo,
                params.path,
                params.file,
                params.lang,
                limit,
            );
            Route::Search { request, empty: false }
        }
    } else if method == HttpMethod::Get && str_eq(p, "/api/file") {
        let params = QueryParams::parse(raw.as_str());
        match (params.repo, params.path) {
            (Some(repo), Some(path)) => Route::File { repo, path },
            (None, _) => Route::MissingParameter("repo".to_owned()),
            (Some(_), None) => Route::MissingParameter("path".to_owned()),
        }
    } else if method == HttpMethod::Post && str_eq(p, "/api/reindex") {
        Route::Reindex
    } else if method == HttpMethod::Post && str_eq(p, "/api/open") {
        Route::Open(raw)
    } else {
        Route::NotFound
    }
}

} // verus!
