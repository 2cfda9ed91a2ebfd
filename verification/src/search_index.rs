//! The search index's bookkeeping: what was indexed per file, which
//! repositories changed since, and how a refresh proceeds.
use crate::paths::{
    camino_components, camino_file_name, camino_is_absolute, camino_join, camino_starts_with,
    lemma_components_lt_order, path_before, path_file_name, path_is_absolute, path_join, path_lt, path_starts_with,
};
use crate::search_query::{normalize_searchable_text, searchable, SearchRequest};
use crate::text::{
    decimal, decimal_string, lines, lines_of, lower_seq, push_char, push_str, str_eq, strs_view, to_ascii_lowercase,
    trim, trim_string,
};
use crate::value_map::{lex_lt, ValueMap};
use vstd::prelude::*;

verus! {

/// Whether a refresh may reuse the index.
#[derive(Debug, Clone, Copy, PartialEq, Eq, Structural)]
pub enum RefreshMode {
    RefreshIfNeeded,
    ForceRebuild,
}

/// A repository as the search page lists it.
pub struct RepoSummary {
    pub id: String,
    pub label: String,
}

/// One matching line.
pub struct SearchHit {
    pub repo: String,
    pub repo_label: String,
    pub path: String,
    pub file: String,
    pub language: Option<String>,
    pub line_number: u64,
    pub text: String,
}

/// The answer to a search.
pub struct SearchResponse {
    pub query: crate::search_query::SearchRequest,
    pub total_hits: usize,
    pub truncated: bool,
    pub hits: Vec<SearchHit>,
}

/// A file shown in the viewer.
pub struct FileView {
    pub repo: String,
    pub repo_label: String,
    pub path: String,
    pub language: Option<String>,
    pub line_count: usize,
    pub highlighted_html: Option<String>,
    pub plain_text: Option<String>,
    pub truncated: bool,
}

/// How a file was indexed.
#[derive(Debug, Clone, Copy, PartialEq, Eq, Structural)]
pub enum IndexedFileStatus {
    Text,
    Binary,
    TooLarge,
}

/// What the index recorded of one file.
pub struct ManifestEntry {
    pub key: String,
    pub repo_id: String,
    pub relative_path: String,
    pub size: u64,
    pub modified_secs: u64,
    pub modified_nanos: u32,
    pub language: Option<String>,
    pub status: IndexedFileStatus,
}

/// The record of an index build.
pub struct IndexManifest {
    pub version: u32,
    pub files: Vec<ManifestEntry>,
}

/// The manifest format this version writes.
pub const INDEX_MANIFEST_VERSION: u32 = 2;

/// An entry as plain values.
pub open spec fn entry_view(e: ManifestEntry) -> (Seq<char>, Seq<char>, Seq<char>, u64, u64, u32, Option<Seq<char>>, IndexedFileStatus) {
    (e.key@, e.repo_id@, e.relative_path@, e.size, e.modified_secs, e.modified_nanos, match e.language {
        Some(l) => Some(l@),
        None => None,
    }, e.status)
}

/// The entries of one repository, in order.
pub open spec fn repo_entries(es: Seq<ManifestEntry>, id: Seq<char>) -> Seq<(Seq<char>, Seq<char>, Seq<char>, u64, u64, u32, Option<Seq<char>>, IndexedFileStatus)>
    decreases es.len(),
{
    if es.len() == 0 {
        Seq::empty()
    } else {
        let rest = repo_entries(es.drop_last(), id);
        if es.last().repo_id@ == id {
            rest.push(entry_view(es.last()))
        } else {
            rest
        }
    }
}

/// Whether some entry belongs to the repository.
pub open spec fn mentions(es: Seq<ManifestEntry>, id: Seq<char>) -> bool {
    exists|i: int| 0 <= i < es.len() && (#[trigger] es[i]).repo_id@ == id
}

/// A repository is dirty when its entries before and now differ.
pub open spec fn dirty(prev: Seq<ManifestEntry>, cur: Seq<ManifestEntry>, id: Seq<char>) -> bool {
    (mentions(prev, id) || mentions(cur, id)) && repo_entries(prev, id) != repo_entries(cur, id)
}

fn opt_eq(a: &Option<String>, b: &Option<String>) -> (r: bool)
    ensures
        r == (match (a, b) {
            (Some(x), Some(y)) => x@ == y@,
            (None, None) => true,
            _ => false,
        }),
{
    match (a, b) {
        (Some(x), Some(y)) => str_eq(x.as_str(), y.as_str()),
        (None, None) => true,
        _ => false,
    }
}

fn entry_eq(a: &ManifestEntry, b: &ManifestEntry) -> (r: bool)
    ensures
        r == (entry_view(*a) == entry_view(*b)),
{
    str_eq(a.key.as_str(), b.key.as_str()) && str_eq(a.repo_id.as_str(), b.repo_id.as_str()) && str_eq(
        a.relative_path.as_str(),
        b.relative_path.as_str(),
    ) && a.size == b.size && a.modified_secs == b.modified_secs && a.modified_nanos == b.modified_nanos && opt_eq(
        &a.language,
        &b.language,
    ) && a.status == b.status
}

fn entries_of<'a>(es: &'a Vec<ManifestEntry>, id: &str) -> (r: Vec<&'a ManifestEntry>)
    ensures
        r@.map_values(|e: &ManifestEntry| entry_view(*e)) == repo_entries(es@, id@),
{
    let mut r: Vec<&ManifestEntry> = Vec::new();
    let mut i: usize = 0;
    assert(es@.take(0) =~= Seq::<ManifestEntry>::empty());
    assert(r@.map_values(|e: &ManifestEntry| entry_view(*e)) =~= repo_entries(es@.take(0), id@));
    while i < es.len()
        invariant
            i <= es@.len(),
            r@.map_values(|e: &ManifestEntry| entry_view(*e)) == repo_entries(es@.take(i as int), id@),
        decreases es.len() - i,
    {
        assert(es@.take(i + 1).drop_last() =~= es@.take(i as int));
        assert(es@.take(i + 1).last() == es@[i as int]);
        if str_eq(es[i].repo_id.as_str(), id) {
            let ghost before = r@.map_values(|e: &ManifestEntry| entry_view(*e));
            r.push(&es[i]);
            assert(r@.map_values(|e: &ManifestEntry| entry_view(*e)) =~= before.push(entry_view(es@[i as int])));
        }
        i += 1;
    }
    assert(es@.take(es@.len() as int) =~= es@);
    r
}

/// Whether a repository's entries are the same before and now.
fn same_entries(prev: &Vec<ManifestEntry>, cur: &Vec<ManifestEntry>, id: &str) -> (r: bool)
    ensures
        r == (repo_entries(prev@, id@) == repo_entries(cur@, id@)),
{
    let a = entries_of(prev, id);
    let b = entries_of(cur, id);
    let ghost av = a@.map_values(|e: &ManifestEntry| entry_view(*e));
    let ghost bv = b@.map_values(|e: &ManifestEntry| entry_view(*e));
    if a.len() != b.len() {
        assert(av.len() != bv.len());
        return false;
    }
    let mut i: usize = 0;
    while i < a.len()
        invariant
            i <= a@.len(),
            a@.len() == b@.len(),
            av == a@.map_values(|e: &ManifestEntry| entry_view(*e)),
            bv == b@.map_values(|e: &ManifestEntry| entry_view(*e)),
            av == repo_entries(prev@, id@),
            bv == repo_entries(cur@, id@),
            forall|j: int| 0 <= j < i ==> av[j] == bv[j],
        decreases a.len() - i,
    {
        if !entry_eq(a[i], b[i]) {
            assert(av[i as int] != bv[i as int]);
            return false;
        }
        i += 1;
    }
    assert(av =~= bv);
    true
}

fn insert_ids(ids: &mut ValueMap, es: &Vec<ManifestEntry>)
    ensures
        forall|k: Seq<char>|
            #![trigger final(ids)@.contains_key(k)]
            #![trigger old(ids)@.contains_key(k)]
            final(ids)@.contains_key(k) <==> (old(ids)@.contains_key(k) || mentions(es@, k)),
{
    let mut i: usize = 0;
    while i < es.len()
        invariant
            i <= es@.len(),
            forall|k: Seq<char>| ids@.contains_key(k) <==> (old(ids)@.contains_key(k) || exists|j: int| 0 <= j < i && (#[trigger] es@[j]).repo_id@ == k),
        decreases es.len() - i,
    {
        ids.insert(es[i].repo_id.clone(), String::new());
        assert forall|k: Seq<char>| ids@.contains_key(k) <==> (old(ids)@.contains_key(k) || exists|j: int| 0 <= j < i + 1 && (#[trigger] es@[j]).repo_id@ == k) by {
            if k == es@[i as int].repo_id@ {
                assert(es@[i as int].repo_id@ == k);
            }
        }
        i += 1;
    }
}

/// The repositories whose entries changed, each once, in ascending order.
pub fn dirty_repo_ids(previous: &Vec<ManifestEntry>, current: &Vec<ManifestEntry>) -> (r: Vec<String>)
    ensures
        forall|i: int, j: int| 0 <= i < j < r@.len() ==> lex_lt(#[trigger] r@[i]@, #[trigger] r@[j]@),
        forall|k: Seq<char>| strs_view(r@).contains(k) <==> dirty(previous@, current@, k),
{
    let mut ids = ValueMap::new();
    let ghost empty_ids = ids@;
    insert_ids(&mut ids, previous);
    let ghost mid_ids = ids@;
    insert_ids(&mut ids, current);
    assert forall|k: Seq<char>| ids@.contains_key(k) <==> (mentions(previous@, k) || mentions(current@, k)) by {
        assert(!empty_ids.contains_key(k));
        assert(mid_ids.contains_key(k) <==> mentions(previous@, k));
    }
    let all = ids.names_in_order();
    let mut r: Vec<String> = Vec::new();
    let mut i: usize = 0;
    while i < all.len()
        invariant
            i <= all@.len(),
            forall|a: int, b: int| 0 <= a < b < all@.len() ==> lex_lt(#[trigger] all@[a]@, #[trigger] all@[b]@),
            forall|k: Seq<char>| strs_view(all@).contains(k) <==> (mentions(previous@, k) || mentions(current@, k)),
            forall|a: int| 0 <= a < r@.len() ==> exists|b: int| 0 <= b < i && (#[trigger] r@[a])@ == all@[b]@,
            forall|a: int, b: int| 0 <= a < b < r@.len() ==> lex_lt(#[trigger] r@[a]@, #[trigger] r@[b]@),
            r@.len() > 0 ==> exists|b: int| 0 <= b < i && r@[r@.len() - 1]@ == all@[b]@ && forall|c: int| b < c < i ==> !dirty(previous@, current@, #[trigger] all@[c]@),
            forall|k: Seq<char>| strs_view(r@).contains(k) <==> (dirty(previous@, current@, k) && exists|b: int| 0 <= b < i && (#[trigger] all@[b])@ == k),
        decreases all.len() - i,
    {
        assert(strs_view(all@)[i as int] == all@[i as int]@);
        assert(strs_view(all@).contains(all@[i as int]@));
        if !same_entries(previous, current, all[i].as_str()) {
            let ghost before = r@;
            proof {
                if r@.len() > 0 {
                    let b = choose|b: int| 0 <= b < i && r@[r@.len() - 1]@ == all@[b]@ && forall|c: int| b < c < i ==> !dirty(previous@, current@, #[trigger] all@[c]@);
                    assert(lex_lt(all@[b]@, all@[i as int]@));
                }
            }
            r.push(all[i].clone());
            proof {
                assert forall|a: int, b: int| 0 <= a < b < r@.len() implies lex_lt(#[trigger] r@[a]@, #[trigger] r@[b]@) by {
                    if b == r@.len() - 1 && a < b {
                        let b0 = choose|b0: int| 0 <= b0 < i && before[before.len() - 1]@ == all@[b0]@ && forall|c: int| b0 < c < i ==> !dirty(previous@, current@, #[trigger] all@[c]@);
                        let a0 = choose|a0: int| 0 <= a0 < i && (#[trigger] before[a])@ == all@[a0]@;
                        if a < before.len() - 1 {
                            assert(lex_lt(before[a]@, before[before.len() - 1]@));
                            assert(lex_lt(all@[b0]@, all@[i as int]@));
                            crate::value_map::lemma_lex_lt_transitive(before[a]@, before[before.len() - 1]@, all@[i as int]@);
                        } else {
                            assert(lex_lt(all@[b0]@, all@[i as int]@));
                        }
                    }
                }
                assert forall|a: int| 0 <= a < r@.len() implies exists|b: int| 0 <= b < i + 1 && (#[trigger] r@[a])@ == all@[b]@ by {
                    if a == r@.len() - 1 {
                        assert(r@[a]@ == all@[i as int]@);
                    } else {
                        assert(r@[a] == before[a]);
                    }
                }
                assert forall|k: Seq<char>| strs_view(r@).contains(k) <==> (dirty(previous@, current@, k) && exists|b: int| 0 <= b < i + 1 && (#[trigger] all@[b])@ == k) by {
                    assert(strs_view(r@) =~= strs_view(before).push(all@[i as int]@));
                    if k == all@[i as int]@ {
                        assert(strs_view(r@)[r@.len() - 1] == k);
                    }
                    if strs_view(before).contains(k) {
                        let a = choose|a: int| 0 <= a < strs_view(before).len() && strs_view(before)[a] == k;
                        assert(strs_view(r@)[a] == k);
                    }
                    if strs_view(r@).contains(k) && k != all@[i as int]@ {
                        let a = choose|a: int| 0 <= a < strs_view(r@).len() && strs_view(r@)[a] == k;
                        assert(strs_view(before)[a] == k);
                    }
                }
            }
        } else {
            proof {
                assert(!dirty(previous@, current@, all@[i as int]@));
                assert forall|k: Seq<char>| strs_view(r@).contains(k) <==> (dirty(previous@, current@, k) && exists|b: int| 0 <= b < i + 1 && (#[trigger] all@[b])@ == k) by {
                    if dirty(previous@, current@, k) && exists|b: int| 0 <= b < i + 1 && (#[trigger] all@[b])@ == k {
                        let b = choose|b: int| 0 <= b < i + 1 && (#[trigger] all@[b])@ == k;
                        if b == i {
                            assert(false);
                        }
                    }
                }
            }
        }
        i += 1;
    }
    proof {
        assert forall|k: Seq<char>| strs_view(r@).contains(k) <==> dirty(previous@, current@, k) by {
            if dirty(previous@, current@, k) {
                assert(strs_view(all@).contains(k));
                let b = choose|b: int| 0 <= b < strs_view(all@).len() && strs_view(all@)[b] == k;
                assert(all@[b]@ == k);
            }
        }
    }
    r
}

/// How a refresh proceeds.
pub enum RefreshPlan {
    FullRebuild,
    Partial { dirty_repo_ids: Vec<String> },
    Unchanged,
}

/// A full rebuild where asked for, where there is no index or no manifest of this
/// version; else a partial refresh of the dirty repositories, or nothing.
pub open spec fn plan_is(
    plan: RefreshPlan,
    mode: RefreshMode,
    index_exists: bool,
    manifest: Option<&IndexManifest>,
    current: Seq<ManifestEntry>,
) -> bool {
    if mode == RefreshMode::ForceRebuild || !index_exists || manifest is None || manifest.unwrap().version != INDEX_MANIFEST_VERSION {
        plan is FullRebuild
    } else {
        let prev = manifest.unwrap().files@;
        if exists|k: Seq<char>| dirty(prev, current, k) {
            plan matches RefreshPlan::Partial { dirty_repo_ids } && forall|k: Seq<char>| strs_view(dirty_repo_ids@).contains(k) <==> dirty(prev, current, k)
        } else {
            plan is Unchanged
        }
    }
}

/// Decides how a refresh proceeds (see [`plan_is`]).
pub fn refresh_plan(mode: RefreshMode, index_exists: bool, manifest: Option<&IndexManifest>, current: &Vec<ManifestEntry>) -> (r: RefreshPlan)
    ensures
        plan_is(r, mode, index_exists, manifest, current@),
{
    if mode == RefreshMode::ForceRebuild || !index_exists {
        return RefreshPlan::FullRebuild;
    }
    let m = match manifest {
        Some(m) => m,
        None => {
            return RefreshPlan::FullRebuild;
        },
    };
    if m.version != INDEX_MANIFEST_VERSION {
        return RefreshPlan::FullRebuild;
    }
    let ids = dirty_repo_ids(&m.files, current);
    if ids.len() == 0 {
        proof {
            assert forall|k: Seq<char>| !dirty(m.files@, current@, k) by {
                if dirty(m.files@, current@, k) {
                    assert(strs_view(ids@).contains(k));
                }
            }
        }
        RefreshPlan::Unchanged
    } else {
        proof {
            assert(strs_view(ids@)[0] == ids@[0]@);
            assert(strs_view(ids@).contains(ids@[0]@));
        }
        RefreshPlan::Partial { dirty_repo_ids: ids }
    }
}

/// `n` in decimal with leading zeros to at least ten digits.
pub open spec fn zero_padded10(n: u64) -> Seq<char> {
    let d = decimal(n as nat);
    if d.len() < 10 {
        Seq::new((10 - d.len()) as nat, |i: int| '0') + d
    } else {
        d
    }
}

/// The key that orders index lines: repository, path and zero-padded line number
/// separated by the unit separator.
pub open spec fn sort_key_spec(repo_id: Seq<char>, path: Seq<char>, line: u64) -> Seq<char> {
    repo_id + seq!['\u{1f}'] + path + seq!['\u{1f}'] + zero_padded10(line)
}

/// The key that orders index lines (see [`sort_key_spec`]).
pub fn sort_key(repo_id: &str, relative_path: &str, line_number: u64) -> (r: String)
    ensures
        r@ == sort_key_spec(repo_id@, relative_path@, line_number),
{
    let mut r = repo_id.to_owned();
    push_char(&mut r, '\u{1f}');
    push_str(&mut r, relative_path);
    push_char(&mut r, '\u{1f}');
    let d = crate::text::to_chars(decimal_string_u64(line_number).as_str());
    let ghost dv = decimal(line_number as nat);
    let mut pad: usize = d.len();
    let ghost before = r@;
    while pad < 10
        invariant
            d@ == dv,
            d@.len() <= pad <= 10 || (pad == d@.len() && pad >= 10),
            r@ == before + Seq::new((pad - d@.len()) as nat, |i: int| '0'),
        decreases 10 - pad,
    {
        push_char(&mut r, '0');
        assert(r@ =~= before + Seq::new((pad + 1 - d@.len()) as nat, |i: int| '0'));
        pad += 1;
    }
    let digits = crate::text::from_chars(&d);
    push_str(&mut r, digits.as_str());
    proof {
        if dv.len() >= 10 {
            assert(Seq::new(0nat, |i: int| '0') =~= Seq::<char>::empty());
        }
    }
    assert(r@ =~= sort_key_spec(repo_id@, relative_path@, line_number));
    r
}

/// `n` in decimal.
fn decimal_string_u64(n: u64) -> (s: String)
    ensures
        s@ == decimal(n as nat),
    decreases n,
{
    if n < 10 {
        let mut s = String::new();
        push_char(&mut s, ((48 + n) as u8) as char);
        s
    } else {
        let mut s = decimal_string_u64(n / 10);
        push_char(&mut s, ((48 + n % 10) as u8) as char);
        s
    }
}

/// The largest file the index reads, in bytes.
pub const MAX_INDEXED_FILE_BYTES: u64 = 524288;

/// How a file is indexed: too large past the limit; binary when it holds a
/// zero byte; text otherwise. The contents are looked at only within the
/// limit.
pub open spec fn file_status_spec(size: u64, bytes: Seq<u8>) -> IndexedFileStatus {
    if size > MAX_INDEXED_FILE_BYTES {
        IndexedFileStatus::TooLarge
    } else if bytes.contains(0u8) {
        IndexedFileStatus::Binary
    } else {
        IndexedFileStatus::Text
    }
}

/// How a file is indexed (see [`file_status_spec`]).
pub fn file_status(size: u64, bytes: &Vec<u8>) -> (r: IndexedFileStatus)
    ensures
        r == file_status_spec(size, bytes@),
{
    if size > MAX_INDEXED_FILE_BYTES {
        return IndexedFileStatus::TooLarge;
    }
    let mut i: usize = 0;
    while i < bytes.len()
        invariant
            i <= bytes@.len(),
            size <= MAX_INDEXED_FILE_BYTES,
            forall|j: int| 0 <= j < i ==> bytes@[j] != 0u8,
        decreases bytes.len() - i,
    {
        if bytes[i] == 0 {
            assert(bytes@[i as int] == 0u8);
            assert(bytes@.contains(0u8));
            return IndexedFileStatus::Binary;
        }
        i += 1;
    }
    IndexedFileStatus::Text
}

/// The key of a file in the manifest: its repository, a colon, its path.
pub fn manifest_key(repo_id: &str, relative_path: &str) -> (r: String)
    ensures
        r@ == repo_id@ + ":"@ + relative_path@,
{
    let mut r = repo_id.to_owned();
    push_str(&mut r, ":");
    push_str(&mut r, relative_path);
    r
}

/// Whether scanning reports its progress after `files_scanned` files: after
/// the first, then after every thirty-second.
pub fn reports_scan_progress(files_scanned: usize) -> (r: bool)
    ensures
        r == (files_scanned == 1 || files_scanned % 32 == 0),
{
    files_scanned == 1 || files_scanned % 32 == 0
}

/// The text `String::from_utf8_lossy` makes of bytes: each invalid UTF-8
/// sequence becomes U+FFFD.
pub uninterp spec fn utf8_lossy(bytes: Seq<u8>) -> Seq<char>;

/// `String::from_utf8_lossy`, owned (see [`utf8_lossy`]).
#[verifier::external_body]
fn text_of_bytes(bytes: &Vec<u8>) -> (r: String)
    ensures
        r@ == utf8_lossy(bytes@),
{
    String::from_utf8_lossy(bytes).into_owned()
}

/// A file found by a scan: its manifest entry, the repository's label, its
/// path and file name, and its text where it is a text file.
pub struct CollectedFile {
    pub manifest: ManifestEntry,
    pub repo_label: String,
    pub relative_path: String,
    pub file_name: String,
    pub text: Option<String>,
}

/// What a scan has counted: files seen, binary files skipped, files skipped
/// as too large.
pub struct ScanCounts {
    pub files_scanned: usize,
    pub skipped_binary: usize,
    pub skipped_large: usize,
}

/// What a scan found of one file: where it is, how large, when it changed, its
/// language, and its bytes (read only where the size is within the limit).
pub struct ScannedFile {
    pub relative_path: String,
    pub size: u64,
    pub modified_secs: u64,
    pub modified_nanos: u32,
    pub language: Option<String>,
    pub bytes: Vec<u8>,
}

/// `c` is the file `f` of repository `repo_id` labelled `label`, collected:
/// keyed by repository and path, with its status, and its text only where it
/// is a text file.
pub open spec fn collected_from(c: CollectedFile, repo_id: Seq<char>, label: Seq<char>, f: ScannedFile, name: Seq<char>) -> bool {
    let status = file_status_spec(f.size, f.bytes@);
    &&& c.manifest.key@ == repo_id + ":"@ + f.relative_path@
    &&& c.manifest.repo_id@ == repo_id
    &&& c.manifest.relative_path@ == f.relative_path@
    &&& c.manifest.size == f.size
    &&& c.manifest.modified_secs == f.modified_secs
    &&& c.manifest.modified_nanos == f.modified_nanos
    &&& match (c.manifest.language, f.language) {
        (Some(a), Some(b)) => a@ == b@,
        (None, None) => true,
        _ => false,
    }
    &&& c.manifest.status == status
    &&& c.repo_label@ == label
    &&& c.relative_path@ == f.relative_path@
    &&& c.file_name@ == name
    &&& match c.text {
        Some(t) => status == IndexedFileStatus::Text && t@ == utf8_lossy(f.bytes@),
        None => status != IndexedFileStatus::Text,
    }
}

impl ScanCounts {
    /// Nothing counted yet.
    pub fn new() -> (c: Self)
        ensures
            c.files_scanned == 0 && c.skipped_binary == 0 && c.skipped_large == 0,
    {
        ScanCounts { files_scanned: 0, skipped_binary: 0, skipped_large: 0 }
    }
}

/// Collects one scanned file of a repository: refused, with `failed to
/// determine a file name for` the path, where the path has no file name;
/// otherwise the file is counted as scanned, and as skipped where it is binary
/// or too large.
pub fn collect_file(repo_id: &str, repo_label: &str, file: ScannedFile, counts: &mut ScanCounts) -> (r: Result<
    CollectedFile,
    String,
>)
    requires
        old(counts).files_scanned < usize::MAX,
        old(counts).skipped_binary < usize::MAX,
        old(counts).skipped_large < usize::MAX,
    ensures
        match camino_file_name(file.relative_path@) {
            None => {
                &&& r matches Err(m) && m@ == "failed to determine a file name for "@ + file.relative_path@
                &&& *final(counts) == *old(counts)
            },
            Some(name) => {
                &&& r matches Ok(c) && collected_from(c, repo_id@, repo_label@, file, name)
                &&& final(counts).files_scanned == old(counts).files_scanned + 1
                &&& final(counts).skipped_binary == old(counts).skipped_binary + (if file_status_spec(
                    file.size,
                    file.bytes@,
                ) == IndexedFileStatus::Binary {
                    1int
                } else {
                    0int
                })
                &&& final(counts).skipped_large == old(counts).skipped_large + (if file_status_spec(
                    file.size,
                    file.bytes@,
                ) == IndexedFileStatus::TooLarge {
                    1int
                } else {
                    0int
                })
            },
        },
{
    let file_name = match path_file_name(file.relative_path.as_str()) {
        Some(n) => n,
        None => {
            let mut m = "failed to determine a file name for ".to_owned();
            push_str(&mut m, file.relative_path.as_str());
            return Err(m);
        },
    };
    let status = file_status(file.size, &file.bytes);
    let text = match status {
        IndexedFileStatus::Text => Some(text_of_bytes(&file.bytes)),
        IndexedFileStatus::Binary => {
            counts.skipped_binary = counts.skipped_binary + 1;
            None
        },
        IndexedFileStatus::TooLarge => {
            counts.skipped_large = counts.skipped_large + 1;
            None
        },
    };
    counts.files_scanned = counts.files_scanned + 1;
    let language = match &file.language {
        Some(l) => Some(l.clone()),
        None => None,
    };
    let manifest = ManifestEntry {
        key: manifest_key(repo_id, file.relative_path.as_str()),
        repo_id: repo_id.to_owned(),
        relative_path: file.relative_path.clone(),
        size: file.size,
        modified_secs: file.modified_secs,
        modified_nanos: file.modified_nanos,
        language,
        status,
    };
    Ok(CollectedFile { manifest, repo_label: repo_label.to_owned(), relative_path: file.relative_path, file_name, text })
}

/// The files are in path order: no file's path orders before an earlier one's.
pub open spec fn files_sorted(fs: Seq<CollectedFile>) -> bool {
    forall|i: int, j: int| 0 <= i < j < fs.len() ==> !path_lt((#[trigger] fs[j]).relative_path@, (#[trigger] fs[i]).relative_path@)
}

/// Putting `x` where the paths before it do not follow it and the one after
/// it does keeps sorted files sorted.
proof fn lemma_insert_sorted(r: Seq<CollectedFile>, k: int, x: CollectedFile)
    requires
        files_sorted(r),
        0 <= k <= r.len(),
        forall|j: int| 0 <= j < k ==> !path_lt(x.relative_path@, (#[trigger] r[j]).relative_path@),
        k < r.len() ==> path_lt(x.relative_path@, r[k].relative_path@),
    ensures
        files_sorted(r.insert(k, x)),
{
    let n = r.insert(k, x);
    assert forall|i: int, j: int| 0 <= i < j < n.len() implies !path_lt((#[trigger] n[j]).relative_path@, (
    #[trigger] n[i]).relative_path@) by {
        if i == k && j > k {
            let y = r[j - 1];
            assert(n[j] == y);
            lemma_components_lt_order(
                camino_components(y.relative_path@),
                camino_components(x.relative_path@),
                camino_components(r[k].relative_path@),
            );
            lemma_components_lt_order(
                camino_components(x.relative_path@),
                camino_components(r[k].relative_path@),
                camino_components(y.relative_path@),
            );
            if j - 1 > k {
                assert(!path_lt(r[j - 1].relative_path@, r[k].relative_path@));
            }
        } else if i < k && j == k {
            assert(n[i] == r[i]);
        } else if i < k && j > k {
            assert(n[i] == r[i] && n[j] == r[j - 1]);
        } else if i < k {
            assert(n[i] == r[i] && n[j] == r[j]);
        } else if i > k {
            assert(n[i] == r[i - 1] && n[j] == r[j - 1]);
        }
    }
}

/// The collected files in path order, the same files as given.
pub fn sort_by_path(files: Vec<CollectedFile>) -> (r: Vec<CollectedFile>)
    ensures
        files_sorted(r@),
        r@.to_multiset() == files@.to_multiset(),
{
    broadcast use vstd::seq_lib::group_to_multiset_ensures;

    let ghost all = files@;
    let mut rest = files;
    let mut r: Vec<CollectedFile> = Vec::new();
    while rest.len() > 0
        invariant
            files_sorted(r@),
            r@.to_multiset().add(rest@.to_multiset()) == all.to_multiset(),
        decreases rest.len(),
    {
        let ghost before_rest = rest@;
        let ghost before_r = r@;
        let x = rest.remove(0);
        let mut k: usize = 0;
        while k < r.len() && !path_before(x.relative_path.as_str(), r[k].relative_path.as_str())
            invariant
                k <= r@.len(),
                r@ == before_r,
                forall|j: int| 0 <= j < k ==> !path_lt(x.relative_path@, (#[trigger] r@[j]).relative_path@),
            decreases r.len() - k,
        {
            k += 1;
        }
        proof {
            lemma_insert_sorted(r@, k as int, x);
            vstd::seq_lib::to_multiset_insert(r@, k as int, x);
            vstd::seq_lib::to_multiset_remove(before_rest, 0);
            assert(before_rest[0] == x);
            assert(before_rest.contains(x));
            vstd::seq_lib::to_multiset_contains(before_rest, x);
            assert(before_rest.to_multiset().count(x) > 0);
        }
        r.insert(k, x);
        assert(r@.to_multiset().add(rest@.to_multiset()) =~= all.to_multiset());
    }
    assert(rest@.to_multiset() =~= vstd::multiset::Multiset::empty());
    assert(r@.to_multiset() =~= all.to_multiset());
    r
}

/// How many of the scanned files have the status `st`.
pub open spec fn status_count(fs: Seq<ScannedFile>, st: IndexedFileStatus) -> nat
    decreases fs.len(),
{
    if fs.len() == 0 {
        0
    } else {
        status_count(fs.drop_last(), st) + (if file_status_spec(fs.last().size, fs.last().bytes@) == st {
            1nat
        } else {
            0nat
        })
    }
}

/// The file name of a scanned file's path, where it has one.
pub open spec fn scanned_name(f: ScannedFile) -> Option<Seq<char>> {
    camino_file_name(f.relative_path@)
}

/// Collects the scanned files of one repository: the first file without a
/// file name refuses the whole scan (see [`collect_file`]); otherwise each file
/// is collected and counted, and the files come out in path order.
pub fn collect_repo_files(repo_id: &str, repo_label: &str, scanned: Vec<ScannedFile>, counts: &mut ScanCounts) -> (r:
    Result<Vec<CollectedFile>, String>)
    requires
        old(counts).files_scanned + scanned@.len() < usize::MAX,
        old(counts).skipped_binary + scanned@.len() < usize::MAX,
        old(counts).skipped_large + scanned@.len() < usize::MAX,
    ensures
        match r {
            Ok(fs) => {
                &&& forall|i: int| 0 <= i < scanned@.len() ==> (#[trigger] scanned_name(scanned@[i])) is Some
                &&& files_sorted(fs@)
                &&& exists|c: Seq<CollectedFile>| #![trigger c.to_multiset()] {
                    &&& c.len() == scanned@.len()
                    &&& forall|i: int| 0 <= i < c.len() ==> collected_from(
                        #[trigger] c[i],
                        repo_id@,
                        repo_label@,
                        scanned@[i],
                        scanned_name(scanned@[i])->0,
                    )
                    &&& fs@.to_multiset() == c.to_multiset()
                }
                &&& final(counts).files_scanned == old(counts).files_scanned + scanned@.len()
                &&& final(counts).skipped_binary == old(counts).skipped_binary + status_count(
                    scanned@,
                    IndexedFileStatus::Binary,
                )
                &&& final(counts).skipped_large == old(counts).skipped_large + status_count(
                    scanned@,
                    IndexedFileStatus::TooLarge,
                )
            },
            Err(m) => exists|i: int| {
                &&& 0 <= i < scanned@.len()
                &&& (#[trigger] scanned_name(scanned@[i])) is None
                &&& forall|j: int| 0 <= j < i ==> (#[trigger] scanned_name(scanned@[j])) is Some
                &&& m@ == "failed to determine a file name for "@ + scanned@[i].relative_path@
            },
        },
{
    let ghost all = scanned@;
    let ghost start = *counts;
    let mut files: Vec<CollectedFile> = Vec::new();
    let mut rest = scanned;
    let mut i: usize = 0;
    assert(all.skip(0) =~= all);
    while rest.len() > 0
        invariant
            i + rest@.len() == all.len(),
            all == scanned@,
            rest@ == all.skip(i as int),
            files@.len() == i,
            forall|k: int| 0 <= k < i ==> (#[trigger] scanned_name(all[k])) is Some,
            forall|k: int| 0 <= k < i ==> collected_from(
                #[trigger] files@[k],
                repo_id@,
                repo_label@,
                all[k],
                scanned_name(all[k])->0,
            ),
            counts.files_scanned == start.files_scanned + i,
            counts.skipped_binary == start.skipped_binary + status_count(all.take(i as int), IndexedFileStatus::Binary),
            counts.skipped_large == start.skipped_large + status_count(all.take(i as int), IndexedFileStatus::TooLarge),
            start.files_scanned + all.len() < usize::MAX,
            start.skipped_binary + all.len() < usize::MAX,
            start.skipped_large + all.len() < usize::MAX,
        decreases rest.len(),
    {
        let f = rest.remove(0);
        assert(f == all[i as int]);
        assert(rest@ =~= all.skip(i + 1));
        assert(all.take(i + 1).drop_last() =~= all.take(i as int));
        assert(all.take(i + 1).last() == all[i as int]);
        proof {
            lemma_status_count_bound(all.take(i as int), IndexedFileStatus::Binary);
            lemma_status_count_bound(all.take(i as int), IndexedFileStatus::TooLarge);
        }
        match collect_file(repo_id, repo_label, f, counts) {
            Ok(c) => files.push(c),
            Err(m) => {
                assert(scanned_name(all[i as int]) is None);
                assert(m@ == "failed to determine a file name for "@ + all[i as int].relative_path@);
                return Err(m);
            },
        }
        i += 1;
    }
    assert(all.take(all.len() as int) =~= all);
    let ghost c = files@;
    let sorted = sort_by_path(files);
    assert(sorted@.to_multiset() == c.to_multiset());
    Ok(sorted)
}

/// A count of statuses is at most the number of files.
proof fn lemma_status_count_bound(fs: Seq<ScannedFile>, st: IndexedFileStatus)
    ensures
        status_count(fs, st) <= fs.len(),
    decreases fs.len(),
{
    if fs.len() > 0 {
        lemma_status_count_bound(fs.drop_last(), st);
    }
}

/// Whether a file's lines go into the index: a text file, of a repository
/// being refreshed where only some are.
pub open spec fn indexed_spec(status: IndexedFileStatus, repo_id: Seq<char>, dirty: Option<Seq<Seq<char>>>) -> bool {
    status == IndexedFileStatus::Text && match dirty {
        None => true,
        Some(ids) => ids.contains(repo_id),
    }
}

/// Whether a file's lines go into the index (see [`indexed_spec`]).
pub fn is_indexed(status: IndexedFileStatus, repo_id: &str, dirty: Option<&Vec<String>>) -> (r: bool)
    ensures
        r == indexed_spec(status, repo_id@, match dirty { Some(d) => Some(strs_view(d@)), None => None }),
{
    if status != IndexedFileStatus::Text {
        return false;
    }
    match dirty {
        None => true,
        Some(ids) => {
            let mut i: usize = 0;
            while i < ids.len()
                invariant
                    i <= ids@.len(),
                    status == IndexedFileStatus::Text,
                    dirty == Some(ids),
                    forall|j: int| 0 <= j < i ==> strs_view(ids@)[j] != repo_id@,
                decreases ids.len() - i,
            {
                if str_eq(ids[i].as_str(), repo_id) {
                    assert(strs_view(ids@)[i as int] == repo_id@);
                    assert(strs_view(ids@).contains(repo_id@));
                    return true;
                }
                i += 1;
            }
            false
        },
    }
}

/// A search that asks for nothing: no hits are wanted, or there is neither
/// query text nor any filter.
pub open spec fn asks_for_nothing_spec(r: SearchRequest) -> bool {
    r.limit == 0 || (trim(r.query@).len() == 0 && r.repo_filters@.len() == 0 && r.path_filters@.len() == 0
        && r.file_filters@.len() == 0 && r.lang_filters@.len() == 0)
}

/// Whether a search asks for nothing (see [`asks_for_nothing_spec`]); it is
/// answered with no hits without reading the index.
pub fn asks_for_nothing(request: &SearchRequest) -> (r: bool)
    ensures
        r == asks_for_nothing_spec(*request),
{
    request.limit == 0 || (trim_string(request.query.as_str()).as_str().is_empty() && request.repo_filters.len() == 0
        && request.path_filters.len() == 0 && request.file_filters.len() == 0 && request.lang_filters.len() == 0)
}

/// The answer to a search: the hits found, the number of all matches, and
/// whether more matched than are returned.
pub fn search_response(request: SearchRequest, total_hits: usize, hits: Vec<SearchHit>) -> (r: SearchResponse)
    ensures
        r.query == request,
        r.total_hits == total_hits,
        r.hits@ == hits@,
        r.truncated == (total_hits > hits@.len()),
{
    let truncated = total_hits > hits.len();
    SearchResponse { query: request, total_hits, truncated, hits }
}

/// Where the editor opens a file: its path, the line and the column, each
/// number at least one.
pub fn zed_target(canonical_path: &str, line: u64, column: u64) -> (r: String)
    ensures
        r@ == canonical_path@ + ":"@ + decimal((if line < 1 { 1 } else { line }) as nat) + ":"@ + decimal(
            (if column < 1 { 1 } else { column }) as nat,
        ),
{
    let line = if line < 1 { 1 } else { line };
    let column = if column < 1 { 1 } else { column };
    let mut r = canonical_path.to_owned();
    push_str(&mut r, ":");
    push_str(&mut r, decimal_string_u64(line).as_str());
    push_str(&mut r, ":");
    push_str(&mut r, decimal_string_u64(column).as_str());
    r
}

/// One line of a text file as the index stores it: the raw values shown in
/// results, and the normalized values searched.
pub struct IndexedLine {
    pub repo: String,
    pub repo_label: String,
    pub path_raw: String,
    pub file_raw: String,
    pub language_raw: String,
    pub language: String,
    pub line_number: u64,
    pub sort_key: String,
    pub text_raw: String,
    pub content: String,
    pub path: String,
    pub file: String,
}

/// The file a line belongs to, as plain values: repository id and label,
/// relative path, file name and language.
pub struct LineSource {
    pub repo_id: String,
    pub repo_label: String,
    pub relative_path: String,
    pub file_name: String,
    pub language: Option<String>,
}

/// The language a file is indexed under: its detected language, else `text`.
pub open spec fn indexed_language(language: Option<String>) -> Seq<char> {
    match language {
        Some(l) => l@,
        None => "text"@,
    }
}

/// `d` is line `i` (counted from zero) of `text` in the file `src`: raw values
/// as they are, the language lowercased, the line, path and file name
/// normalized for search, numbered from one, with its sort key.
pub open spec fn line_document(d: IndexedLine, src: LineSource, text: Seq<char>, i: int) -> bool {
    &&& d.repo@ == src.repo_id@
    &&& d.repo_label@ == src.repo_label@
    &&& d.path_raw@ == src.relative_path@
    &&& d.file_raw@ == src.file_name@
    &&& d.language_raw@ == indexed_language(src.language)
    &&& d.language@ == lower_seq(indexed_language(src.language))
    &&& d.line_number == i + 1
    &&& d.sort_key@ == sort_key_spec(src.repo_id@, src.relative_path@, (i + 1) as u64)
    &&& d.text_raw@ == lines(text)[i]
    &&& d.content@ == searchable(lines(text)[i])
    &&& d.path@ == searchable(src.relative_path@)
    &&& d.file@ == searchable(src.file_name@)
}

/// The index documents of a text file: one per line of `text`, in order.
pub fn line_documents(src: &LineSource, text: &str) -> (r: Vec<IndexedLine>)
    ensures
        r@.len() == lines(text@).len(),
        forall|i: int| 0 <= i < r@.len() ==> line_document(#[trigger] r@[i], *src, text@, i),
{
    let language_raw = match &src.language {
        Some(l) => l.clone(),
        None => "text".to_owned(),
    };
    let language = to_ascii_lowercase(language_raw.as_str());
    let path = normalize_searchable_text(src.relative_path.as_str());
    let file = normalize_searchable_text(src.file_name.as_str());
    let all = lines_of(text);
    let mut r: Vec<IndexedLine> = Vec::new();
    let mut i: usize = 0;
    while i < all.len()
        invariant
            i <= all@.len(),
            strs_view(all@) == lines(text@),
            r@.len() == i,
            language_raw@ == indexed_language(src.language),
            language@ == lower_seq(indexed_language(src.language)),
            path@ == searchable(src.relative_path@),
            file@ == searchable(src.file_name@),
            forall|k: int| 0 <= k < i ==> line_document(#[trigger] r@[k], *src, text@, k),
        decreases all.len() - i,
    {
        let line = &all[i];
        assert(line@ == lines(text@)[i as int]);
        let number: u64 = (i as u64) + 1;
        r.push(
            IndexedLine {
                repo: src.repo_id.clone(),
                repo_label: src.repo_label.clone(),
                path_raw: src.relative_path.clone(),
                file_raw: src.file_name.clone(),
                language_raw: language_raw.clone(),
                language: language.clone(),
                line_number: number,
                sort_key: sort_key(src.repo_id.as_str(), src.relative_path.as_str(), number),
                text_raw: line.clone(),
                content: normalize_searchable_text(line.as_str()),
                path: path.clone(),
                file: file.clone(),
            },
        );
        i += 1;
    }
    r
}

/// The number of entries whose lines go into the index.
pub open spec fn indexed_count(es: Seq<ManifestEntry>, dirty: Option<Seq<Seq<char>>>) -> nat
    decreases es.len(),
{
    if es.len() == 0 {
        0
    } else {
        indexed_count(es.drop_last(), dirty) + if indexed_spec(es.last().status, es.last().repo_id@, dirty) { 1nat } else { 0nat }
    }
}

proof fn lemma_indexed_count_bound(es: Seq<ManifestEntry>, dirty: Option<Seq<Seq<char>>>)
    ensures
        indexed_count(es, dirty) <= es.len(),
    decreases es.len(),
{
    if es.len() > 0 {
        lemma_indexed_count_bound(es.drop_last(), dirty);
    }
}

/// The number of files whose lines go into the index (see [`indexed_count`]).
pub fn indexed_files_total(entries: &Vec<ManifestEntry>, dirty: Option<&Vec<String>>) -> (r: usize)
    ensures
        r == indexed_count(entries@, match dirty { Some(d) => Some(strs_view(d@)), None => None }),
{
    let ghost dv = match dirty { Some(d) => Some(strs_view(d@)), None => None };
    let mut n: usize = 0;
    let mut i: usize = 0;
    assert(entries@.take(0) =~= Seq::<ManifestEntry>::empty());
    while i < entries.len()
        invariant
            i <= entries@.len(),
            dv == match dirty { Some(d) => Some(strs_view(d@)), None => None },
            n == indexed_count(entries@.take(i as int), dv),
        decreases entries.len() - i,
    {
        assert(entries@.take(i + 1).drop_last() =~= entries@.take(i as int));
        proof {
            lemma_indexed_count_bound(entries@.take(i as int), dv);
        }
        if is_indexed(entries[i].status, entries[i].repo_id.as_str(), dirty) {
            n = n + 1;
        }
        i += 1;
    }
    assert(entries@.take(entries@.len() as int) =~= entries@);
    n
}

/// A repository the search serves files of.
pub struct RepositoryEntry {
    pub id: String,
    pub label: String,
    pub root: String,
    pub canonical_root: String,
}

/// Why a file of a repository is not served.
pub enum FileAccessError {
    /// No repository has the id.
    UnknownRepository(String),
    /// The file path is absolute.
    AbsolutePath,
    /// The file, its links followed, lies outside its repository.
    EscapesRoot,
}

impl FileAccessError {
    /// The error's message.
    pub fn message(&self) -> (m: String)
        ensures
            match self {
                FileAccessError::UnknownRepository(id) => m@ == "unknown repository `"@ + id@ + "`"@,
                FileAccessError::AbsolutePath => m@ == "file path must be repo-relative"@,
                FileAccessError::EscapesRoot => m@ == "file path escapes repository root"@,
            },
    {
        match self {
            FileAccessError::UnknownRepository(id) => {
                let mut m = "unknown repository `".to_owned();
                push_str(&mut m, id.as_str());
                push_str(&mut m, "`");
                m
            },
            FileAccessError::AbsolutePath => "file path must be repo-relative".to_owned(),
            FileAccessError::EscapesRoot => "file path escapes repository root".to_owned(),
        }
    }
}

/// The first repository with the id.
pub open spec fn repo_position(repos: Seq<RepositoryEntry>, id: Seq<char>) -> Option<int>
    decreases repos.len(),
{
    if repos.len() == 0 {
        None
    } else if repos[0].id@ == id {
        Some(0)
    } else {
        match repo_position(repos.drop_first(), id) {
            Some(i) => Some(i + 1),
            None => None,
        }
    }
}

/// Where a requested file is looked for: the index of the first repository
/// with the id, and the path under its root; refused for an unknown
/// repository or an absolute path.
pub fn resolve_file_request(repos: &Vec<RepositoryEntry>, repo_id: &str, relative_path: &str) -> (r: Result<(usize, String), FileAccessError>)
    ensures
        match r {
            Ok((i, p)) => i < repos@.len() && repo_position(repos@, repo_id@) == Some(i as int)
                && !camino_is_absolute(relative_path@) && p@ == camino_join(repos@[i as int].root@, relative_path@),
            Err(FileAccessError::UnknownRepository(id)) => repo_position(repos@, repo_id@) is None && id@ == repo_id@,
            Err(FileAccessError::AbsolutePath) => repo_position(repos@, repo_id@) is Some && camino_is_absolute(relative_path@),
            Err(FileAccessError::EscapesRoot) => false,
        },
{
    let mut k: usize = 0;
    assert(repos@.skip(0) =~= repos@);
    while k < repos.len()
        invariant
            k <= repos@.len(),
            repo_position(repos@, repo_id@) == match repo_position(repos@.skip(k as int), repo_id@) {
                Some(i) => Some(i + k),
                None => None::<int>,
            },
        decreases repos.len() - k,
    {
        assert(repos@.skip(k as int)[0] == repos@[k as int]);
        assert(repos@.skip(k as int).drop_first() =~= repos@.skip(k + 1));
        if str_eq(repos[k].id.as_str(), repo_id) {
            if path_is_absolute(relative_path) {
                return Err(FileAccessError::AbsolutePath);
            }
            return Ok((k, path_join(repos[k].root.as_str(), relative_path)));
        }
        k += 1;
    }
    assert(repos@.skip(repos@.len() as int) =~= Seq::<RepositoryEntry>::empty());
    Err(FileAccessError::UnknownRepository(repo_id.to_owned()))
}

/// Serves a file only where its real path, links followed, lies under the
/// real root of its repository.
pub fn check_within_root(canonical_path: &str, canonical_root: &str) -> (r: Result<(), FileAccessError>)
    ensures
        r is Ok <==> camino_starts_with(canonical_path@, canonical_root@),
        r matches Err(e) ==> e is EscapesRoot,
{
    if path_starts_with(canonical_path, canonical_root) {
        Ok(())
    } else {
        Err(FileAccessError::EscapesRoot)
    }
}

/// The largest file the viewer highlights, in bytes.
pub const MAX_HIGHLIGHT_FILE_BYTES: u64 = 262144;

/// The view of a file: its line count (at least one); past the highlighting
/// limit the plain text, marked truncated; otherwise the highlighted markup
/// where there is one, else the plain text.
pub fn file_view_of(
    repo: &RepositoryEntry,
    requested_path: &str,
    text: String,
    size: u64,
    language: Option<String>,
    highlighted: Option<String>,
) -> (v: FileView)
    ensures
        v.repo@ == repo.id@,
        v.repo_label@ == repo.label@,
        v.path@ == requested_path@,
        v.language == language,
        v.line_count == if lines(text@).len() > 0 { lines(text@).len() } else { 1 },
        size > MAX_HIGHLIGHT_FILE_BYTES ==> v.truncated && v.highlighted_html is None && v.plain_text == Some(text),
        size <= MAX_HIGHLIGHT_FILE_BYTES ==> !v.truncated && v.highlighted_html == highlighted
            && v.plain_text == (if highlighted is None { Some(text) } else { None }),
{
    let count = lines_of(text.as_str()).len();
    let line_count = if count > 0 { count } else { 1 };
    if size > MAX_HIGHLIGHT_FILE_BYTES {
        return FileView {
            repo: repo.id.clone(),
            repo_label: repo.label.clone(),
            path: requested_path.to_owned(),
            language,
            line_count,
            highlighted_html: None,
            plain_text: Some(text),
            truncated: true,
        };
    }
    let plain_text = if highlighted.is_none() { Some(text) } else { None };
    FileView {
        repo: repo.id.clone(),
        repo_label: repo.label.clone(),
        path: requested_path.to_owned(),
        language,
        line_count,
        highlighted_html: highlighted,
        plain_text,
        truncated: false,
    }
}

} // verus!
