//! Where a repository lives in the workspace: the checkout path a remote maps
//! to, the remote a checkout path maps back to, and the decisions around
//! cloning into and removing from the workspace.
use crate::paths::{
    is_rooted, lemma_named_pieces_all, lemma_named_pieces_concat, lemma_split_concat, lemma_split_join,
    lemma_split_whole, named_piece, named_pieces, camino_components, camino_file_name, camino_is_absolute, camino_join, camino_parent,
    camino_starts_with, path_components, path_file_name, path_is_absolute,
    path_join, path_parent,
    path_starts_with, path_strip_prefix, paths_equal,
};
use crate::registry::{ProjectRecord, SourceKind};
use crate::remote::{
    find_dot_segment, first_dot_segment, last_segment, non_empty_parts, non_empty_segments,
    parse_remote, parse_remote_spec, remote_error_message, spec_result_view, RemoteError,
    RemoteErrorView, RemoteSpec,
};
use crate::text::{join, join_strings, push_str, split_on, strs_view, trim, trim_string};
use vstd::prelude::*;

verus! {

/// Why a workspace path could not be worked out or acted on.
pub enum WorkspaceError {
    /// The path does not lie under the workspace root.
    NotInside { path: String, root: String },
    /// The path is the workspace root itself.
    NoRepoPath(String),
    /// A remove target was blank.
    EmptyTarget,
    /// A workspace-relative target had fewer than two segments.
    TargetShape,
    /// A workspace-relative target had a `.` or `..` segment.
    InvalidSegment(String),
    /// The destination of a clone exists and overwriting was not asked for.
    AlreadyExists(String),
    /// The destination of a clone has no parent directory.
    NoParent(String),
    /// The repository to remove does not exist.
    DoesNotExist(String),
    /// The repository to remove is the workspace root.
    RefuseRoot(String),
    /// An imported directory has no final component to name it by.
    NoBasename(String),
    /// A repository's origin remote could not be parsed.
    Remote(RemoteError),
}

/// A workspace error as plain values.
pub enum WorkspaceErrorView {
    NotInside { path: Seq<char>, root: Seq<char> },
    NoRepoPath(Seq<char>),
    EmptyTarget,
    TargetShape,
    InvalidSegment(Seq<char>),
    AlreadyExists(Seq<char>),
    NoParent(Seq<char>),
    DoesNotExist(Seq<char>),
    RefuseRoot(Seq<char>),
    NoBasename(Seq<char>),
    Remote(RemoteErrorView),
}

impl WorkspaceError {
    pub open spec fn view(&self) -> WorkspaceErrorView {
        match self {
            WorkspaceError::NotInside { path, root } => WorkspaceErrorView::NotInside { path: path@, root: root@ },
            WorkspaceError::NoRepoPath(p) => WorkspaceErrorView::NoRepoPath(p@),
            WorkspaceError::EmptyTarget => WorkspaceErrorView::EmptyTarget,
            WorkspaceError::TargetShape => WorkspaceErrorView::TargetShape,
            WorkspaceError::InvalidSegment(s) => WorkspaceErrorView::InvalidSegment(s@),
            WorkspaceError::AlreadyExists(p) => WorkspaceErrorView::AlreadyExists(p@),
            WorkspaceError::NoParent(p) => WorkspaceErrorView::NoParent(p@),
            WorkspaceError::DoesNotExist(p) => WorkspaceErrorView::DoesNotExist(p@),
            WorkspaceError::RefuseRoot(p) => WorkspaceErrorView::RefuseRoot(p@),
            WorkspaceError::NoBasename(p) => WorkspaceErrorView::NoBasename(p@),
            WorkspaceError::Remote(e) => WorkspaceErrorView::Remote(e@),
        }
    }

    /// The error's message.
    pub fn message(&self) -> (m: String)
        ensures
            m@ == workspace_error_message(self@),
    {
        match self {
            WorkspaceError::NotInside { path, root } => {
                let mut m = path.clone();
                push_str(&mut m, " is not inside ");
                push_str(&mut m, root.as_str());
                m
            },
            WorkspaceError::NoRepoPath(p) => {
                let mut m = "failed to derive a repo path for ".to_owned();
                push_str(&mut m, p.as_str());
                m
            },
            WorkspaceError::EmptyTarget => "repo remove target must not be empty".to_owned(),
            WorkspaceError::TargetShape => "workspace repo targets must look like <host>/<repo-path>".to_owned(),
            WorkspaceError::InvalidSegment(s) => {
                let mut m = "workspace repo target contains an invalid segment: ".to_owned();
                push_str(&mut m, s.as_str());
                m
            },
            WorkspaceError::AlreadyExists(p) => {
                let mut m = p.clone();
                push_str(&mut m, " already exists; rerun with --force to overwrite");
                m
            },
            WorkspaceError::NoParent(p) => {
                let mut m = "failed to determine clone destination for ".to_owned();
                push_str(&mut m, p.as_str());
                m
            },
            WorkspaceError::DoesNotExist(p) => {
                let mut m = p.clone();
                push_str(&mut m, " does not exist");
                m
            },
            WorkspaceError::RefuseRoot(p) => {
                let mut m = "refusing to remove workspace root ".to_owned();
                push_str(&mut m, p.as_str());
                m
            },
            WorkspaceError::NoBasename(p) => {
                let mut m = p.clone();
                push_str(&mut m, " does not have a valid basename");
                m
            },
            WorkspaceError::Remote(e) => e.message(),
        }
    }
}

pub open spec fn workspace_error_message(e: WorkspaceErrorView) -> Seq<char> {
    match e {
        WorkspaceErrorView::NotInside { path, root } => path + " is not inside "@ + root,
        WorkspaceErrorView::NoRepoPath(p) => "failed to derive a repo path for "@ + p,
        WorkspaceErrorView::EmptyTarget => "repo remove target must not be empty"@,
        WorkspaceErrorView::TargetShape => "workspace repo targets must look like <host>/<repo-path>"@,
        WorkspaceErrorView::InvalidSegment(s) => "workspace repo target contains an invalid segment: "@ + s,
        WorkspaceErrorView::AlreadyExists(p) => p + " already exists; rerun with --force to overwrite"@,
        WorkspaceErrorView::NoParent(p) => "failed to determine clone destination for "@ + p,
        WorkspaceErrorView::DoesNotExist(p) => p + " does not exist"@,
        WorkspaceErrorView::RefuseRoot(p) => "refusing to remove workspace root "@ + p,
        WorkspaceErrorView::NoBasename(p) => p + " does not have a valid basename"@,
        WorkspaceErrorView::Remote(e) => remote_error_message(e),
    }
}

/// The checkout path of a remote: the host, then the whole repository path,
/// under the workspace root.
pub open spec fn destination_spec(root: Seq<char>, host: Seq<char>, repo_path: Seq<char>) -> Seq<char> {
    camino_join(camino_join(root, host), repo_path)
}

/// The checkout path of `spec` under `workspace_root` (see [`destination_spec`]).
pub fn destination_for(workspace_root: &str, spec: &RemoteSpec) -> (r: String)
    ensures
        r@ == destination_spec(workspace_root@, spec.host@, spec.repo_path@),
{
    let with_host = path_join(workspace_root, spec.host.as_str());
    path_join(with_host.as_str(), spec.repo_path.as_str())
}

/// A host and repository path from a list of segments: a single segment is a
/// repository on the `local` host; otherwise the first segment is the host and
/// the rest, joined with `/`, the repository path.
pub open spec fn spec_from_segments(segs: Seq<Seq<char>>) -> (Seq<char>, Seq<char>) {
    if segs.len() == 1 {
        ("local"@, segs[0])
    } else {
        (segs[0], join(segs.drop_first(), "/"@))
    }
}

pub open spec fn workspace_result_view(r: Result<RemoteSpec, WorkspaceError>) -> Result<(Seq<char>, Seq<char>), WorkspaceErrorView> {
    match r {
        Ok(s) => Ok((s.host@, s.repo_path@)),
        Err(e) => Err(e@),
    }
}

/// The remote a checkout path stands for, read from its place under the
/// workspace root: refused outside the root and for the root itself.
pub open spec fn relative_spec_spec(root: Seq<char>, repo: Seq<char>) -> Result<(Seq<char>, Seq<char>), WorkspaceErrorView> {
    if !camino_starts_with(repo, root) {
        Err(WorkspaceErrorView::NotInside { path: repo, root })
    } else {
        let segs = components_below(repo, root);
        if segs.len() == 0 {
            Err(WorkspaceErrorView::NoRepoPath(repo))
        } else {
            Ok(spec_from_segments(segs))
        }
    }
}

/// The components of `path` after those of `root`.
pub open spec fn components_below(path: Seq<char>, root: Seq<char>) -> Seq<Seq<char>> {
    camino_components(path).skip(camino_components(root).len() as int)
}

/// Pieces joined with `/` begin with the first piece.
proof fn lemma_join_starts_with_first(pieces: Seq<Seq<char>>)
    requires
        pieces.len() >= 1,
    ensures
        pieces[0].len() <= join(pieces, "/"@).len(),
        join(pieces, "/"@).subrange(0, pieces[0].len() as int) == pieces[0],
    decreases pieces.len(),
{
    if pieces.len() > 1 {
        let init = pieces.drop_last();
        lemma_join_starts_with_first(init);
        assert(init[0] == pieces[0]);
        let j = join(init, "/"@);
        assert((j + "/"@ + pieces.last()).subrange(0, pieces[0].len() as int) =~= j.subrange(
            0,
            pieces[0].len() as int,
        ));
    }
}

/// The components of a checkout path: those of the root, the host, then the
/// pieces of the repository path.
proof fn lemma_destination_components(root: Seq<char>, host: Seq<char>, pieces: Seq<Seq<char>>)
    requires
        is_rooted(root),
        named_piece(host),
        !host.contains('/'),
        pieces.len() >= 1,
        forall|i: int| 0 <= i < pieces.len() ==> named_piece(#[trigger] pieces[i]) && !pieces[i].contains('/'),
    ensures
        camino_components(destination_spec(root, host, join(pieces, "/"@))) == camino_components(root) + seq![host]
            + pieces,
{
    reveal(camino_components);
    let path = join(pieces, "/"@);
    lemma_join_starts_with_first(pieces);
    assert(path[0] == pieces[0][0]) by {
        assert(path.subrange(0, pieces[0].len() as int)[0] == path[0]);
    }
    assert(!is_rooted(path)) by {
        assert(named_piece(pieces[0]));
        if pieces[0][0] == '/' {
            assert(pieces[0].contains('/'));
        }
    }
    assert(!is_rooted(host)) by {
        if host[0] == '/' {
            assert(host.contains('/'));
        }
    }
    let h = camino_join(root, host);
    let d = camino_join(h, path);
    assert(h.last() == host.last());
    assert(h.last() != '/') by {
        if host.last() == '/' {
            assert(host[host.len() - 1] == '/');
        }
    }
    assert(d == h + seq!['/'] + path);
    assert(d[0] == '/');
    lemma_split_concat(h, path, '/');
    assert forall|i: int| 0 <= i < pieces.len() implies !(#[trigger] pieces[i]).contains('/') by {}
    lemma_split_join(pieces);
    lemma_split_whole(host, '/');
    lemma_named_pieces_all(pieces);
    lemma_named_pieces_concat(split_on(h, '/'), pieces);
    if root.last() == '/' {
        let r = root.drop_last();
        assert(root =~= r + seq!['/'] + Seq::<char>::empty());
        assert(h =~= r + seq!['/'] + host);
        lemma_split_concat(r, host, '/');
        lemma_split_concat(r, Seq::<char>::empty(), '/');
        lemma_named_pieces_concat(split_on(r, '/'), seq![host]);
        lemma_named_pieces_concat(split_on(r, '/'), split_on(Seq::<char>::empty(), '/'));
        assert(named_pieces(seq![Seq::<char>::empty()]) =~= Seq::<Seq<char>>::empty()) by {
            assert(seq![Seq::<char>::empty()].drop_last() =~= Seq::<Seq<char>>::empty());
            assert(seq![Seq::<char>::empty()].last() == Seq::<char>::empty());
            assert(named_pieces(Seq::<Seq<char>>::empty()) == Seq::<Seq<char>>::empty());
        }
        assert(named_pieces(seq![host]) =~= seq![host]) by {
            assert(seq![host].drop_last() =~= Seq::<Seq<char>>::empty());
            assert(seq![host].last() == host);
            assert(named_pieces(Seq::<Seq<char>>::empty()) == Seq::<Seq<char>>::empty());
            assert(Seq::<Seq<char>>::empty().push(host) =~= seq![host]);
        }
    } else {
        assert(h == root + seq!['/'] + host);
        lemma_split_concat(root, host, '/');
        lemma_named_pieces_concat(split_on(root, '/'), seq![host]);
        assert(named_pieces(seq![host]) =~= seq![host]) by {
            assert(seq![host].drop_last() =~= Seq::<Seq<char>>::empty());
            assert(seq![host].last() == host);
            assert(named_pieces(Seq::<Seq<char>>::empty()) == Seq::<Seq<char>>::empty());
            assert(Seq::<Seq<char>>::empty().push(host) =~= seq![host]);
        }
    }
    assert(camino_components(d) =~= camino_components(root) + seq![host] + pieces);
}

/// The workspace layout reads back: for an absolute workspace root, a host that
/// is one name (not empty, not `.`, without `/`) and a repository path of one or
/// more such names joined with `/`, the remote read off the checkout path is the
/// remote it was made from.
pub proof fn law_layout_round_trip(root: Seq<char>, host: Seq<char>, pieces: Seq<Seq<char>>)
    requires
        is_rooted(root),
        named_piece(host),
        !host.contains('/'),
        pieces.len() >= 1,
        forall|i: int| 0 <= i < pieces.len() ==> named_piece(#[trigger] pieces[i]) && !pieces[i].contains('/'),
    ensures
        relative_spec_spec(root, destination_spec(root, host, join(pieces, "/"@))) == Ok::<
            (Seq<char>, Seq<char>),
            WorkspaceErrorView,
        >((host, join(pieces, "/"@))),
{
    lemma_destination_components(root, host, pieces);
    let d = destination_spec(root, host, join(pieces, "/"@));
    let rc = camino_components(root);
    assert(rc.is_prefix_of(camino_components(d))) by {
        assert(camino_components(d).subrange(0, rc.len() as int) =~= rc);
    }
    let segs = components_below(d, root);
    assert(segs =~= seq![host] + pieces);
    assert(segs.drop_first() =~= pieces);
}

/// All but the first of a non-empty list of strings.
fn tail_strings(v: &Vec<String>) -> (r: Vec<String>)
    requires
        v@.len() >= 1,
    ensures
        strs_view(r@) == strs_view(v@).drop_first(),
{
    let mut r: Vec<String> = Vec::new();
    let mut i: usize = 1;
    assert(strs_view(r@) =~= strs_view(v@).subrange(1, 1));
    while i < v.len()
        invariant
            1 <= i <= v@.len(),
            strs_view(r@) == strs_view(v@).subrange(1, i as int),
        decreases v.len() - i,
    {
        let ghost before = r@;
        r.push(v[i].clone());
        assert(strs_view(r@) =~= strs_view(before).push(v@[i as int]@));
        assert(strs_view(r@) =~= strs_view(v@).subrange(1, i + 1));
        i += 1;
    }
    assert(strs_view(v@).subrange(1, v@.len() as int) =~= strs_view(v@).drop_first());
    r
}

/// A [`RemoteSpec`] from a non-empty list of segments (see [`spec_from_segments`]).
fn spec_of_segments(segs: &Vec<String>) -> (r: RemoteSpec)
    requires
        segs@.len() >= 1,
    ensures
        (r.host@, r.repo_path@) == spec_from_segments(strs_view(segs@)),
{
    if segs.len() == 1 {
        return RemoteSpec { host: "local".to_owned(), repo_path: segs[0].clone() };
    }
    let rest = tail_strings(segs);
    RemoteSpec { host: segs[0].clone(), repo_path: join_strings(&rest, "/") }
}

/// The remote a checkout path under the workspace root stands for (see
/// [`relative_spec_spec`]).
pub fn relative_spec(workspace_root: &str, repo_path: &str) -> (r: Result<RemoteSpec, WorkspaceError>)
    ensures
        workspace_result_view(r) == relative_spec_spec(workspace_root@, repo_path@),
{
    let relative = match path_strip_prefix(repo_path, workspace_root) {
        Some(rel) => rel,
        None => {
            return Err(WorkspaceError::NotInside { path: repo_path.to_owned(), root: workspace_root.to_owned() });
        },
    };
    let segments = path_components(relative.as_str());
    assert(strs_view(segments@) == camino_components(relative@));
    if segments.len() == 0 {
        return Err(WorkspaceError::NoRepoPath(repo_path.to_owned()));
    }
    Ok(spec_of_segments(&segments))
}

/// A remove target written as `<host>/<repo-path>` relative to the workspace:
/// its non-empty `/`-separated segments, of which there must be two or more,
/// none `.` or `..`.
pub open spec fn workspace_relative_spec(target: Seq<char>) -> Result<(Seq<char>, Seq<char>), WorkspaceErrorView> {
    let segs = non_empty_segments(split_on(trim(target), '/'));
    if segs.len() < 2 {
        Err(WorkspaceErrorView::TargetShape)
    } else {
        match first_dot_segment(segs) {
            Some(s) => Err(WorkspaceErrorView::InvalidSegment(s)),
            None => Ok(spec_from_segments(segs)),
        }
    }
}

/// Parses a workspace-relative remove target (see [`workspace_relative_spec`]).
pub fn parse_workspace_relative_spec(target: &str) -> (r: Result<RemoteSpec, WorkspaceError>)
    ensures
        workspace_result_view(r) == workspace_relative_spec(target@),
{
    let trimmed = trim_string(target);
    let segments = non_empty_parts(trimmed.as_str());
    if segments.len() < 2 {
        return Err(WorkspaceError::TargetShape);
    }
    match find_dot_segment(&segments) {
        Some(s) => Err(WorkspaceError::InvalidSegment(s)),
        None => Ok(spec_of_segments(&segments)),
    }
}

pub open spec fn path_result_view(r: Result<String, WorkspaceError>) -> Result<Seq<char>, WorkspaceErrorView> {
    match r {
        Ok(s) => Ok(s@),
        Err(e) => Err(e@),
    }
}

/// The checkout path a remove target names: a remote maps to its checkout
/// path; an absolute path is taken as it is once it is known to lie under the
/// workspace; anything else must be a workspace-relative `<host>/<repo-path>`.
pub open spec fn remove_destination_spec(root: Seq<char>, target: Seq<char>) -> Result<Seq<char>, WorkspaceErrorView> {
    let t = trim(target);
    if t.len() == 0 {
        Err(WorkspaceErrorView::EmptyTarget)
    } else {
        match parse_remote_spec(t) {
            Ok((host, repo_path)) => Ok(destination_spec(root, host, repo_path)),
            Err(_) => if camino_is_absolute(t) {
                match relative_spec_spec(root, t) {
                    Ok(_) => Ok(t),
                    Err(e) => Err(e),
                }
            } else {
                match workspace_relative_spec(t) {
                    Ok((host, repo_path)) => Ok(destination_spec(root, host, repo_path)),
                    Err(e) => Err(e),
                }
            },
        }
    }
}

/// The checkout path a remove target names (see [`remove_destination_spec`]).
pub fn resolve_repo_remove_target(workspace_root: &str, target: &str) -> (r: Result<String, WorkspaceError>)
    ensures
        path_result_view(r) == remove_destination_spec(workspace_root@, target@),
{
    let target = trim_string(target);
    if target.as_str().is_empty() {
        return Err(WorkspaceError::EmptyTarget);
    }
    let parsed = parse_remote(target.as_str());
    if let Ok(spec) = parsed {
        assert(spec_result_view(parsed) is Ok);
        return Ok(destination_for(workspace_root, &spec));
    }
    if path_is_absolute(target.as_str()) {
        return match relative_spec(workspace_root, target.as_str()) {
            Ok(_) => Ok(target),
            Err(e) => Err(e),
        };
    }
    match parse_workspace_relative_spec(target.as_str()) {
        Ok(spec) => Ok(destination_for(workspace_root, &spec)),
        Err(e) => Err(e),
    }
}

/// What is done with an existing clone destination: refused unless
/// overwriting was asked for; removed first when it was.
pub open spec fn clone_conflict_spec(destination: Seq<char>, exists: bool, force: bool) -> Result<bool, WorkspaceErrorView> {
    if exists && !force {
        Err(WorkspaceErrorView::AlreadyExists(destination))
    } else {
        Ok(exists)
    }
}

/// Decides what to do with the clone destination: `Ok(true)` when it exists
/// and is to be removed first, `Ok(false)` when it does not exist (see
/// [`clone_conflict_spec`]).
pub fn clone_destination_conflict(destination: &str, exists: bool, force: bool) -> (r: Result<bool, WorkspaceError>)
    ensures
        match r {
            Ok(b) => clone_conflict_spec(destination@, exists, force) == Ok::<bool, WorkspaceErrorView>(b),
            Err(e) => clone_conflict_spec(destination@, exists, force) == Err::<bool, WorkspaceErrorView>(e@),
        },
{
    if exists && !force {
        return Err(WorkspaceError::AlreadyExists(destination.to_owned()));
    }
    Ok(exists)
}

/// The directory a clone destination is created in: its parent, or an error
/// where it has none.
pub fn clone_parent(destination: &str) -> (r: Result<String, WorkspaceError>)
    ensures
        match camino_parent(destination@) {
            Some(p) => path_result_view(r) == Ok::<Seq<char>, WorkspaceErrorView>(p),
            None => path_result_view(r) == Err::<Seq<char>, WorkspaceErrorView>(WorkspaceErrorView::NoParent(destination@)),
        },
{
    match path_parent(destination) {
        Some(p) => Ok(p),
        None => Err(WorkspaceError::NoParent(destination.to_owned())),
    }
}

/// A repository may be removed when it exists and is not the workspace root.
pub open spec fn removal_check_spec(root: Seq<char>, destination: Seq<char>, exists: bool) -> Result<(), WorkspaceErrorView> {
    if !exists {
        Err(WorkspaceErrorView::DoesNotExist(destination))
    } else if camino_components(destination) == camino_components(root) {
        Err(WorkspaceErrorView::RefuseRoot(root))
    } else {
        Ok(())
    }
}

/// Checks that `destination` may be removed (see [`removal_check_spec`]).
pub fn check_removal(workspace_root: &str, destination: &str, exists: bool) -> (r: Result<(), WorkspaceError>)
    ensures
        match r {
            Ok(()) => removal_check_spec(workspace_root@, destination@, exists) is Ok,
            Err(e) => removal_check_spec(workspace_root@, destination@, exists) == Err::<(), WorkspaceErrorView>(e@),
        },
{
    if !exists {
        return Err(WorkspaceError::DoesNotExist(destination.to_owned()));
    }
    if paths_equal(destination, workspace_root) {
        return Err(WorkspaceError::RefuseRoot(workspace_root.to_owned()));
    }
    Ok(())
}

/// One step of pruning the directories left empty above a removed repository.
pub enum PruneStep {
    /// Stop: the workspace root, or the top of the path, was reached.
    Done,
    /// The directory lies outside the workspace root.
    Refuse(WorkspaceError),
    /// Remove this directory if it is empty, then go on with its parent.
    Check(String),
}

/// The step taken for the directory `parent` above a removed repository.
pub open spec fn prune_step_spec(root: Seq<char>, parent: Option<Seq<char>>) -> Option<Result<Seq<char>, WorkspaceErrorView>> {
    match parent {
        None => None,
        Some(p) => if camino_components(p) == camino_components(root) {
            None
        } else if !camino_starts_with(p, root) {
            Some(Err(WorkspaceErrorView::NotInside { path: p, root }))
        } else {
            Some(Ok(p))
        },
    }
}

pub open spec fn prune_view(s: PruneStep) -> Option<Result<Seq<char>, WorkspaceErrorView>> {
    match s {
        PruneStep::Done => None,
        PruneStep::Refuse(e) => Some(Err(e@)),
        PruneStep::Check(p) => Some(Ok(p@)),
    }
}

/// Pruning stays inside the workspace: a directory it goes on to check lies
/// strictly below the root, its components the root's and at least one more.
pub proof fn law_prune_stays_below_root(root: Seq<char>, p: Seq<char>)
    requires
        prune_step_spec(root, Some(p)) is Some,
        prune_step_spec(root, Some(p))->0 is Ok,
    ensures
        prune_step_spec(root, Some(p)) == Some(Ok::<Seq<char>, WorkspaceErrorView>(p)),
        camino_components(root).is_prefix_of(camino_components(p)),
        camino_components(p).len() > camino_components(root).len(),
{
    let rc = camino_components(root);
    let pc = camino_components(p);
    if pc.len() == rc.len() {
        assert(pc =~= rc) by {
            assert(pc.subrange(0, rc.len() as int) =~= pc);
        }
    }
}

/// Decides the next pruning step for `parent`, the directory above the last
/// one looked at (see [`prune_step_spec`]).
pub fn prune_step(workspace_root: &str, parent: Option<&str>) -> (r: PruneStep)
    ensures
        prune_view(r) == prune_step_spec(workspace_root@, match parent { Some(p) => Some(p@), None => None }),
{
    match parent {
        None => PruneStep::Done,
        Some(p) => {
            if paths_equal(p, workspace_root) {
                PruneStep::Done
            } else if !path_starts_with(p, workspace_root) {
                PruneStep::Refuse(WorkspaceError::NotInside { path: p.to_owned(), root: workspace_root.to_owned() })
            } else {
                PruneStep::Check(p.to_owned())
            }
        },
    }
}

/// The current time, `time::OffsetDateTime::now_utc`. Nothing is stated of it:
/// it is the clock's reading.
#[verifier::external_body]
fn now_utc() -> time::OffsetDateTime {
    time::OffsetDateTime::now_utc()
}

/// The registry record of a repository found at `destination`: named after
/// the last segment of its repository path, seen now.
pub fn record_from_spec(spec: RemoteSpec, destination: String, origin: String, source_kind: SourceKind) -> (r: ProjectRecord)
    ensures
        r.name@ == last_segment(spec.repo_path@),
        r.host@ == spec.host@,
        r.repo_path@ == spec.repo_path@,
        r.path@ == destination@,
        r.origin@ == origin@,
        r.source_kind == source_kind,
{
    let name = spec.name();
    ProjectRecord {
        name,
        host: spec.host,
        repo_path: spec.repo_path,
        path: destination,
        origin,
        source_kind,
        last_seen: now_utc(),
    }
}

/// The remote an imported directory is filed under: its origin where it has
/// one; else a `local` repository named after the directory.
pub open spec fn import_spec_spec(origin: Option<Seq<char>>, source: Seq<char>) -> Result<(Seq<char>, Seq<char>), WorkspaceErrorView> {
    match origin {
        Some(remote) => match parse_remote_spec(remote) {
            Ok(spec) => Ok(spec),
            Err(e) => Err(WorkspaceErrorView::Remote(e)),
        },
        None => match camino_file_name(source) {
            Some(name) => Ok(("local"@, name)),
            None => Err(WorkspaceErrorView::NoBasename(source)),
        },
    }
}

/// The remote an imported directory is filed under (see [`import_spec_spec`]).
pub fn import_spec(origin: Option<&str>, source: &str) -> (r: Result<RemoteSpec, WorkspaceError>)
    ensures
        workspace_result_view(r) == import_spec_spec(match origin { Some(o) => Some(o@), None => None }, source@),
{
    match origin {
        Some(remote) => match parse_remote(remote) {
            Ok(spec) => Ok(spec),
            Err(e) => Err(WorkspaceError::Remote(e)),
        },
        None => match path_file_name(source) {
            Some(name) => Ok(RemoteSpec { host: "local".to_owned(), repo_path: name }),
            None => Err(WorkspaceError::NoBasename(source.to_owned())),
        },
    }
}

/// The remote a repository found by a scan is filed under: its origin where it
/// has one; else what its place under the workspace root says.
pub open spec fn scan_spec_spec(root: Seq<char>, path: Seq<char>, origin: Option<Seq<char>>) -> Result<(Seq<char>, Seq<char>), WorkspaceErrorView> {
    match origin {
        Some(remote) => match parse_remote_spec(remote) {
            Ok(spec) => Ok(spec),
            Err(e) => Err(WorkspaceErrorView::Remote(e)),
        },
        None => relative_spec_spec(root, path),
    }
}

/// The remote a scanned repository is filed under (see [`scan_spec_spec`]).
pub fn scan_spec(workspace_root: &str, path: &str, origin: Option<&str>) -> (r: Result<RemoteSpec, WorkspaceError>)
    ensures
        workspace_result_view(r) == scan_spec_spec(workspace_root@, path@, match origin { Some(o) => Some(o@), None => None }),
{
    match origin {
        Some(remote) => match parse_remote(remote) {
            Ok(spec) => Ok(spec),
            Err(e) => Err(WorkspaceError::Remote(e)),
        },
        None => relative_spec(workspace_root, path),
    }
}

/// How the search names a repository found at `directory` under the
/// repository root: by its host and path (`host/path`), labelled with its last
/// segment; nothing for a directory less than two segments deep; refused
/// outside the root.
pub open spec fn search_identity_spec(root: Seq<char>, directory: Seq<char>) -> Result<Option<(Seq<char>, Seq<char>)>, WorkspaceErrorView> {
    if !camino_starts_with(directory, root) {
        Err(WorkspaceErrorView::NotInside { path: directory, root })
    } else {
        let segs = components_below(directory, root);
        if segs.len() >= 2 {
            Ok(Some((segs[0] + "/"@ + join(segs.drop_first(), "/"@), segs.last())))
        } else {
            Ok(None)
        }
    }
}

/// How the search names a repository (see [`search_identity_spec`]).
pub fn search_identity(repos_root: &str, directory: &str) -> (r: Result<Option<(String, String)>, WorkspaceError>)
    ensures
        match r {
            Ok(Some((id, label))) => search_identity_spec(repos_root@, directory@) == Ok::<Option<(Seq<char>, Seq<char>)>, WorkspaceErrorView>(Some((id@, label@))),
            Ok(None) => search_identity_spec(repos_root@, directory@) == Ok::<Option<(Seq<char>, Seq<char>)>, WorkspaceErrorView>(None),
            Err(e) => search_identity_spec(repos_root@, directory@) == Err::<Option<(Seq<char>, Seq<char>)>, WorkspaceErrorView>(e@),
        },
{
    let relative = match path_strip_prefix(directory, repos_root) {
        Some(rel) => rel,
        None => {
            return Err(WorkspaceError::NotInside { path: directory.to_owned(), root: repos_root.to_owned() });
        },
    };
    let segments = path_components(relative.as_str());
    if segments.len() < 2 {
        return Ok(None);
    }
    let rest = tail_strings(&segments);
    let mut id = segments[0].clone();
    push_str(&mut id, "/");
    push_str(&mut id, join_strings(&rest, "/").as_str());
    let n = segments.len();
    assert(strs_view(segments@)[n - 1] == segments@[n - 1]@);
    Ok(Some((id, segments[n - 1].clone())))
}

} // verus!
