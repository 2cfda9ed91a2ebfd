//! Agent skills: their metadata, the files a skill renders to, and how a sync
//! classifies what it found at a skill's install path.
use crate::paths::{camino_components, lemma_components_lt_irreflexive, path_lt, paths_equal};
use crate::text::{push_str, strs_view};
use vstd::prelude::*;

verus! {

/// The agent a skill is installed for.
#[derive(Debug, Clone, Copy, PartialEq, Eq, Structural)]
pub enum SkillProvider {
    Codex,
    Claude,
}

/// Overrides that apply to one provider.
pub struct ClaudeOverrides {
    pub description: Option<String>,
}

/// Per-provider overrides.
pub struct ProviderOverrides {
    pub claude: ClaudeOverrides,
}

/// The frontmatter of a skill.
pub struct SkillMetadata {
    pub name: String,
    pub description: String,
    pub triggers: Vec<String>,
    pub tags: Vec<String>,
    pub providers: ProviderOverrides,
}

/// What a sync does with a skill.
#[derive(Debug, Clone, Copy, PartialEq, Eq, Structural)]
pub enum SyncAction {
    Create,
    Override,
    Unchanged,
}

pub open spec fn sync_action_name(a: SyncAction) -> Seq<char> {
    match a {
        SyncAction::Create => "create"@,
        SyncAction::Override => "override"@,
        SyncAction::Unchanged => "unchanged"@,
    }
}

impl SyncAction {
    /// The action's name in reports.
    pub fn as_str(self) -> (s: &'static str)
        ensures
            s@ == sync_action_name(self),
    {
        match self {
            SyncAction::Create => "create",
            SyncAction::Override => "override",
            SyncAction::Unchanged => "unchanged",
        }
    }
}

/// What is at an install path.
#[derive(Debug, Clone, Copy, PartialEq, Eq, Structural)]
pub enum ExistingTargetKind {
    Missing,
    Directory,
    NotDirectory,
}

/// How an installed tree differs from the rendered one, by relative path.
pub struct FileDiff {
    pub added: Vec<String>,
    pub changed: Vec<String>,
    pub removed: Vec<String>,
}

impl FileDiff {
    /// Whether nothing differs.
    pub fn is_empty(&self) -> (r: bool)
        ensures
            r == (self.added@.len() == 0 && self.changed@.len() == 0 && self.removed@.len() == 0),
    {
        self.added.len() == 0 && self.changed.len() == 0 && self.removed.len() == 0
    }
}

/// Why an install path needs work.
pub enum SyncReason {
    Missing { diff: FileDiff },
    ContentChanged { diff: FileDiff },
    WrongSymlink { expected: String, actual: String },
    NotSymlink,
    NotDirectory,
}

/// An install path and why it needs work.
pub struct SyncTarget {
    pub path: String,
    pub reasons: Vec<SyncReason>,
}

/// The sync of one skill.
pub struct SyncItem {
    pub slug: String,
    pub action: SyncAction,
    pub targets: Vec<SyncTarget>,
}

/// The sync of all skills.
pub struct SyncReport {
    pub items: Vec<SyncItem>,
}

/// A target whose only reason is that it is missing.
pub open spec fn only_missing(t: SyncTarget) -> bool {
    t.reasons@.len() == 1 && t.reasons@[0] is Missing
}

/// The action for a skill's targets: unchanged when no target needs work,
/// create when every target is only missing, override otherwise.
pub open spec fn classify_spec(ts: Seq<SyncTarget>) -> SyncAction {
    if forall|i: int| 0 <= i < ts.len() ==> (#[trigger] ts[i]).reasons@.len() == 0 {
        SyncAction::Unchanged
    } else if forall|i: int| 0 <= i < ts.len() ==> only_missing(#[trigger] ts[i]) {
        SyncAction::Create
    } else {
        SyncAction::Override
    }
}

/// Classifies a skill's targets (see [`classify_spec`]).
pub fn classify_sync(targets: &Vec<SyncTarget>) -> (a: SyncAction)
    ensures
        a == classify_spec(targets@),
{
    let mut all_clean = true;
    let mut all_missing = true;
    let mut i: usize = 0;
    while i < targets.len()
        invariant
            i <= targets@.len(),
            all_clean == forall|j: int| 0 <= j < i ==> (#[trigger] targets@[j]).reasons@.len() == 0,
            all_missing == forall|j: int| 0 <= j < i ==> only_missing(#[trigger] targets@[j]),
        decreases targets.len() - i,
    {
        let t = &targets[i];
        if t.reasons.len() != 0 {
            all_clean = false;
        }
        let missing_only = t.reasons.len() == 1 && match &t.reasons[0] {
            SyncReason::Missing { .. } => true,
            _ => false,
        };
        if !missing_only {
            all_missing = false;
        }
        i += 1;
    }
    if all_clean {
        SyncAction::Unchanged
    } else if all_missing {
        SyncAction::Create
    } else {
        SyncAction::Override
    }
}

/// What a skill's sync does, from why its targets need work: nothing where no
/// target has a reason; create only where there are targets and each has the
/// one reason that it is missing; override as soon as any target has another
/// reason or more than one.
pub proof fn law_sync_action(ts: Seq<SyncTarget>)
    ensures
        (classify_spec(ts) == SyncAction::Unchanged) <==> (forall|i: int| 0 <= i < ts.len() ==> (#[trigger] ts[i]).reasons@.len() == 0),
        (classify_spec(ts) == SyncAction::Create) <==> (ts.len() > 0 && forall|i: int| 0 <= i < ts.len() ==> ((
        #[trigger] ts[i]).reasons@.len() == 1 && ts[i].reasons@[0] is Missing)),
        (exists|i: int| 0 <= i < ts.len() && (#[trigger] ts[i]).reasons@.len() != 1) && (exists|j: int| 0 <= j < ts.len() && (#[trigger] ts[j]).reasons@.len() > 0)
            ==> classify_spec(ts) == SyncAction::Override,
        (exists|i: int| 0 <= i < ts.len() && (#[trigger] ts[i]).reasons@.len() > 0 && !(ts[i].reasons@[0] is Missing))
            ==> classify_spec(ts) == SyncAction::Override,
{
    if ts.len() > 0 && forall|i: int| 0 <= i < ts.len() ==> ((#[trigger] ts[i]).reasons@.len() == 1 && ts[i].reasons@[0] is Missing) {
        assert(ts[0].reasons@.len() == 1);
        assert(forall|i: int| 0 <= i < ts.len() ==> only_missing(#[trigger] ts[i]));
    }
    if forall|i: int| 0 <= i < ts.len() ==> only_missing(#[trigger] ts[i]) {
        assert(forall|i: int| 0 <= i < ts.len() ==> ((#[trigger] ts[i]).reasons@.len() == 1 && ts[i].reasons@[0] is Missing));
    }
}

/// The text of a skill's `SKILL.md`: frontmatter with name and description,
/// then the body.
pub open spec fn skill_md(name: Seq<char>, description: Seq<char>, body: Seq<char>) -> Seq<char> {
    "---\nname: "@ + name + "\ndescription: "@ + description + "\n---\n"@ + body
}

/// Renders a skill's `SKILL.md` (see [`skill_md`]).
pub fn render_skill_md(metadata: &SkillMetadata, body: &str) -> (r: String)
    ensures
        r@ == skill_md(metadata.name@, metadata.description@, body@),
{
    let mut r = "---\nname: ".to_owned();
    push_str(&mut r, metadata.name.as_str());
    push_str(&mut r, "\ndescription: ");
    push_str(&mut r, metadata.description.as_str());
    push_str(&mut r, "\n---\n");
    push_str(&mut r, body);
    r
}

/// A file tree as plain values: each file's relative path and contents, in
/// the order the tree lists them.
pub open spec fn tree_view(t: Seq<(String, Vec<u8>)>) -> Seq<(Seq<char>, Seq<u8>)> {
    t.map_values(|e: (String, Vec<u8>)| (e.0@, e.1@))
}

/// The contents of the first file of `t` whose path names the same
/// components as `path`.
pub open spec fn tree_lookup(t: Seq<(Seq<char>, Seq<u8>)>, path: Seq<char>) -> Option<Seq<u8>>
    decreases t.len(),
{
    if t.len() == 0 {
        None
    } else if camino_components(t[0].0) == camino_components(path) {
        Some(t[0].1)
    } else {
        tree_lookup(t.drop_first(), path)
    }
}

/// The paths of `a`, in order, that `b` has no file at.
pub open spec fn paths_missing_from(a: Seq<(Seq<char>, Seq<u8>)>, b: Seq<(Seq<char>, Seq<u8>)>) -> Seq<Seq<char>>
    decreases a.len(),
{
    if a.len() == 0 {
        Seq::empty()
    } else {
        let rest = paths_missing_from(a.drop_last(), b);
        if tree_lookup(b, a.last().0) is None {
            rest.push(a.last().0)
        } else {
            rest
        }
    }
}

/// The paths of `rendered`, in order, whose file in `existing` has other
/// contents.
pub open spec fn paths_changed(rendered: Seq<(Seq<char>, Seq<u8>)>, existing: Seq<(Seq<char>, Seq<u8>)>) -> Seq<Seq<char>>
    decreases rendered.len(),
{
    if rendered.len() == 0 {
        Seq::empty()
    } else {
        let rest = paths_changed(rendered.drop_last(), existing);
        match tree_lookup(existing, rendered.last().0) {
            Some(current) => if current != rendered.last().1 {
                rest.push(rendered.last().0)
            } else {
                rest
            },
            None => rest,
        }
    }
}

/// Whether two byte strings are equal.
fn bytes_equal(a: &Vec<u8>, b: &Vec<u8>) -> (r: bool)
    ensures
        r == (a@ == b@),
{
    if a.len() != b.len() {
        return false;
    }
    let mut i: usize = 0;
    while i < a.len()
        invariant
            i <= a@.len(),
            a@.len() == b@.len(),
            forall|j: int| 0 <= j < i ==> a@[j] == b@[j],
        decreases a.len() - i,
    {
        if a[i] != b[i] {
            return false;
        }
        i += 1;
    }
    assert(a@ =~= b@);
    true
}

/// The index of the first file of `t` at `path` (see [`tree_lookup`]).
fn find_in_tree(t: &Vec<(String, Vec<u8>)>, path: &str) -> (r: Option<usize>)
    ensures
        match r {
            Some(i) => i < t@.len() && tree_lookup(tree_view(t@), path@) == Some(t@[i as int].1@),
            None => tree_lookup(tree_view(t@), path@) is None,
        },
{
    let ghost tv = tree_view(t@);
    let mut k: usize = 0;
    assert(tv.skip(0) =~= tv);
    while k < t.len()
        invariant
            k <= t@.len(),
            tv == tree_view(t@),
            tree_lookup(tv, path@) == tree_lookup(tv.skip(k as int), path@),
        decreases t.len() - k,
    {
        assert(tv.skip(k as int)[0] == (t@[k as int].0@, t@[k as int].1@));
        assert(tv.skip(k as int).drop_first() =~= tv.skip(k + 1));
        if paths_equal(t[k].0.as_str(), path) {
            return Some(k);
        }
        k += 1;
    }
    assert(tv.skip(t@.len() as int) =~= Seq::<(Seq<char>, Seq<u8>)>::empty());
    None
}

/// The paths of `a` that `b` has no file at (see [`paths_missing_from`]).
fn missing_paths(a: &Vec<(String, Vec<u8>)>, b: &Vec<(String, Vec<u8>)>) -> (r: Vec<String>)
    ensures
        strs_view(r@) == paths_missing_from(tree_view(a@), tree_view(b@)),
{
    let ghost av = tree_view(a@);
    let mut r: Vec<String> = Vec::new();
    let mut i: usize = 0;
    assert(strs_view(r@) =~= paths_missing_from(av.take(0), tree_view(b@)));
    while i < a.len()
        invariant
            i <= a@.len(),
            av == tree_view(a@),
            strs_view(r@) == paths_missing_from(av.take(i as int), tree_view(b@)),
        decreases a.len() - i,
    {
        assert(av.take(i + 1).drop_last() =~= av.take(i as int));
        assert(av.take(i + 1).last() == (a@[i as int].0@, a@[i as int].1@));
        if find_in_tree(b, a[i].0.as_str()).is_none() {
            let ghost before = r@;
            r.push(a[i].0.clone());
            assert(strs_view(r@) =~= strs_view(before).push(a@[i as int].0@));
        }
        i += 1;
    }
    assert(av.take(a@.len() as int) =~= av);
    r
}

/// The paths of `rendered` whose file in `existing` differs (see [`paths_changed`]).
fn changed_paths(rendered: &Vec<(String, Vec<u8>)>, existing: &Vec<(String, Vec<u8>)>) -> (r: Vec<String>)
    ensures
        strs_view(r@) == paths_changed(tree_view(rendered@), tree_view(existing@)),
{
    let ghost rv = tree_view(rendered@);
    let mut r: Vec<String> = Vec::new();
    let mut i: usize = 0;
    assert(strs_view(r@) =~= paths_changed(rv.take(0), tree_view(existing@)));
    while i < rendered.len()
        invariant
            i <= rendered@.len(),
            rv == tree_view(rendered@),
            strs_view(r@) == paths_changed(rv.take(i as int), tree_view(existing@)),
        decreases rendered.len() - i,
    {
        assert(rv.take(i + 1).drop_last() =~= rv.take(i as int));
        assert(rv.take(i + 1).last() == (rendered@[i as int].0@, rendered@[i as int].1@));
        match find_in_tree(existing, rendered[i].0.as_str()) {
            Some(j) => {
                if !bytes_equal(&existing[j].1, &rendered[i].1) {
                    let ghost before = r@;
                    r.push(rendered[i].0.clone());
                    assert(strs_view(r@) =~= strs_view(before).push(rendered@[i as int].0@));
                }
            },
            None => {},
        }
        i += 1;
    }
    assert(rv.take(rendered@.len() as int) =~= rv);
    r
}

/// The paths strictly ascend.
pub open spec fn paths_ascend(ps: Seq<Seq<char>>) -> bool {
    forall|i: int, j: int| 0 <= i < j < ps.len() ==> path_lt(#[trigger] ps[i], #[trigger] ps[j])
}

/// The files of a tree strictly ascend by path, as the keys of an ordered map
/// of paths do.
pub open spec fn tree_ascends(t: Seq<(Seq<char>, Seq<u8>)>) -> bool {
    forall|i: int, j: int| 0 <= i < j < t.len() ==> path_lt((#[trigger] t[i]).0, (#[trigger] t[j]).0)
}

/// The missing paths are paths of `a`, and ascend where `a` does.
proof fn lemma_missing_ascend(a: Seq<(Seq<char>, Seq<u8>)>, b: Seq<(Seq<char>, Seq<u8>)>)
    requires
        tree_ascends(a),
    ensures
        paths_ascend(paths_missing_from(a, b)),
        forall|i: int| #![trigger paths_missing_from(a, b)[i]] 0 <= i < paths_missing_from(a, b).len() ==> exists|k: int|
            0 <= k < a.len() && (#[trigger] a[k]).0 == paths_missing_from(a, b)[i],
    decreases a.len(),
{
    if a.len() > 0 {
        let init = a.drop_last();
        assert forall|i: int, j: int| 0 <= i < j < init.len() implies path_lt((#[trigger] init[i]).0, (#[trigger] init[j]).0) by {
            assert(init[i] == a[i] && init[j] == a[j]);
        }
        lemma_missing_ascend(init, b);
        let prev = paths_missing_from(init, b);
        let cur = paths_missing_from(a, b);
        assert forall|i: int| #![trigger cur[i]] 0 <= i < cur.len() implies exists|k: int| 0 <= k < a.len() && (#[trigger] a[k]).0 == cur[i] by {
            if i < prev.len() {
                let k = choose|k: int| 0 <= k < init.len() && (#[trigger] init[k]).0 == prev[i];
                assert(a[k] == init[k]);
            } else {
                assert(a[a.len() - 1] == a.last());
            }
        }
        assert forall|i: int, j: int| 0 <= i < j < cur.len() implies path_lt(#[trigger] cur[i], #[trigger] cur[j]) by {
            if j >= prev.len() {
                let k = choose|k: int| 0 <= k < init.len() && (#[trigger] init[k]).0 == prev[i];
                assert(a[k] == init[k]);
                assert(a[a.len() - 1] == a.last());
            }
        }
    }
}

/// The changed paths are paths of `rendered`, and ascend where it does.
proof fn lemma_changed_ascend(rendered: Seq<(Seq<char>, Seq<u8>)>, existing: Seq<(Seq<char>, Seq<u8>)>)
    requires
        tree_ascends(rendered),
    ensures
        paths_ascend(paths_changed(rendered, existing)),
        forall|i: int| #![trigger paths_changed(rendered, existing)[i]] 0 <= i < paths_changed(rendered, existing).len()
            ==> exists|k: int| 0 <= k < rendered.len() && (#[trigger] rendered[k]).0 == paths_changed(rendered, existing)[i],
    decreases rendered.len(),
{
    if rendered.len() > 0 {
        let init = rendered.drop_last();
        assert forall|i: int, j: int| 0 <= i < j < init.len() implies path_lt((#[trigger] init[i]).0, (#[trigger] init[j]).0) by {
            assert(init[i] == rendered[i] && init[j] == rendered[j]);
        }
        lemma_changed_ascend(init, existing);
        let prev = paths_changed(init, existing);
        let cur = paths_changed(rendered, existing);
        assert forall|i: int| #![trigger cur[i]] 0 <= i < cur.len() implies exists|k: int| 0 <= k < rendered.len() && (
        #[trigger] rendered[k]).0 == cur[i] by {
            if i < prev.len() {
                let k = choose|k: int| 0 <= k < init.len() && (#[trigger] init[k]).0 == prev[i];
                assert(rendered[k] == init[k]);
            } else {
                assert(rendered[rendered.len() - 1] == rendered.last());
            }
        }
        assert forall|i: int, j: int| 0 <= i < j < cur.len() implies path_lt(#[trigger] cur[i], #[trigger] cur[j]) by {
            if j >= prev.len() {
                let k = choose|k: int| 0 <= k < init.len() && (#[trigger] init[k]).0 == prev[i];
                assert(rendered[k] == init[k]);
                assert(rendered[rendered.len() - 1] == rendered.last());
            }
        }
    }
}

/// How the `existing` tree at an install path differs from the `rendered`
/// one: paths only rendered are added, paths in both with other contents are
/// changed, paths only existing are removed. Each tree lists its files in
/// ascending path order, as an ordered map of paths does, and each list keeps
/// that order.
pub fn diff_trees(existing: &Vec<(String, Vec<u8>)>, rendered: &Vec<(String, Vec<u8>)>) -> (d: FileDiff)
    requires
        tree_ascends(tree_view(existing@)),
        tree_ascends(tree_view(rendered@)),
    ensures
        strs_view(d.added@) == paths_missing_from(tree_view(rendered@), tree_view(existing@)),
        strs_view(d.changed@) == paths_changed(tree_view(rendered@), tree_view(existing@)),
        strs_view(d.removed@) == paths_missing_from(tree_view(existing@), tree_view(rendered@)),
        paths_ascend(strs_view(d.added@)),
        paths_ascend(strs_view(d.changed@)),
        paths_ascend(strs_view(d.removed@)),
{
    proof {
        lemma_missing_ascend(tree_view(rendered@), tree_view(existing@));
        lemma_missing_ascend(tree_view(existing@), tree_view(rendered@));
        lemma_changed_ascend(tree_view(rendered@), tree_view(existing@));
    }
    FileDiff {
        added: missing_paths(rendered, existing),
        changed: changed_paths(rendered, existing),
        removed: missing_paths(existing, rendered),
    }
}

impl FileDiff {
    /// The diff of a tree against nothing: every rendered path is added.
    pub fn from_rendered(rendered: &Vec<(String, Vec<u8>)>) -> (d: FileDiff)
        ensures
            diff_view(d) == all_added(tree_view(rendered@)),
    {
        let mut added: Vec<String> = Vec::new();
        let mut i: usize = 0;
        while i < rendered.len()
            invariant
                i <= rendered@.len(),
                strs_view(added@) == tree_view(rendered@).take(i as int).map_values(|e: (Seq<char>, Seq<u8>)| e.0),
            decreases rendered.len() - i,
        {
            let ghost before = added@;
            added.push(rendered[i].0.clone());
            assert(strs_view(added@) =~= strs_view(before).push(rendered@[i as int].0@));
            assert(tree_view(rendered@).take(i + 1)[i as int] == (rendered@[i as int].0@, rendered@[i as int].1@));
            assert(strs_view(added@) =~= tree_view(rendered@).take(i + 1).map_values(|e: (Seq<char>, Seq<u8>)| e.0));
            i += 1;
        }
        assert(tree_view(rendered@).take(rendered@.len() as int) =~= tree_view(rendered@));
        let d = FileDiff { added, changed: Vec::new(), removed: Vec::new() };
        assert(strs_view(d.changed@) =~= Seq::<Seq<char>>::empty());
        assert(strs_view(d.removed@) =~= Seq::<Seq<char>>::empty());
        d
    }
}

/// What was found at an install path, without following a symbolic link.
pub enum InstallEntry {
    /// Nothing is there.
    Absent,
    /// A symbolic link, with the path it points to.
    Link(String),
    /// Something that is not a symbolic link.
    Other,
}

/// A diff as plain values: added, changed and removed paths.
pub open spec fn diff_view(d: FileDiff) -> (Seq<Seq<char>>, Seq<Seq<char>>, Seq<Seq<char>>) {
    (strs_view(d.added@), strs_view(d.changed@), strs_view(d.removed@))
}

/// A sync reason as plain values.
pub enum ReasonView {
    Missing((Seq<Seq<char>>, Seq<Seq<char>>, Seq<Seq<char>>)),
    ContentChanged((Seq<Seq<char>>, Seq<Seq<char>>, Seq<Seq<char>>)),
    WrongSymlink(Seq<char>, Seq<char>),
    NotSymlink,
    NotDirectory,
}

pub open spec fn reason_view(r: SyncReason) -> ReasonView {
    match r {
        SyncReason::Missing { diff } => ReasonView::Missing(diff_view(diff)),
        SyncReason::ContentChanged { diff } => ReasonView::ContentChanged(diff_view(diff)),
        SyncReason::WrongSymlink { expected, actual } => ReasonView::WrongSymlink(expected@, actual@),
        SyncReason::NotSymlink => ReasonView::NotSymlink,
        SyncReason::NotDirectory => ReasonView::NotDirectory,
    }
}

/// The diff of a rendered tree against nothing.
pub open spec fn all_added(rendered: Seq<(Seq<char>, Seq<u8>)>) -> (Seq<Seq<char>>, Seq<Seq<char>>, Seq<Seq<char>>) {
    (rendered.map_values(|e: (Seq<char>, Seq<u8>)| e.0), Seq::empty(), Seq::empty())
}

/// The diff of an existing tree against a rendered one.
pub open spec fn tree_diff(existing: Seq<(Seq<char>, Seq<u8>)>, rendered: Seq<(Seq<char>, Seq<u8>)>) -> (Seq<Seq<char>>, Seq<Seq<char>>, Seq<Seq<char>>) {
    (paths_missing_from(rendered, existing), paths_changed(rendered, existing), paths_missing_from(existing, rendered))
}

pub open spec fn diff_is_empty(d: (Seq<Seq<char>>, Seq<Seq<char>>, Seq<Seq<char>>)) -> bool {
    d.0.len() == 0 && d.1.len() == 0 && d.2.len() == 0
}

/// The reason the entry at an install path gives: none for a link to the
/// render path, a wrong link for one pointing elsewhere, and one for anything
/// that is not a link.
pub open spec fn link_reasons_spec(render_path: Seq<char>, entry: InstallEntry) -> Seq<ReasonView> {
    match entry {
        InstallEntry::Link(actual) => if camino_components(actual@) == camino_components(render_path) {
            Seq::empty()
        } else {
            seq![ReasonView::WrongSymlink(render_path, actual@)]
        },
        _ => seq![ReasonView::NotSymlink],
    }
}

/// The reason what an install path leads to gives: nothing there (missing,
/// every rendered file added), a directory whose files differ (changed), or
/// not a directory.
pub open spec fn content_reasons_spec(
    kind: ExistingTargetKind,
    existing: Seq<(Seq<char>, Seq<u8>)>,
    rendered: Seq<(Seq<char>, Seq<u8>)>,
) -> Seq<ReasonView> {
    match kind {
        ExistingTargetKind::Missing => seq![ReasonView::Missing(all_added(rendered))],
        ExistingTargetKind::Directory => if diff_is_empty(tree_diff(existing, rendered)) {
            Seq::empty()
        } else {
            seq![ReasonView::ContentChanged(tree_diff(existing, rendered))]
        },
        ExistingTargetKind::NotDirectory => seq![ReasonView::NotDirectory],
    }
}

/// Why an install path needs work: when nothing is there, it is missing with
/// every rendered file added; otherwise the reason of the link, then that of
/// what it leads to.
pub open spec fn target_reasons_spec(
    render_path: Seq<char>,
    entry: InstallEntry,
    kind: ExistingTargetKind,
    existing: Seq<(Seq<char>, Seq<u8>)>,
    rendered: Seq<(Seq<char>, Seq<u8>)>,
) -> Seq<ReasonView> {
    match entry {
        InstallEntry::Absent => seq![ReasonView::Missing(all_added(rendered))],
        _ => link_reasons_spec(render_path, entry) + content_reasons_spec(kind, existing, rendered),
    }
}

pub open spec fn reasons_view(r: Seq<SyncReason>) -> Seq<ReasonView> {
    r.map_values(|x: SyncReason| reason_view(x))
}

/// The reason of the entry at an install path (see [`link_reasons_spec`]).
fn link_reasons(render_path: &str, entry: &InstallEntry) -> (r: Vec<SyncReason>)
    requires
        !(entry is Absent),
    ensures
        reasons_view(r@) == link_reasons_spec(render_path@, *entry),
{
    let mut reasons: Vec<SyncReason> = Vec::new();
    match entry {
        InstallEntry::Link(actual) => {
            if !paths_equal(actual.as_str(), render_path) {
                reasons.push(SyncReason::WrongSymlink { expected: render_path.to_owned(), actual: actual.clone() });
            }
        },
        _ => {
            reasons.push(SyncReason::NotSymlink);
        },
    }
    assert(reasons_view(reasons@) =~= link_reasons_spec(render_path@, *entry));
    reasons
}

/// The reason of what an install path leads to (see [`content_reasons_spec`]).
fn content_reasons(
    kind: ExistingTargetKind,
    existing: &Vec<(String, Vec<u8>)>,
    rendered: &Vec<(String, Vec<u8>)>,
) -> (r: Vec<SyncReason>)
    requires
        tree_ascends(tree_view(existing@)),
        tree_ascends(tree_view(rendered@)),
    ensures
        reasons_view(r@) == content_reasons_spec(kind, tree_view(existing@), tree_view(rendered@)),
{
    let mut reasons: Vec<SyncReason> = Vec::new();
    match kind {
        ExistingTargetKind::Missing => {
            reasons.push(SyncReason::Missing { diff: FileDiff::from_rendered(rendered) });
        },
        ExistingTargetKind::Directory => {
            let diff = diff_trees(existing, rendered);
            if !diff.is_empty() {
                reasons.push(SyncReason::ContentChanged { diff });
            }
        },
        ExistingTargetKind::NotDirectory => {
            reasons.push(SyncReason::NotDirectory);
        },
    }
    assert(reasons_view(reasons@) =~= content_reasons_spec(kind, tree_view(existing@), tree_view(rendered@)));
    reasons
}

/// Decides why an install path needs work from what was found there: the
/// entry at the path, what it leads to, and the files of the directory it
/// leads to (read only when it is one). See [`target_reasons_spec`].
pub fn target_reasons(
    render_path: &str,
    entry: &InstallEntry,
    kind: ExistingTargetKind,
    existing: &Vec<(String, Vec<u8>)>,
    rendered: &Vec<(String, Vec<u8>)>,
) -> (r: Vec<SyncReason>)
    requires
        tree_ascends(tree_view(existing@)),
        tree_ascends(tree_view(rendered@)),
    ensures
        reasons_view(r@) == target_reasons_spec(render_path@, *entry, kind, tree_view(existing@), tree_view(rendered@)),
{
    if let InstallEntry::Absent = entry {
        let mut reasons: Vec<SyncReason> = Vec::new();
        reasons.push(SyncReason::Missing { diff: FileDiff::from_rendered(rendered) });
        assert(reasons_view(reasons@) =~= seq![ReasonView::Missing(all_added(tree_view(rendered@)))]);
        return reasons;
    }
    let mut reasons = link_reasons(render_path, entry);
    let ghost first = reasons@;
    let mut rest = content_reasons(kind, existing, rendered);
    let ghost second = rest@;
    reasons.append(&mut rest);
    assert(reasons@ == first + second);
    assert(reasons_view(reasons@) =~= reasons_view(first) + reasons_view(second));
    reasons
}

/// No two files of a tree name the same path.
pub open spec fn distinct_paths(t: Seq<(Seq<char>, Seq<u8>)>) -> bool {
    forall|i: int, j: int| 0 <= i < j < t.len() ==> camino_components(#[trigger] t[i].0) != camino_components(#[trigger] t[j].0)
}

proof fn lemma_lookup_own_path(t: Seq<(Seq<char>, Seq<u8>)>, i: int)
    requires
        distinct_paths(t),
        0 <= i < t.len(),
    ensures
        tree_lookup(t, t[i].0) == Some(t[i].1),
    decreases t.len(),
{
    if i > 0 {
        assert(camino_components(t[0].0) != camino_components(t[i].0));
        let rest = t.drop_first();
        assert forall|a: int, b: int| 0 <= a < b < rest.len() implies camino_components(#[trigger] rest[a].0) != camino_components(#[trigger] rest[b].0) by {
            assert(rest[a] == t[a + 1] && rest[b] == t[b + 1]);
        }
        lemma_lookup_own_path(rest, i - 1);
    }
}

proof fn lemma_nothing_differs_from_itself(t: Seq<(Seq<char>, Seq<u8>)>, full: Seq<(Seq<char>, Seq<u8>)>)
    requires
        distinct_paths(full),
        t.len() <= full.len(),
        t == full.take(t.len() as int),
    ensures
        paths_missing_from(t, full).len() == 0,
        paths_changed(t, full).len() == 0,
    decreases t.len(),
{
    if t.len() > 0 {
        let n = t.len() - 1;
        lemma_lookup_own_path(full, n);
        assert(t.last() == full[n]);
        assert(t.drop_last() =~= full.take(n));
        lemma_nothing_differs_from_itself(t.drop_last(), full);
    }
}

/// A tree compared with itself differs nowhere, where no two of its files name
/// the same path.
pub proof fn law_tree_diff_of_itself_is_empty(t: Seq<(Seq<char>, Seq<u8>)>)
    requires
        distinct_paths(t),
    ensures
        diff_is_empty(tree_diff(t, t)),
{
    assert(t.take(t.len() as int) =~= t);
    lemma_nothing_differs_from_itself(t, t);
}

/// Once a sync has been applied, the skill needs no more work: an install path
/// linked to the render path, leading to a directory that holds exactly the
/// rendered files, gives no reason. Where nothing is installed yet, the only
/// reason is that it is missing, with every rendered file to add.
pub proof fn law_synced_target_needs_no_work(render_path: Seq<char>, link: String, rendered: Seq<(Seq<char>, Seq<u8>)>)
    requires
        camino_components(link@) == camino_components(render_path),
        distinct_paths(rendered),
    ensures
        target_reasons_spec(render_path, InstallEntry::Link(link), ExistingTargetKind::Directory, rendered, rendered).len() == 0,
        target_reasons_spec(render_path, InstallEntry::Absent, ExistingTargetKind::Missing, Seq::empty(), rendered)
            == seq![ReasonView::Missing(all_added(rendered))],
{
    law_tree_diff_of_itself_is_empty(rendered);
    assert(link_reasons_spec(render_path, InstallEntry::Link(link)) =~= Seq::<ReasonView>::empty());
    assert(content_reasons_spec(ExistingTargetKind::Directory, rendered, rendered) =~= Seq::<ReasonView>::empty());
}

/// Files that ascend by path name distinct paths.
proof fn lemma_ascending_paths_are_distinct(t: Seq<(Seq<char>, Seq<u8>)>)
    requires
        tree_ascends(t),
    ensures
        distinct_paths(t),
{
    assert forall|i: int, j: int| 0 <= i < j < t.len() implies camino_components(#[trigger] t[i].0) != camino_components(
        #[trigger] t[j].0,
    ) by {
        assert(path_lt(t[i].0, t[j].0));
        lemma_components_lt_irreflexive(camino_components(t[i].0));
    }
}

/// A lookup finds nothing exactly where no file names the path, and what it
/// finds is the contents of a file that names it.
proof fn lemma_lookup_found(t: Seq<(Seq<char>, Seq<u8>)>, p: Seq<char>)
    ensures
        tree_lookup(t, p) is None <==> forall|i: int| 0 <= i < t.len() ==> camino_components((#[trigger] t[i]).0)
            != camino_components(p),
        tree_lookup(t, p) is Some ==> exists|i: int| 0 <= i < t.len() && camino_components((#[trigger] t[i]).0)
            == camino_components(p) && Some(t[i].1) == tree_lookup(t, p),
    decreases t.len(),
{
    if t.len() > 0 {
        let rest = t.drop_first();
        lemma_lookup_found(rest, p);
        if camino_components(t[0].0) != camino_components(p) {
            assert forall|i: int| 0 <= i < t.len() && camino_components((#[trigger] t[i]).0) == camino_components(p)
                implies i >= 1 && camino_components(rest[i - 1].0) == camino_components(p) by {
                assert(rest[i - 1] == t[i]);
            }
            if tree_lookup(rest, p) is Some {
                let i = choose|i: int| 0 <= i < rest.len() && camino_components((#[trigger] rest[i]).0)
                    == camino_components(p) && Some(rest[i].1) == tree_lookup(rest, p);
                assert(t[i + 1] == rest[i]);
            } else {
                assert forall|i: int| 0 <= i < t.len() implies camino_components((#[trigger] t[i]).0)
                    != camino_components(p) by {
                    if i > 0 {
                        assert(t[i] == rest[i - 1]);
                    }
                }
            }
        }
    }
}

/// Paths naming the same components are looked up alike.
proof fn lemma_lookup_same_components(t: Seq<(Seq<char>, Seq<u8>)>, p: Seq<char>, q: Seq<char>)
    requires
        camino_components(p) == camino_components(q),
    ensures
        tree_lookup(t, p) == tree_lookup(t, q),
    decreases t.len(),
{
    if t.len() > 0 {
        lemma_lookup_same_components(t.drop_first(), p, q);
    }
}

/// Nothing is missing exactly where every path of `a` has a file in `b`.
proof fn lemma_missing_empty(a: Seq<(Seq<char>, Seq<u8>)>, b: Seq<(Seq<char>, Seq<u8>)>)
    ensures
        paths_missing_from(a, b).len() == 0 <==> forall|i: int| 0 <= i < a.len() ==> tree_lookup(b, (#[trigger] a[i]).0)
            is Some,
    decreases a.len(),
{
    if a.len() > 0 {
        let init = a.drop_last();
        lemma_missing_empty(init, b);
        assert(a[a.len() - 1] == a.last());
        if paths_missing_from(a, b).len() == 0 {
            assert forall|i: int| 0 <= i < a.len() implies tree_lookup(b, (#[trigger] a[i]).0) is Some by {
                if i < a.len() - 1 {
                    assert(init[i] == a[i]);
                }
            }
        } else if forall|i: int| 0 <= i < a.len() ==> tree_lookup(b, (#[trigger] a[i]).0) is Some {
            assert forall|i: int| 0 <= i < init.len() implies tree_lookup(b, (#[trigger] init[i]).0) is Some by {
                assert(init[i] == a[i]);
            }
        }
    }
}

/// Nothing is changed exactly where every path of `rendered` that `existing`
/// has a file at has the same contents there.
proof fn lemma_changed_empty(rendered: Seq<(Seq<char>, Seq<u8>)>, existing: Seq<(Seq<char>, Seq<u8>)>)
    ensures
        paths_changed(rendered, existing).len() == 0 <==> forall|i: int| 0 <= i < rendered.len() ==> (tree_lookup(
            existing,
            (#[trigger] rendered[i]).0,
        ) is Some ==> tree_lookup(existing, rendered[i].0) == Some(rendered[i].1)),
    decreases rendered.len(),
{
    if rendered.len() > 0 {
        let init = rendered.drop_last();
        lemma_changed_empty(init, existing);
        assert(rendered[rendered.len() - 1] == rendered.last());
        if paths_changed(rendered, existing).len() == 0 {
            assert forall|i: int| 0 <= i < rendered.len() implies (tree_lookup(existing, (#[trigger] rendered[i]).0)
                is Some ==> tree_lookup(existing, rendered[i].0) == Some(rendered[i].1)) by {
                if i < rendered.len() - 1 {
                    assert(init[i] == rendered[i]);
                }
            }
        } else if forall|i: int| 0 <= i < rendered.len() ==> (tree_lookup(existing, (#[trigger] rendered[i]).0) is Some
            ==> tree_lookup(existing, rendered[i].0) == Some(rendered[i].1)) {
            assert forall|i: int| 0 <= i < init.len() implies (tree_lookup(existing, (#[trigger] init[i]).0) is Some
                ==> tree_lookup(existing, init[i].0) == Some(init[i].1)) by {
                assert(init[i] == rendered[i]);
            }
        }
    }
}

/// Two trees that each ascend by path differ nowhere exactly when they hold
/// the same files: every path finds the same contents in both, or nothing in
/// either.
pub proof fn law_tree_diff_empty_iff_same_files(existing: Seq<(Seq<char>, Seq<u8>)>, rendered: Seq<(Seq<char>, Seq<u8>)>)
    requires
        tree_ascends(existing),
        tree_ascends(rendered),
    ensures
        diff_is_empty(tree_diff(existing, rendered)) <==> forall|p: Seq<char>| #[trigger] tree_lookup(existing, p)
            == tree_lookup(rendered, p),
{
    lemma_ascending_paths_are_distinct(existing);
    lemma_ascending_paths_are_distinct(rendered);
    lemma_missing_empty(rendered, existing);
    lemma_missing_empty(existing, rendered);
    lemma_changed_empty(rendered, existing);
    if forall|p: Seq<char>| #[trigger] tree_lookup(existing, p) == tree_lookup(rendered, p) {
        assert forall|i: int| 0 <= i < rendered.len() implies tree_lookup(existing, (#[trigger] rendered[i]).0)
            == Some(rendered[i].1) by {
            lemma_lookup_own_path(rendered, i);
            assert(tree_lookup(existing, rendered[i].0) == tree_lookup(rendered, rendered[i].0));
        }
        assert forall|i: int| 0 <= i < existing.len() implies tree_lookup(rendered, (#[trigger] existing[i]).0)
            is Some by {
            lemma_lookup_own_path(existing, i);
            assert(tree_lookup(existing, existing[i].0) == tree_lookup(rendered, existing[i].0));
        }
    }
    if diff_is_empty(tree_diff(existing, rendered)) {
        assert forall|p: Seq<char>| #[trigger] tree_lookup(existing, p) == tree_lookup(rendered, p) by {
            lemma_lookup_found(rendered, p);
            lemma_lookup_found(existing, p);
            if tree_lookup(rendered, p) is Some {
                let i = choose|i: int| 0 <= i < rendered.len() && camino_components((#[trigger] rendered[i]).0)
                    == camino_components(p) && Some(rendered[i].1) == tree_lookup(rendered, p);
                lemma_lookup_same_components(existing, p, rendered[i].0);
                assert(tree_lookup(existing, rendered[i].0) is Some);
            } else if tree_lookup(existing, p) is Some {
                let k = choose|k: int| 0 <= k < existing.len() && camino_components((#[trigger] existing[k]).0)
                    == camino_components(p) && Some(existing[k].1) == tree_lookup(existing, p);
                lemma_lookup_same_components(rendered, p, existing[k].0);
                assert(tree_lookup(rendered, existing[k].0) is Some);
            }
        }
    }
}

} // verus!
