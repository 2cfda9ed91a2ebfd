//! Git remotes: a URL or an scp-like `user@host:path` reduced to a host and a
//! normalized repository path.
use crate::text::{join, join_strings, push_str, split_char, split_on, str_eq, strs_view, trim, trim_string};
use vstd::prelude::*;

verus! {

/// What `url::Url::parse` gives for a text: `None` where it fails, else the
/// scheme, the host text (`host_str`) and the path.
pub uninterp spec fn url_parts(text: Seq<char>) -> Option<(Seq<char>, Option<Seq<char>>, Seq<char>)>;

/// What the pattern `pattern` captures in `text` with `regex::Regex::captures`:
/// `None` where the pattern does not compile or does not match, else the text of
/// the groups named `first` and `second` (a group that did not take part is
/// `None`).
pub uninterp spec fn regex_named_captures(pattern: Seq<char>, text: Seq<char>, first: Seq<char>, second: Seq<char>) -> Option<
    (Option<Seq<char>>, Option<Seq<char>>),
>;

/// `url::Url::parse`, reduced to its scheme, host text and path (see
/// [`url_parts`]).
#[verifier::external_body]
fn parse_url_parts(text: &str) -> (r: Option<(String, Option<String>, String)>)
    ensures
        match r {
            Some((s, h, p)) => url_parts(text@) == Some((s@, match h {
                Some(x) => Some(x@),
                None => None::<Seq<char>>,
            }, p@)),
            None => url_parts(text@) is None,
        },
{
    url::Url::parse(text).ok().map(|u| (u.scheme().to_owned(), u.host_str().map(|h| h.to_owned()), u.path().to_owned()))
}

/// The first position at or after `from` where `t` holds `c`.
pub open spec fn first_from(t: Seq<char>, c: char, from: int) -> Option<int> {
    if exists|i: int| from <= i < t.len() && t[i] == c && forall|j: int| from <= j < i ==> t[j] != c {
        Some(choose|i: int| from <= i < t.len() && t[i] == c && forall|j: int| from <= j < i ==> t[j] != c)
    } else {
        None
    }
}

/// The host and path the scp-like pattern finds from position `q` of `t`: the
/// host up to the next `:`, not empty, then the rest, not empty and without a
/// line break.
pub open spec fn scp_host_path(t: Seq<char>, q: int) -> Option<(Seq<char>, Seq<char>)> {
    match first_from(t, ':', q) {
        None => None,
        Some(c) => if c > q && c + 1 < t.len() && !t.skip(c + 1).contains('\n') {
            Some((t.subrange(q, c), t.skip(c + 1)))
        } else {
            None
        },
    }
}

/// What [`scp_pattern`] captures as `host` and `path` in `t`: where `t` has an
/// `@` that is not its first character, the host and path after the first `@`
/// if they are found there; otherwise the host and path from the start.
pub open spec fn scp_captures(t: Seq<char>) -> Option<(Seq<char>, Seq<char>)> {
    let after_user = match first_from(t, '@', 0) {
        Some(a) => if a > 0 {
            scp_host_path(t, a + 1)
        } else {
            None
        },
        None => None,
    };
    if after_user is Some {
        after_user
    } else {
        scp_host_path(t, 0)
    }
}

/// `regex::Regex::new(pattern)` and `captures(text)`, reduced to two named
/// groups (see [`regex_named_captures`]). For [`scp_pattern`] with its groups
/// `host` and `path` the result is written out: the pattern is anchored at
/// both ends, its optional `user@` part is tried first, `[^:]+` stops at the
/// first `:`, and `.` takes any character but a line break.
#[verifier::external_body]
fn named_captures(pattern: &str, text: &str, first: &str, second: &str) -> (r: Option<(Option<String>, Option<String>)>)
    ensures
        match r {
            Some((a, b)) => regex_named_captures(pattern@, text@, first@, second@) == Some((match a {
                Some(x) => Some(x@),
                None => None::<Seq<char>>,
            }, match b {
                Some(x) => Some(x@),
                None => None::<Seq<char>>,
            })),
            None => regex_named_captures(pattern@, text@, first@, second@) is None,
        },
        (pattern@ == scp_pattern() && first@ == "host"@ && second@ == "path"@) ==> match scp_captures(text@) {
            Some((h, p)) => r matches Some((Some(a), Some(b))) && a@ == h && b@ == p,
            None => r is None,
        },
{
    let re = regex::Regex::new(pattern).ok()?;
    let c = re.captures(text)?;
    Some((c.name(first).map(|m| m.as_str().to_owned()), c.name(second).map(|m| m.as_str().to_owned())))
}

/// A remote as host and repository path.
pub struct RemoteSpec {
    pub host: String,
    pub repo_path: String,
}

/// The last `/`-separated piece of a path.
pub open spec fn last_segment(p: Seq<char>) -> Seq<char> {
    split_on(p, '/').last()
}

impl RemoteSpec {
    /// The repository name: the last segment of the path.
    pub fn name(&self) -> (r: String)
        ensures
            r@ == last_segment(self.repo_path@),
    {
        let parts = split_char(self.repo_path.as_str(), '/');
        proof {
            crate::text::lemma_split_on_nonempty(self.repo_path@, '/');
        }
        let n = parts.len();
        assert(strs_view(parts@)[n - 1] == parts@[n - 1]@);
        parts[n - 1].clone()
    }
}

/// Why a remote was refused.
pub enum RemoteError {
    Empty,
    MissingHost,
    UnsupportedFormat(String),
    EmptyPath,
    InvalidSegment(String),
}

/// A remote error as plain values.
pub enum RemoteErrorView {
    Empty,
    MissingHost,
    UnsupportedFormat(Seq<char>),
    EmptyPath,
    InvalidSegment(Seq<char>),
}

impl RemoteError {
    pub open spec fn view(&self) -> RemoteErrorView {
        match self {
            RemoteError::Empty => RemoteErrorView::Empty,
            RemoteError::MissingHost => RemoteErrorView::MissingHost,
            RemoteError::UnsupportedFormat(r) => RemoteErrorView::UnsupportedFormat(r@),
            RemoteError::EmptyPath => RemoteErrorView::EmptyPath,
            RemoteError::InvalidSegment(s) => RemoteErrorView::InvalidSegment(s@),
        }
    }

    /// The error's message.
    pub fn message(&self) -> (m: String)
        ensures
            m@ == remote_error_message(self@),
    {
        match self {
            RemoteError::Empty => "remote must not be empty".to_owned(),
            RemoteError::MissingHost => "remote URL is missing a host".to_owned(),
            RemoteError::UnsupportedFormat(r) => {
                let mut m = "unsupported git remote format: ".to_owned();
                push_str(&mut m, r.as_str());
                m
            },
            RemoteError::EmptyPath => "git remote path must not be empty".to_owned(),
            RemoteError::InvalidSegment(s) => {
                let mut m = "git remote path contains an invalid segment: ".to_owned();
                push_str(&mut m, s.as_str());
                m
            },
        }
    }
}

pub open spec fn remote_error_message(e: RemoteErrorView) -> Seq<char> {
    match e {
        RemoteErrorView::Empty => "remote must not be empty"@,
        RemoteErrorView::MissingHost => "remote URL is missing a host"@,
        RemoteErrorView::UnsupportedFormat(r) => "unsupported git remote format: "@ + r,
        RemoteErrorView::EmptyPath => "git remote path must not be empty"@,
        RemoteErrorView::InvalidSegment(s) => "git remote path contains an invalid segment: "@ + s,
    }
}

/// `str::trim_end_matches(".git")`: every trailing `.git` removed.
pub open spec fn trim_git_suffix(s: Seq<char>) -> Seq<char>
    decreases s.len(),
{
    if s.len() >= 4 && s.subrange(s.len() - 4, s.len() as int) == ".git"@ {
        trim_git_suffix(s.subrange(0, s.len() - 4))
    } else {
        s
    }
}

/// The non-empty pieces of a `/`-separated path.
pub open spec fn non_empty_segments(parts: Seq<Seq<char>>) -> Seq<Seq<char>>
    decreases parts.len(),
{
    if parts.len() == 0 {
        Seq::empty()
    } else {
        let rest = non_empty_segments(parts.drop_last());
        if parts.last().len() > 0 {
            rest.push(parts.last())
        } else {
            rest
        }
    }
}

/// The first segment that is `.` or `..`.
pub open spec fn first_dot_segment(segs: Seq<Seq<char>>) -> Option<Seq<char>>
    decreases segs.len(),
{
    if segs.len() == 0 {
        None
    } else if segs[0] == "."@ || segs[0] == ".."@ {
        Some(segs[0])
    } else {
        first_dot_segment(segs.drop_first())
    }
}

/// A repository path normalized: leading `/` and trailing `.git` removed, empty
/// segments dropped; refused when nothing is left or a segment is `.` or `..`.
pub open spec fn normalize_repo_path_spec(path: Seq<char>) -> Result<Seq<char>, RemoteErrorView> {
    let t = trim_git_suffix(crate::text::trim_start_char(path, '/'));
    let segs = non_empty_segments(split_on(t, '/'));
    if segs.len() == 0 {
        Err(RemoteErrorView::EmptyPath)
    } else {
        match first_dot_segment(segs) {
            Some(s) => Err(RemoteErrorView::InvalidSegment(s)),
            None => Ok(join(segs, "/"@)),
        }
    }
}

/// A segment is refused exactly when it is `.` or `..`: the first such
/// segment, if any, is what is found, and any other name passes, whatever its
/// first character.
pub proof fn law_only_dot_segments_are_refused(segs: Seq<Seq<char>>)
    ensures
        first_dot_segment(segs) is None <==> forall|i: int| 0 <= i < segs.len() ==> #[trigger] segs[i] != "."@ && segs[i]
            != ".."@,
        first_dot_segment(segs) matches Some(d) ==> (d == "."@ || d == ".."@) && exists|i: int| 0 <= i < segs.len() && #[trigger] segs[i] == d
            && forall|j: int| 0 <= j < i ==> segs[j] != "."@ && segs[j] != ".."@,
    decreases segs.len(),
{
    if segs.len() > 0 {
        let rest = segs.drop_first();
        law_only_dot_segments_are_refused(rest);
        if !(segs[0] == "."@ || segs[0] == ".."@) {
            if first_dot_segment(rest) is None {
                assert forall|i: int| 0 <= i < segs.len() implies #[trigger] segs[i] != "."@ && segs[i] != ".."@ by {
                    if i > 0 {
                        assert(segs[i] == rest[i - 1]);
                    }
                }
            } else {
                let d = first_dot_segment(rest)->0;
                let k = choose|k: int| 0 <= k < rest.len() && #[trigger] rest[k] == d && forall|j: int| 0 <= j < k ==> rest[j]
                    != "."@ && rest[j] != ".."@;
                assert(segs[k + 1] == d);
                assert forall|j: int| 0 <= j < k + 1 implies segs[j] != "."@ && segs[j] != ".."@ by {
                    if j > 0 {
                        assert(segs[j] == rest[j - 1]);
                    }
                }
                assert(!(segs[k + 1] != "."@ && segs[k + 1] != ".."@));
            }
        } else {
            assert(!(segs[0] != "."@ && segs[0] != ".."@));
        }
    }
}

proof fn lemma_non_empty_segments_keep_all(parts: Seq<Seq<char>>)
    requires
        forall|i: int| 0 <= i < parts.len() ==> (#[trigger] parts[i]).len() > 0,
    ensures
        non_empty_segments(parts) == parts,
    decreases parts.len(),
{
    if parts.len() > 0 {
        let init = parts.drop_last();
        assert forall|i: int| 0 <= i < init.len() implies (#[trigger] init[i]).len() > 0 by {
            assert(init[i] == parts[i]);
        }
        lemma_non_empty_segments_keep_all(init);
        assert(parts[parts.len() - 1].len() > 0);
        assert(init.push(parts.last()) =~= parts);
    }
}

/// A repository path of names keeps them: where every segment is a non-empty
/// name without `/` that is neither `.` nor `..` (names starting with a dot
/// included), and the last does not end in `.git`, normalizing gives the
/// segments joined by `/` back.
pub proof fn law_plain_repo_paths_normalize_to_themselves(segs: Seq<Seq<char>>)
    requires
        segs.len() >= 1,
        forall|i: int| 0 <= i < segs.len() ==> (#[trigger] segs[i]).len() > 0 && !segs[i].contains('/') && segs[i] != "."@
            && segs[i] != ".."@,
        !(segs.last().len() >= 4 && segs.last().subrange(segs.last().len() - 4, segs.last().len() as int) == ".git"@),
    ensures
        normalize_repo_path_spec(join(segs, "/"@)) == Ok::<Seq<char>, RemoteErrorView>(join(segs, "/"@)),
{
    let p = join(segs, "/"@);
    crate::paths::lemma_split_join(segs);
    lemma_join_shape(segs);
    assert(crate::text::trim_start_char(p, '/') == p) by {
        assert(p[0] == segs[0][0]);
        if segs[0][0] == '/' {
            assert(segs[0].contains('/'));
        }
    }
    reveal_strlit(".git");
    assert(trim_git_suffix(p) == p) by {
        if p.len() >= 4 && p.subrange(p.len() - 4, p.len() as int) == ".git"@ {
            let l = segs.last();
            if l.len() >= 4 {
                assert(p.subrange(p.len() - 4, p.len() as int) =~= l.subrange(l.len() - 4, l.len() as int));
            } else {
                let k = p.len() - l.len() - 1;
                assert(p[k] == '/');
                assert(p.subrange(p.len() - 4, p.len() as int)[k - (p.len() - 4)] == '/');
            }
        }
    }
    lemma_non_empty_segments_keep_all(segs);
    law_only_dot_segments_are_refused(segs);
}

proof fn lemma_trim_leading_slashes(n: nat, p: Seq<char>)
    ensures
        crate::text::trim_start_char(Seq::new(n, |i: int| '/') + p, '/') == crate::text::trim_start_char(p, '/'),
    decreases n,
{
    let s = Seq::new(n, |i: int| '/') + p;
    if n > 0 {
        assert(s[0] == '/');
        assert(s.drop_first() =~= Seq::new((n - 1) as nat, |i: int| '/') + p);
        lemma_trim_leading_slashes((n - 1) as nat, p);
    } else {
        assert(s =~= p);
    }
}

/// Leading slashes and a trailing `.git` are not part of the repository path:
/// names that are non-empty, hold no `/`, are neither `.` nor `..`, the last
/// not ending in `.git`, joined by `/`, with any number of `/` before them and
/// with or without `.git` after them, normalize to the names joined by `/`.
pub proof fn law_leading_slashes_and_git_suffix_dropped(segs: Seq<Seq<char>>, slashes: nat)
    requires
        segs.len() >= 1,
        forall|i: int| 0 <= i < segs.len() ==> (#[trigger] segs[i]).len() > 0 && !segs[i].contains('/') && segs[i] != "."@
            && segs[i] != ".."@,
        !(segs.last().len() >= 4 && segs.last().subrange(segs.last().len() - 4, segs.last().len() as int) == ".git"@),
    ensures
        normalize_repo_path_spec(Seq::new(slashes, |i: int| '/') + join(segs, "/"@)) == Ok::<Seq<char>, RemoteErrorView>(
            join(segs, "/"@),
        ),
        normalize_repo_path_spec(Seq::new(slashes, |i: int| '/') + join(segs, "/"@) + ".git"@) == Ok::<
            Seq<char>,
            RemoteErrorView,
        >(join(segs, "/"@)),
{
    let p = join(segs, "/"@);
    law_plain_repo_paths_normalize_to_themselves(segs);
    lemma_join_shape(segs);
    assert(crate::text::trim_start_char(p, '/') == p) by {
        assert(p[0] == segs[0][0]);
        if segs[0][0] == '/' {
            assert(segs[0].contains('/'));
        }
    }
    lemma_trim_leading_slashes(slashes, p);
    reveal_strlit(".git");
    let g = p + ".git"@;
    lemma_trim_leading_slashes(slashes, g);
    assert(Seq::new(slashes, |i: int| '/') + p + ".git"@ =~= Seq::new(slashes, |i: int| '/') + g);
    assert(crate::text::trim_start_char(g, '/') == g) by {
        assert(g[0] == p[0]);
    }
    assert(g.subrange(g.len() - 4, g.len() as int) =~= ".git"@);
    assert(g.subrange(0, g.len() - 4) =~= p);
    assert(trim_git_suffix(g) == trim_git_suffix(p));
}

/// The pieces with an empty piece between each two: what splitting them joined
/// by `//` at `/` gives.
pub open spec fn spaced(segs: Seq<Seq<char>>) -> Seq<Seq<char>>
    decreases segs.len(),
{
    if segs.len() <= 1 {
        segs
    } else {
        spaced(segs.drop_last()).push(Seq::empty()).push(segs.last())
    }
}

proof fn lemma_spaced(segs: Seq<Seq<char>>)
    requires
        segs.len() >= 1,
        forall|i: int| 0 <= i < segs.len() ==> (#[trigger] segs[i]).len() > 0 && !segs[i].contains('/'),
    ensures
        spaced(segs).len() >= 1,
        spaced(segs)[0] == segs[0],
        spaced(segs).last() == segs.last(),
        segs.len() >= 2 ==> spaced(segs).len() >= 2,
        forall|i: int| 0 <= i < spaced(segs).len() ==> !(#[trigger] spaced(segs)[i]).contains('/'),
        join(spaced(segs), "/"@) == join(segs, "//"@),
        non_empty_segments(spaced(segs)) == segs,
    decreases segs.len(),
{
    reveal_strlit("/");
    reveal_strlit("//");
    if segs.len() == 1 {
        assert(segs[0].len() > 0);
        assert(non_empty_segments(segs.drop_last()) =~= Seq::<Seq<char>>::empty());
        assert(Seq::<Seq<char>>::empty().push(segs.last()) =~= segs);
    } else {
        let init = segs.drop_last();
        assert forall|i: int| 0 <= i < init.len() implies (#[trigger] init[i]).len() > 0 && !init[i].contains('/') by {
            assert(init[i] == segs[i]);
        }
        lemma_spaced(init);
        let x = spaced(init);
        let e = Seq::<char>::empty();
        let l = segs.last();
        let y = x.push(e);
        let z = y.push(l);
        assert(z.drop_last() =~= y);
        assert(y.drop_last() =~= x);
        assert(y[0] == x[0]);
        assert(!l.contains('/')) by {
            assert(segs[segs.len() - 1] == l);
        }
        assert forall|i: int| 0 <= i < z.len() implies !(#[trigger] z[i]).contains('/') by {
            if i < x.len() {
                assert(z[i] == x[i]);
            } else if i == x.len() {
                assert(z[i] == e);
            }
        }
        assert(join(z, "/"@) == join(y, "/"@) + "/"@ + l);
        assert(join(y, "/"@) == join(x, "/"@) + "/"@ + e);
        assert(join(segs, "//"@) == join(init, "//"@) + "//"@ + l);
        assert(join(z, "/"@) =~= join(segs, "//"@));
        assert(segs[segs.len() - 1].len() > 0);
        assert(non_empty_segments(y) == non_empty_segments(x));
        assert(non_empty_segments(z) == non_empty_segments(y).push(l));
        assert(init.push(l) =~= segs);
    }
}

/// Empty segments are dropped: names as in
/// [`law_plain_repo_paths_normalize_to_themselves`] joined by `//` normalize to
/// the names joined by `/`.
pub proof fn law_empty_segments_dropped(segs: Seq<Seq<char>>)
    requires
        segs.len() >= 1,
        forall|i: int| 0 <= i < segs.len() ==> (#[trigger] segs[i]).len() > 0 && !segs[i].contains('/') && segs[i] != "."@
            && segs[i] != ".."@,
        !(segs.last().len() >= 4 && segs.last().subrange(segs.last().len() - 4, segs.last().len() as int) == ".git"@),
    ensures
        normalize_repo_path_spec(join(segs, "//"@)) == Ok::<Seq<char>, RemoteErrorView>(join(segs, "/"@)),
{
    lemma_spaced(segs);
    let sp = spaced(segs);
    let p = join(sp, "/"@);
    crate::paths::lemma_split_join(sp);
    lemma_join_shape(sp);
    assert(crate::text::trim_start_char(p, '/') == p) by {
        assert(p[0] == segs[0][0]);
        if segs[0][0] == '/' {
            assert(segs[0].contains('/'));
        }
    }
    reveal_strlit(".git");
    assert(trim_git_suffix(p) == p) by {
        if p.len() >= 4 && p.subrange(p.len() - 4, p.len() as int) == ".git"@ {
            let l = sp.last();
            if l.len() >= 4 {
                assert(p.subrange(p.len() - 4, p.len() as int) =~= l.subrange(l.len() - 4, l.len() as int));
            } else {
                let k = p.len() - l.len() - 1;
                assert(p[k] == '/');
                assert(p.subrange(p.len() - 4, p.len() as int)[k - (p.len() - 4)] == '/');
            }
        }
    }
    law_only_dot_segments_are_refused(segs);
}

/// Pieces joined with `/` begin with the first piece and end with `/` and the
/// last one.
proof fn lemma_join_shape(segs: Seq<Seq<char>>)
    requires
        segs.len() >= 1,
        segs[0].len() > 0,
    ensures
        join(segs, "/"@).len() >= segs.last().len(),
        join(segs, "/"@)[0] == segs[0][0],
        join(segs, "/"@).subrange(join(segs, "/"@).len() - segs.last().len(), join(segs, "/"@).len() as int) == segs.last(),
        segs.len() >= 2 ==> join(segs, "/"@).len() > segs.last().len() && join(segs, "/"@)[join(segs, "/"@).len() - segs.last().len() - 1] == '/',
    decreases segs.len(),
{
    reveal_strlit("/");
    if segs.len() == 1 {
        assert(join(segs, "/"@) == segs[0]);
        assert(segs[0].subrange(0, segs[0].len() as int) =~= segs[0]);
    } else {
        let init = segs.drop_last();
        assert(init[0] == segs[0]);
        lemma_join_shape(init);
        let j = join(init, "/"@);
        let p = join(segs, "/"@);
        assert(p == j + "/"@ + segs.last());
        assert(p[0] == j[0]);
        assert(p.subrange(p.len() - segs.last().len(), p.len() as int) =~= segs.last());
    }
}

pub open spec fn remote_result_view(r: Result<String, RemoteError>) -> Result<Seq<char>, RemoteErrorView> {
    match r {
        Ok(s) => Ok(s@),
        Err(e) => Err(e@),
    }
}

/// The end of `v[lo..hi]` with every trailing `.git` removed.
fn trim_git_end(v: &Vec<char>, lo: usize, hi: usize) -> (r: usize)
    requires
        lo <= hi <= v@.len(),
    ensures
        lo <= r <= hi,
        v@.subrange(lo as int, r as int) == trim_git_suffix(v@.subrange(lo as int, hi as int)),
{
    let ghost top = hi;
    let mut hi = hi;
    let ghost start = v@.subrange(lo as int, hi as int);
    while hi - lo >= 4 && v[hi - 4] == '.' && v[hi - 3] == 'g' && v[hi - 2] == 'i' && v[hi - 1] == 't'
        invariant
            lo <= hi <= top <= v@.len(),
            trim_git_suffix(start) == trim_git_suffix(v@.subrange(lo as int, hi as int)),
        decreases hi - lo,
    {
        proof {
            reveal_strlit(".git");
        }
        let ghost s = v@.subrange(lo as int, hi as int);
        assert(s.subrange(s.len() - 4, s.len() as int) =~= ".git"@);
        assert(s.subrange(0, s.len() - 4) =~= v@.subrange(lo as int, hi - 4));
        hi = hi - 4;
    }
    proof {
        reveal_strlit(".git");
        let s = v@.subrange(lo as int, hi as int);
        if s.len() >= 4 && s.subrange(s.len() - 4, s.len() as int) == ".git"@ {
            assert(s.subrange(s.len() - 4, s.len() as int)[0] == '.');
            assert(s.subrange(s.len() - 4, s.len() as int)[1] == 'g');
            assert(s.subrange(s.len() - 4, s.len() as int)[2] == 'i');
            assert(s.subrange(s.len() - 4, s.len() as int)[3] == 't');
        }
    }
    hi
}

/// The non-empty `/`-separated pieces of a text.
pub(crate) fn non_empty_parts(text: &str) -> (r: Vec<String>)
    ensures
        strs_view(r@) == non_empty_segments(split_on(text@, '/')),
{
    let parts = split_char(text, '/');
    let ghost pv = strs_view(parts@);
    let mut segs: Vec<String> = Vec::new();
    let mut i: usize = 0;
    assert(pv.take(0) =~= Seq::<Seq<char>>::empty());
    assert(strs_view(segs@) =~= Seq::<Seq<char>>::empty());
    while i < parts.len()
        invariant
            i <= parts@.len(),
            pv == strs_view(parts@),
            strs_view(segs@) == non_empty_segments(pv.take(i as int)),
        decreases parts.len() - i,
    {
        assert(pv.take(i + 1).drop_last() =~= pv.take(i as int));
        assert(pv.take(i + 1).last() == parts@[i as int]@);
        if !parts[i].as_str().is_empty() {
            let ghost before = strs_view(segs@);
            segs.push(parts[i].clone());
            assert(strs_view(segs@) =~= before.push(parts@[i as int]@));
        }
        i += 1;
    }
    assert(pv.take(parts@.len() as int) =~= pv);
    segs
}

/// The first segment that is `.` or `..` (see [`first_dot_segment`]).
pub(crate) fn find_dot_segment(segs: &Vec<String>) -> (r: Option<String>)
    ensures
        match r {
            Some(s) => first_dot_segment(strs_view(segs@)) == Some(s@),
            None => first_dot_segment(strs_view(segs@)) is None,
        },
{
    let ghost sv = strs_view(segs@);
    let mut k: usize = 0;
    assert(sv.skip(0) =~= sv);
    while k < segs.len()
        invariant
            k <= segs@.len(),
            sv == strs_view(segs@),
            first_dot_segment(sv) == first_dot_segment(sv.skip(k as int)),
        decreases segs.len() - k,
    {
        assert(sv.skip(k as int)[0] == segs@[k as int]@);
        assert(sv.skip(k as int).drop_first() =~= sv.skip(k + 1));
        if str_eq(segs[k].as_str(), ".") || str_eq(segs[k].as_str(), "..") {
            return Some(segs[k].clone());
        }
        k += 1;
    }
    assert(sv.skip(segs@.len() as int) =~= Seq::<Seq<char>>::empty());
    None
}

/// Normalizes a repository path (see [`normalize_repo_path_spec`]).
pub fn normalize_repo_path(path: &str) -> (r: Result<String, RemoteError>)
    ensures
        remote_result_view(r) == normalize_repo_path_spec(path@),
{
    let v = crate::text::to_chars(path);
    let mut lo: usize = 0;
    assert(v@.subrange(0, v@.len() as int) =~= v@);
    while lo < v.len() && v[lo] == '/'
        invariant
            lo <= v@.len(),
            v@ == path@,
            crate::text::trim_start_char(path@, '/') == crate::text::trim_start_char(v@.subrange(lo as int, v@.len() as int), '/'),
        decreases v.len() - lo,
    {
        assert(v@.subrange(lo as int, v@.len() as int).drop_first() =~= v@.subrange(lo + 1, v@.len() as int));
        lo += 1;
    }
    let hi = trim_git_end(&v, lo, v.len());
    let trimmed = crate::text::string_from_range(&v, lo, hi);
    let segs = non_empty_parts(trimmed.as_str());
    if segs.len() == 0 {
        return Err(RemoteError::EmptyPath);
    }
    match find_dot_segment(&segs) {
        Some(s) => Err(RemoteError::InvalidSegment(s)),
        None => Ok(join_strings(&segs, "/")),
    }
}

pub open spec fn spec_result_view(r: Result<RemoteSpec, RemoteError>) -> Result<(Seq<char>, Seq<char>), RemoteErrorView> {
    match r {
        Ok(s) => Ok((s.host@, s.repo_path@)),
        Err(e) => Err(e@),
    }
}

/// The pattern of an scp-like remote: an optional `user@`, the host up to `:`,
/// then the path.
pub open spec fn scp_pattern() -> Seq<char> {
    "^(?:[^@]+@)?(?P<host>[^:]+):(?P<path>.+)$"@
}

/// A remote from the parts of a URL: the host (`local` for a `file` URL
/// without one; refused where there is none) and the normalized path.
pub open spec fn url_remote_spec(scheme: Seq<char>, host: Option<Seq<char>>, path: Seq<char>) -> Result<
    (Seq<char>, Seq<char>),
    RemoteErrorView,
> {
    let h = if scheme == "file"@ {
        match host {
            Some(h) => Some(h),
            None => Some("local"@),
        }
    } else {
        host
    };
    match h {
        None => Err(RemoteErrorView::MissingHost),
        Some(h) => match normalize_repo_path_spec(path) {
            Ok(p) => Ok((h, p)),
            Err(e) => Err(e),
        },
    }
}

/// A remote from what the scp-like pattern captured in the trimmed remote `r`:
/// the host and the normalized path, where both groups matched; else refused.
pub open spec fn scp_remote_spec(r: Seq<char>, captures: Option<(Option<Seq<char>>, Option<Seq<char>>)>) -> Result<
    (Seq<char>, Seq<char>),
    RemoteErrorView,
> {
    match captures {
        Some((Some(h), Some(p))) => match normalize_repo_path_spec(p) {
            Ok(p) => Ok((h, p)),
            Err(e) => Err(e),
        },
        _ => Err(RemoteErrorView::UnsupportedFormat(r)),
    }
}

/// A remote parsed: trimmed; refused when empty; a URL gives its host (`local`
/// for a `file` URL without one) and path; otherwise the scp-like pattern gives
/// them. The path is normalized in both cases.
pub open spec fn parse_remote_spec(remote: Seq<char>) -> Result<(Seq<char>, Seq<char>), RemoteErrorView> {
    let r = trim(remote);
    if r.len() == 0 {
        Err(RemoteErrorView::Empty)
    } else {
        match url_parts(r) {
            Some((scheme, host, path)) => url_remote_spec(scheme, host, path),
            None => scp_remote_spec(r, match scp_captures(r) {
                Some((h, p)) => Some((Some(h), Some(p))),
                None => None,
            }),
        }
    }
}

pub open spec fn opt_str_view(o: Option<String>) -> Option<Seq<char>> {
    match o {
        Some(s) => Some(s@),
        None => None,
    }
}

/// A remote from the scheme, host and path of a parsed URL (see
/// [`url_remote_spec`]).
pub fn remote_from_url_parts(scheme: &str, host: Option<String>, path: &str) -> (r: Result<RemoteSpec, RemoteError>)
    ensures
        spec_result_view(r) == url_remote_spec(scheme@, opt_str_view(host), path@),
{
    let host = if str_eq(scheme, "file") {
        match host {
            Some(h) => Some(h),
            None => Some("local".to_owned()),
        }
    } else {
        host
    };
    match host {
        None => Err(RemoteError::MissingHost),
        Some(h) => match normalize_repo_path(path) {
            Ok(p) => Ok(RemoteSpec { host: h, repo_path: p }),
            Err(e) => Err(e),
        },
    }
}

/// A remote from the groups the scp-like pattern captured in the trimmed
/// remote `remote` (see [`scp_remote_spec`]).
pub fn remote_from_scp_captures(remote: String, captures: Option<(Option<String>, Option<String>)>) -> (r: Result<
    RemoteSpec,
    RemoteError,
>)
    ensures
        spec_result_view(r) == scp_remote_spec(remote@, match captures {
            Some((a, b)) => Some((opt_str_view(a), opt_str_view(b))),
            None => None,
        }),
{
    match captures {
        Some((Some(h), Some(p))) => match normalize_repo_path(p.as_str()) {
            Ok(p) => Ok(RemoteSpec { host: h, repo_path: p }),
            Err(e) => Err(e),
        },
        _ => Err(RemoteError::UnsupportedFormat(remote)),
    }
}

/// Parses a git remote into a host and a repository path (see
/// [`parse_remote_spec`]).
pub fn parse_remote(remote: &str) -> (r: Result<RemoteSpec, RemoteError>)
    ensures
        spec_result_view(r) == parse_remote_spec(remote@),
{
    let remote = trim_string(remote);
    if remote.as_str().is_empty() {
        return Err(RemoteError::Empty);
    }
    match parse_url_parts(remote.as_str()) {
        Some((scheme, host, path)) => remote_from_url_parts(scheme.as_str(), host, path.as_str()),
        None => {
            let captures = named_captures(
                "^(?:[^@]+@)?(?P<host>[^:]+):(?P<path>.+)$",
                remote.as_str(),
                "host",
                "path",
            );
            remote_from_scp_captures(remote, captures)
        },
    }
}

proof fn lemma_first_from_is(t: Seq<char>, c: char, from: int, i: int)
    requires
        0 <= from <= i < t.len(),
        t[i] == c,
        forall|j: int| from <= j < i ==> t[j] != c,
    ensures
        first_from(t, c, from) == Some(i),
{
    let k = choose|k: int| from <= k < t.len() && t[k] == c && forall|j: int| from <= j < k ==> t[j] != c;
    if k < i {
        assert(t[k] != c);
    }
    if k > i {
        assert(t[i] != c);
    }
}

proof fn lemma_scp_parts(user: Seq<char>, host: Seq<char>, path: Seq<char>)
    requires
        user.len() > 0,
        !user.contains('@'),
        !crate::text::is_whitespace(user[0]),
        host.len() > 0,
        !host.contains(':'),
        path.len() > 0,
        !path.contains('\n'),
        !crate::text::is_whitespace(path.last()),
    ensures
        trim(user + seq!['@'] + host + seq![':'] + path) == user + seq!['@'] + host + seq![':'] + path,
        scp_captures(user + seq!['@'] + host + seq![':'] + path) == Some((host, path)),
{
    let r = user + seq!['@'] + host + seq![':'] + path;
    let a = user.len() as int;
    let c = a + 1 + host.len();
    assert(r[a] == '@');
    assert(r[c] == ':');
    assert(trim(r) == r) by {
        assert(r[0] == user[0]);
        assert(r.last() == path.last());
    }
    assert forall|j: int| 0 <= j < a implies r[j] != '@' by {
        assert(r[j] == user[j]);
        if user[j] == '@' {
            assert(user.contains('@'));
        }
    }
    lemma_first_from_is(r, '@', 0, a);
    assert forall|j: int| a + 1 <= j < c implies r[j] != ':' by {
        assert(r[j] == host[j - a - 1]);
        if host[j - a - 1] == ':' {
            assert(host.contains(':'));
        }
    }
    lemma_first_from_is(r, ':', a + 1, c);
    assert(r.subrange(a + 1, c) =~= host);
    assert(r.skip(c + 1) =~= path);
    assert(scp_host_path(r, a + 1) == Some((host, path)));
}

/// An scp-like remote `user@host:path` that is no URL names `host`, and its
/// path normalized: the user is dropped, the host ends at the first `:`, and
/// the rest is the path.
pub proof fn law_scp_remote_parts(user: Seq<char>, host: Seq<char>, path: Seq<char>)
    requires
        user.len() > 0,
        !user.contains('@'),
        !crate::text::is_whitespace(user[0]),
        host.len() > 0,
        !host.contains(':'),
        path.len() > 0,
        !path.contains('\n'),
        !crate::text::is_whitespace(path.last()),
        url_parts(user + seq!['@'] + host + seq![':'] + path) is None,
    ensures
        parse_remote_spec(user + seq!['@'] + host + seq![':'] + path) == match normalize_repo_path_spec(path) {
            Ok(p) => Ok::<(Seq<char>, Seq<char>), RemoteErrorView>((host, p)),
            Err(e) => Err(e),
        },
{
    lemma_scp_parts(user, host, path);
}

} // verus!

