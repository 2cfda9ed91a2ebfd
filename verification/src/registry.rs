//! The registry of known repositories, keyed by checkout path, and the jump
//! list built from it.
use crate::text::{push_char, push_str, split_char, split_on, strs_view, trim, trim_string};
use crate::value_map::{
    key_index, lemma_insert_entry, lemma_lex_lt_total, lemma_lex_lt_transitive, lemma_remove_entry,
    lemma_sorted_index, lemma_update_entry, lex_lt, pairs_map, pairs_sorted, str_lt, has_key,
};
use vstd::prelude::*;

verus! {

#[verifier::external_type_specification]
#[verifier::external_body]
pub struct ExOffsetDateTime(time::OffsetDateTime);

/// How a repository came into the registry.
#[derive(Debug, Clone, Copy, PartialEq, Eq, Structural)]
pub enum SourceKind {
    Clone,
    Import,
    Scan,
}

/// One known repository.
pub struct ProjectRecord {
    pub name: String,
    pub host: String,
    pub repo_path: String,
    pub path: String,
    pub origin: String,
    pub source_kind: SourceKind,
    pub last_seen: time::OffsetDateTime,
}

/// The known repositories, one per checkout path, in ascending path order.
pub struct Registry {
    projects: Vec<ProjectRecord>,
}

/// Records keyed by their path.
pub open spec fn keyed(rs: Seq<ProjectRecord>) -> Seq<(Seq<char>, ProjectRecord)> {
    rs.map_values(|r: ProjectRecord| (r.path@, r))
}

impl Registry {
    #[verifier::type_invariant]
    spec fn sorted(&self) -> bool {
        pairs_sorted(keyed(self.projects@))
    }

    /// The records in ascending path order.
    pub closed spec fn records(&self) -> Seq<ProjectRecord> {
        self.projects@
    }

    /// The registry as a map from checkout path to record.
    pub open spec fn view(&self) -> Map<Seq<char>, ProjectRecord> {
        pairs_map(keyed(self.records()))
    }

    /// An empty registry.
    pub fn new() -> (r: Self)
        ensures
            r@ == Map::<Seq<char>, ProjectRecord>::empty(),
    {
        let r = Registry { projects: Vec::new() };
        assert(r@ =~= Map::<Seq<char>, ProjectRecord>::empty());
        r
    }

    /// Stores `record` under its path, replacing the record there.
    pub fn upsert(&mut self, record: ProjectRecord)
        ensures
            final(self)@ == old(self)@.insert(record.path@, record),
    {
        proof {
            use_type_invariant(&*self);
        }
        let ghost ps = keyed(self.projects@);
        let mut p: usize = 0;
        while p < self.projects.len() && str_lt(self.projects[p].path.as_str(), record.path.as_str())
            invariant
                p <= self.projects@.len(),
                ps == keyed(self.projects@),
                pairs_sorted(ps),
                forall|j: int| 0 <= j < p ==> lex_lt(#[trigger] ps[j].0, record.path@),
            decreases self.projects.len() - p,
        {
            p += 1;
        }
        let ghost k = record.path@;
        let ghost rec = record;
        let mut projects = Vec::new();
        std::mem::swap(&mut projects, &mut self.projects);
        assert(keyed(projects@) == ps);
        if p < projects.len() && crate::text::str_eq(projects[p].path.as_str(), record.path.as_str()) {
            proof {
                lemma_update_entry(ps, p as int, rec);
            }
            projects.set(p, record);
            assert(keyed(projects@) =~= ps.update(p as int, (ps[p as int].0, rec)));
            self.projects = projects;
        } else {
            proof {
                if p < ps.len() {
                    assert(!lex_lt(ps[p as int].0, k));
                    lemma_lex_lt_total(ps[p as int].0, k);
                    assert forall|j: int| p <= j < ps.len() implies lex_lt(k, #[trigger] ps[j].0) by {
                        if j > p {
                            lemma_lex_lt_transitive(k, ps[p as int].0, ps[j].0);
                        }
                    }
                }
                lemma_insert_entry(ps, p as int, k, rec);
            }
            projects.insert(p, record);
            assert(keyed(projects@) =~= ps.insert(p as int, (k, rec)));
            self.projects = projects;
        }
    }

    /// Removes and returns the record stored under `path`.
    pub fn remove_path(&mut self, path: &str) -> (r: Option<ProjectRecord>)
        ensures
            final(self)@ == old(self)@.remove(path@),
            match r {
                Some(x) => old(self)@.contains_key(path@) && old(self)@[path@] == x,
                None => !old(self)@.contains_key(path@),
            },
    {
        proof {
            use_type_invariant(&*self);
        }
        let ghost ps = keyed(self.projects@);
        let mut i: usize = 0;
        while i < self.projects.len()
            invariant
                i <= self.projects@.len(),
                ps == keyed(self.projects@),
                self.projects@ == old(self).projects@,
                pairs_sorted(ps),
                forall|j: int| 0 <= j < i ==> (#[trigger] ps[j]).0 != path@,
            decreases self.projects.len() - i,
        {
            if crate::text::str_eq(self.projects[i].path.as_str(), path) {
                proof {
                    lemma_remove_entry(ps, i as int);
                    lemma_sorted_index(ps, i as int);
                }
                let mut projects = Vec::new();
                std::mem::swap(&mut projects, &mut self.projects);
                let removed = projects.remove(i);
                assert(keyed(projects@) =~= ps.remove(i as int));
                self.projects = projects;
                return Some(removed);
            }
            i += 1;
        }
        proof {
            if has_key(ps, path@) {
                let j = key_index(ps, path@);
                assert(ps[j].0 == path@);
            }
            assert(pairs_map(ps).remove(path@) =~= pairs_map(ps));
        }
        None
    }

    /// The records in ascending path order.
    pub fn entries(&self) -> (r: Vec<&ProjectRecord>)
        ensures
            r@.len() == self.records().len(),
            forall|i: int| 0 <= i < r@.len() ==> *(#[trigger] r@[i]) == self.records()[i],
            forall|i: int, j: int| 0 <= i < j < r@.len() ==> lex_lt((#[trigger] r@[i]).path@, (#[trigger] r@[j]).path@),
            forall|i: int| 0 <= i < r@.len() ==> self@.contains_key((#[trigger] r@[i]).path@) && self@[r@[i].path@] == *r@[i],
            forall|k: Seq<char>| self@.contains_key(k) ==> exists|i: int| 0 <= i < r@.len() && (#[trigger] r@[i]).path@ == k,
    {
        proof {
            use_type_invariant(self);
        }
        let ghost ps = keyed(self.projects@);
        let mut r: Vec<&ProjectRecord> = Vec::new();
        let mut i: usize = 0;
        while i < self.projects.len()
            invariant
                i <= self.projects@.len(),
                r@.len() == i,
                forall|j: int| 0 <= j < i ==> *(#[trigger] r@[j]) == self.projects@[j],
            decreases self.projects.len() - i,
        {
            r.push(&self.projects[i]);
            i += 1;
        }
        proof {
            assert forall|a: int, b: int| 0 <= a < b < r@.len() implies lex_lt((#[trigger] r@[a]).path@, (#[trigger] r@[b]).path@) by {
                assert(ps[a].0 == r@[a].path@ && ps[b].0 == r@[b].path@);
            }
            assert forall|a: int| 0 <= a < r@.len() implies self@.contains_key((#[trigger] r@[a]).path@) && self@[r@[a].path@] == *r@[a] by {
                lemma_sorted_index(ps, a);
            }
            assert forall|k: Seq<char>| self@.contains_key(k) implies exists|a: int| 0 <= a < r@.len() && (#[trigger] r@[a]).path@ == k by {
                let a = key_index(ps, k);
                assert(r@[a].path@ == k);
            }
        }
        r
    }
}

/// The arguments `jumpto` starts `fzf` with.
pub open spec fn fzf_args() -> Seq<Seq<char>> {
    seq![
        "--select-1"@,
        "--exit-0"@,
        "--delimiter=\t"@,
        "--with-nth=1"@,
        "--layout=reverse"@,
        "--height=70%"@,
        "--border"@,
        "--prompt=jumpto > "@,
        "--pointer=›"@,
        "--marker=•"@,
        "--header=Open a repository"@,
        "--info=inline-right"@,
        "--preview-window=hidden"@,
        "--color=border:8,header:12,prompt:10,pointer:14,marker:11,info:8,spinner:10,hl:14,hl+:14"@,
    ]
}

/// The path fzf's output selects: nothing where the trimmed output is empty;
/// otherwise the second tab-separated field of it, refused where there is none.
pub open spec fn selected_path_spec(output: Seq<char>) -> Result<Option<Seq<char>>, Seq<char>> {
    let t = trim(output);
    if t.len() == 0 {
        Ok(None)
    } else if split_on(t, '\t').len() < 2 {
        Err("fzf returned an invalid selection"@)
    } else {
        Ok(Some(split_on(t, '\t')[1]))
    }
}

/// The path fzf's output selects (see [`selected_path_spec`]).
pub fn jumpto_selected_path(output: &str) -> (r: Result<Option<String>, String>)
    ensures
        match r {
            Ok(Some(p)) => selected_path_spec(output@) == Ok::<Option<Seq<char>>, Seq<char>>(Some(p@)),
            Ok(None) => selected_path_spec(output@) == Ok::<Option<Seq<char>>, Seq<char>>(None),
            Err(m) => selected_path_spec(output@) == Err::<Option<Seq<char>>, Seq<char>>(m@),
        },
{
    let selected = trim_string(output);
    if selected.as_str().is_empty() {
        return Ok(None);
    }
    let parts = split_char(selected.as_str(), '\t');
    if parts.len() < 2 {
        return Err("fzf returned an invalid selection".to_owned());
    }
    assert(strs_view(parts@)[1] == parts@[1]@);
    Ok(Some(parts[1].clone()))
}

/// The arguments `jumpto` starts `fzf` with (see [`fzf_args`]).
pub fn jumpto_fzf_args() -> (r: Vec<&'static str>)
    ensures
        r@.map_values(|s: &str| s@) == fzf_args(),
{
    let r: Vec<&'static str> = vec![
        "--select-1",
        "--exit-0",
        "--delimiter=\t",
        "--with-nth=1",
        "--layout=reverse",
        "--height=70%",
        "--border",
        "--prompt=jumpto > ",
        "--pointer=›",
        "--marker=•",
        "--header=Open a repository",
        "--info=inline-right",
        "--preview-window=hidden",
        "--color=border:8,header:12,prompt:10,pointer:14,marker:11,info:8,spinner:10,hl:14,hl+:14",
    ];
    assert(r@.map_values(|s: &str| s@) =~= fzf_args());
    r
}

/// `n` spaces.
pub open spec fn spaces(n: nat) -> Seq<char> {
    Seq::new(n, |i: int| ' ')
}

/// `s` padded on the right with spaces to `width` characters.
pub open spec fn pad_right(s: Seq<char>, width: nat) -> Seq<char> {
    if s.len() < width {
        s + spaces((width - s.len()) as nat)
    } else {
        s
    }
}

/// The widest name.
pub open spec fn max_name_width(rs: Seq<ProjectRecord>) -> nat
    decreases rs.len(),
{
    if rs.len() == 0 {
        0
    } else {
        let w = max_name_width(rs.drop_last());
        if rs.last().name@.len() > w {
            rs.last().name@.len()
        } else {
            w
        }
    }
}

/// One line of the jump list: the name padded to `width`, two spaces,
/// `host/repo_path`, a tab, and the checkout path.
pub open spec fn candidate_line(r: ProjectRecord, width: nat) -> Seq<char> {
    pad_right(r.name@, width) + "  "@ + r.host@ + "/"@ + r.repo_path@ + "\t"@ + r.path@
}

/// The jump list, names aligned in one column (see [`candidate_line`]).
pub fn render_jumpto_candidates(records: Vec<&ProjectRecord>) -> (r: Vec<String>)
    ensures
        r@.len() == records@.len(),
        forall|i: int| 0 <= i < r@.len() ==> (#[trigger] r@[i])@ == candidate_line(
            *records@[i],
            max_name_width(records@.map_values(|x: &ProjectRecord| *x)),
        ),
{
    let ghost rs = records@.map_values(|x: &ProjectRecord| *x);
    let mut width: usize = 0;
    let mut i: usize = 0;
    assert(rs.take(0) =~= Seq::<ProjectRecord>::empty());
    while i < records.len()
        invariant
            i <= records@.len(),
            rs == records@.map_values(|x: &ProjectRecord| *x),
            width as nat == max_name_width(rs.take(i as int)),
        decreases records.len() - i,
    {
        assert(rs.take(i + 1).drop_last() =~= rs.take(i as int));
        assert(rs.take(i + 1).last() == *records@[i as int]);
        let n = crate::text::to_chars(records[i].name.as_str()).len();
        if n > width {
            width = n;
        }
        i += 1;
    }
    assert(rs.take(records@.len() as int) =~= rs);
    let mut out: Vec<String> = Vec::new();
    let mut j: usize = 0;
    while j < records.len()
        invariant
            j <= records@.len(),
            out@.len() == j,
            width as nat == max_name_width(rs),
            rs == records@.map_values(|x: &ProjectRecord| *x),
            forall|k: int| 0 <= k < j ==> (#[trigger] out@[k])@ == candidate_line(*records@[k], width as nat),
        decreases records.len() - j,
    {
        let rec = records[j];
        let mut line = rec.name.clone();
        let n = crate::text::to_chars(rec.name.as_str()).len();
        let mut pad: usize = n;
        assert(spaces(0) =~= Seq::<char>::empty());
        assert(line@ =~= rec.name@ + spaces(0));
        while pad < width
            invariant
                n <= pad,
                n == rec.name@.len(),
                pad <= width || n >= width,
                n < width ==> pad <= width,
                n >= width ==> pad == n,
                line@ == rec.name@ + spaces((pad - n) as nat),
            decreases width - pad,
        {
            push_char(&mut line, ' ');
            assert(line@ =~= rec.name@ + spaces((pad + 1 - n) as nat));
            pad += 1;
        }
        proof {
            if n >= width {
                assert(spaces(0) =~= Seq::<char>::empty());
                assert(line@ =~= rec.name@);
            } else {
                assert(pad == width);
            }
        }
        push_str(&mut line, "  ");
        push_str(&mut line, rec.host.as_str());
        push_str(&mut line, "/");
        push_str(&mut line, rec.repo_path.as_str());
        push_str(&mut line, "\t");
        push_str(&mut line, rec.path.as_str());
        assert(line@ =~= candidate_line(*records@[j as int], width as nat));
        out.push(line);
        j += 1;
    }
    out
}


/// No name is wider than the widest.
pub proof fn lemma_max_name_width(rs: Seq<ProjectRecord>)
    ensures
        forall|i: int| 0 <= i < rs.len() ==> (#[trigger] rs[i]).name@.len() <= max_name_width(rs),
    decreases rs.len(),
{
    if rs.len() > 0 {
        lemma_max_name_width(rs.drop_last());
        assert forall|i: int| 0 <= i < rs.len() implies (#[trigger] rs[i]).name@.len() <= max_name_width(rs) by {
            if i < rs.len() - 1 {
                assert(rs[i] == rs.drop_last()[i]);
            }
        }
    }
}

/// The jump list's columns line up: every line starts with its record's name
/// padded to the same width, the widest name's.
pub proof fn law_candidate_columns_align(rs: Seq<ProjectRecord>)
    ensures
        forall|i: int| 0 <= i < rs.len() ==> {
            let line = #[trigger] candidate_line(rs[i], max_name_width(rs));
            &&& line.take(max_name_width(rs) as int) == pad_right(rs[i].name@, max_name_width(rs))
            &&& pad_right(rs[i].name@, max_name_width(rs)).len() == max_name_width(rs)
            &&& line.subrange(max_name_width(rs) as int, max_name_width(rs) as int + 2) == "  "@
        },
{
    lemma_max_name_width(rs);
    reveal_strlit("  ");
    assert forall|i: int| 0 <= i < rs.len() implies {
        let line = #[trigger] candidate_line(rs[i], max_name_width(rs));
        &&& line.take(max_name_width(rs) as int) == pad_right(rs[i].name@, max_name_width(rs))
        &&& pad_right(rs[i].name@, max_name_width(rs)).len() == max_name_width(rs)
        &&& line.subrange(max_name_width(rs) as int, max_name_width(rs) as int + 2) == "  "@
    } by {
        let w = max_name_width(rs);
        let p = pad_right(rs[i].name@, w);
        assert(p.len() == w);
        let line = candidate_line(rs[i], w);
        let rest = rs[i].host@ + "/"@ + rs[i].repo_path@ + "\t"@ + rs[i].path@;
        assert(line =~= p + ("  "@ + rest));
        assert(line.take(w as int) =~= p);
        assert(line.subrange(w as int, w as int + 2) =~= "  "@);
    }
}

/// What a registry read gives back of a write: after a record is stored under
/// its path, looking that path up gives the record; removing the path then
/// gives the record back and leaves every other path as it was before the
/// store; storing the same record again changes nothing.
pub proof fn law_upsert_then_remove(before: Map<Seq<char>, ProjectRecord>, record: ProjectRecord)
    ensures
        before.insert(record.path@, record).contains_key(record.path@),
        before.insert(record.path@, record)[record.path@] == record,
        before.insert(record.path@, record).remove(record.path@) == before.remove(record.path@),
        before.insert(record.path@, record).insert(record.path@, record) == before.insert(record.path@, record),
{
    assert(before.insert(record.path@, record).remove(record.path@) =~= before.remove(record.path@));
    assert(before.insert(record.path@, record).insert(record.path@, record) =~= before.insert(record.path@, record));
}

/// Records stored under different paths do not disturb each other: storing
/// one leaves the record under any other path as it was.
pub proof fn law_upsert_keeps_other_paths(before: Map<Seq<char>, ProjectRecord>, record: ProjectRecord, other: Seq<char>)
    requires
        other != record.path@,
    ensures
        before.insert(record.path@, record).contains_key(other) == before.contains_key(other),
        before.contains_key(other) ==> before.insert(record.path@, record)[other] == before[other],
{
}

} // verus!
