use vstd::prelude::*;
use crate::VaultError;
use crate::records::{Project, ProjectV, SecretV, view_opt_string};
use crate::store::{RecordStore, StoreV, active_projects, deleted_projects, has_active_project,
    has_secret, later, lemma_active_projects_push, lemma_deleted_projects_push,
    lemma_remove_project_ordered, lemma_remove_project_push, remove_project, view_projects,
    view_secrets};

verus! {

/// The fields a newly created project carries.
pub open spec fn fresh_project(
    id: i64,
    name: Seq<char>,
    description: Option<Seq<char>>,
    now: u64,
) -> ProjectV {
    ProjectV { id: id, name: name, description: description, created_at: now, deleted_at: None }
}

/// The row, marked deleted at the later of its creation time and `now`.
pub open spec fn mark_project_deleted(p: ProjectV, now: u64) -> ProjectV {
    ProjectV { deleted_at: Some(later(p.created_at, now)), ..p }
}

/// The table with every row of this identifier marked deleted at `now`.
pub open spec fn soft_delete_projects_seq(ps: Seq<ProjectV>, id: i64, now: u64) -> Seq<ProjectV> {
    Seq::new(
        ps.len(),
        |i: int|
            if ps[i].id == id {
                mark_project_deleted(ps[i], now)
            } else {
                ps[i]
            },
    )
}

/// The table with the deletion mark cleared on every row of this
/// identifier.
pub open spec fn restore_projects_seq(ps: Seq<ProjectV>, id: i64) -> Seq<ProjectV> {
    Seq::new(
        ps.len(),
        |i: int|
            if ps[i].id == id {
                ProjectV { deleted_at: None, ..ps[i] }
            } else {
                ps[i]
            },
    )
}

/// The table with name and description replaced on every row of this
/// identifier.
pub open spec fn update_projects_seq(
    ps: Seq<ProjectV>,
    id: i64,
    name: Seq<char>,
    description: Option<Seq<char>>,
) -> Seq<ProjectV> {
    Seq::new(
        ps.len(),
        |i: int|
            if ps[i].id == id {
                ProjectV { name: name, description: description, ..ps[i] }
            } else {
                ps[i]
            },
    )
}

/// The secrets table with every reference to this project cleared.
pub open spec fn detach_secrets(ss: Seq<SecretV>, pid: i64) -> Seq<SecretV> {
    Seq::new(
        ss.len(),
        |i: int|
            if ss[i].project_id == Some(pid) {
                SecretV { project_id: None, ..ss[i] }
            } else {
                ss[i]
            },
    )
}

/// Deleting or trashing a project detaches every secret that referenced
/// it, touches no other secret, and removes none: after the step no
/// secret references the project.
pub proof fn lemma_project_deletion_detaches(ss: Seq<SecretV>, pid: i64)
    ensures
        detach_secrets(ss, pid).len() == ss.len(),
        forall|i: int| 0 <= i < ss.len() ==> (#[trigger] detach_secrets(ss, pid)[i]).project_id
            != Some(pid),
        forall|i: int| 0 <= i < ss.len() && (#[trigger] ss[i]).project_id != Some(pid)
            ==> detach_secrets(ss, pid)[i] == ss[i],
        forall|i: int| 0 <= i < ss.len() && (#[trigger] ss[i]).project_id == Some(pid)
            ==> detach_secrets(ss, pid)[i] == (SecretV { project_id: None, ..ss[i] }),
{
}

/// Lexicographic order on names, by character code — the order a binary
/// collation gives a text column, which is how the listings sort.
pub open spec fn chars_le(a: Seq<char>, b: Seq<char>) -> bool
    decreases a.len(),
{
    if a.len() == 0 {
        true
    } else if b.len() == 0 {
        false
    } else if a.first() == b.first() {
        chars_le(a.drop_first(), b.drop_first())
    } else {
        a.first() < b.first()
    }
}

/// The name order is total: of any two names, one stands at or before the
/// other.
pub proof fn lemma_chars_le_total(a: Seq<char>, b: Seq<char>)
    ensures
        chars_le(a, b) || chars_le(b, a),
    decreases a.len(),
{
    if a.len() == 0 {
    } else if b.len() == 0 {
    } else if a.first() == b.first() {
        lemma_chars_le_total(a.drop_first(), b.drop_first());
    }
}

/// The name order is transitive.
pub proof fn lemma_chars_le_trans(a: Seq<char>, b: Seq<char>, c: Seq<char>)
    requires
        chars_le(a, b),
        chars_le(b, c),
    ensures
        chars_le(a, c),
    decreases a.len(),
{
    if a.len() == 0 {
    } else if b.len() == 0 {
    } else if c.len() == 0 {
    } else if a.first() == b.first() && b.first() == c.first() {
        lemma_chars_le_trans(a.drop_first(), b.drop_first(), c.drop_first());
    }
}

/// Whether one string stands at or before another in the name order.
fn str_le(a: &str, b: &str) -> (r: bool)
    ensures
        r == chars_le(a@, b@),
{
    let an = a.unicode_len();
    let bn = b.unicode_len();
    let mut i: usize = 0;
    proof {
        assert(a@.skip(0) =~= a@);
        assert(b@.skip(0) =~= b@);
    }
    while i < an && i < bn
        invariant
            i <= an,
            i <= bn,
            an == a@.len(),
            bn == b@.len(),
            chars_le(a@, b@) == chars_le(a@.skip(i as int), b@.skip(i as int)),
            chars_le(b@, a@) == chars_le(b@.skip(i as int), a@.skip(i as int)),
        decreases an - i,
    {
        let ca = a.get_char(i);
        let cb = b.get_char(i);
        proof {
            assert(a@.skip(i as int).first() == a@[i as int]);
            assert(b@.skip(i as int).first() == b@[i as int]);
            assert(a@.skip(i as int).drop_first() =~= a@.skip(i as int + 1));
            assert(b@.skip(i as int).drop_first() =~= b@.skip(i as int + 1));
        }
        if ca != cb {
            return ca < cb;
        }
        i = i + 1;
    }
    proof {
        if i >= an {
            assert(a@.skip(i as int).len() == 0);
        } else {
            assert(b@.skip(i as int).len() == 0);
            assert(a@.skip(i as int).len() > 0);
        }
    }
    an <= bn
}

/// The rows stand in ascending name order.
pub open spec fn projects_sorted_by_name(ps: Seq<ProjectV>) -> bool {
    forall|i: int, j: int| 0 <= i < j < ps.len() ==> chars_le(
        (#[trigger] ps[i]).name,
        (#[trigger] ps[j]).name,
    )
}

/// Arrange a table of projects in ascending name order; rows of equal
/// name may come in any order, so the result is pinned as a multiset.
fn sort_projects_by_name(input: Vec<Project>) -> (r: Vec<Project>)
    ensures
        view_projects(r@).to_multiset() == view_projects(input@).to_multiset(),
        projects_sorted_by_name(view_projects(r@)),
{
    let ghost whole = view_projects(input@);
    let mut rest = input;
    let mut out: Vec<Project> = Vec::new();
    proof {
        assert(view_projects(out@) =~= Seq::<ProjectV>::empty());
        view_projects(out@).to_multiset_ensures();
        assert forall|m: ProjectV| view_projects(out@).to_multiset().count(m) == 0 by {
            assert(!view_projects(out@).contains(m));
        }
        broadcast use vstd::multiset::group_multiset_axioms;

        assert(view_projects(out@).to_multiset() =~= vstd::multiset::Multiset::empty());
        assert(view_projects(out@).to_multiset().add(view_projects(rest@).to_multiset())
            =~= whole.to_multiset());
    }
    while rest.len() > 0
        invariant
            projects_sorted_by_name(view_projects(out@)),
            view_projects(out@).to_multiset().add(view_projects(rest@).to_multiset())
                == whole.to_multiset(),
            forall|a: int, b: int|
                0 <= a < out@.len() && 0 <= b < rest@.len() ==> chars_le(
                    (#[trigger] view_projects(out@)[a]).name,
                    (#[trigger] view_projects(rest@)[b]).name,
                ),
        decreases rest.len(),
    {
        let mut min_idx: usize = 0;
        let mut j: usize = 1;
        proof {
            lemma_chars_le_total(rest@[0]@.name, rest@[0]@.name);
        }
        while j < rest.len()
            invariant
                min_idx < j <= rest@.len(),
                forall|k: int| 0 <= k < j ==> chars_le(
                    rest@[min_idx as int]@.name,
                    (#[trigger] rest@[k]@).name,
                ),
            decreases rest.len() - j,
        {
            proof {
                lemma_chars_le_total(rest@[j as int]@.name, rest@[min_idx as int]@.name);
            }
            if str_le(rest[j].name.as_str(), rest[min_idx].name.as_str()) {
                let ghost old_min = min_idx as int;
                min_idx = j;
                proof {
                    assert forall|k: int| 0 <= k < j + 1 implies chars_le(
                        rest@[min_idx as int]@.name,
                        (#[trigger] rest@[k]@).name,
                    ) by {
                        if k < j {
                            lemma_chars_le_trans(
                                rest@[j as int]@.name,
                                rest@[old_min]@.name,
                                rest@[k]@.name,
                            );
                        } else {
                            lemma_chars_le_total(rest@[j as int]@.name, rest@[j as int]@.name);
                        }
                    }
                }
            }
            j = j + 1;
        }
        let ghost old_rest = rest@;
        let ghost old_out = out@;
        let m = rest.remove(min_idx);
        out.push(m);
        proof {
            broadcast use vstd::multiset::group_multiset_axioms;

            view_projects(old_out).to_multiset_ensures();
            view_projects(old_rest).to_multiset_ensures();
            assert(view_projects(old_rest).contains(view_projects(old_rest)[min_idx as int]));
            assert(view_projects(out@) =~= view_projects(old_out).push(
                view_projects(old_rest)[min_idx as int],
            ));
            assert(view_projects(rest@) =~= view_projects(old_rest).remove(min_idx as int));
            assert(view_projects(old_out).push(
                view_projects(old_rest)[min_idx as int],
            ).to_multiset() =~= view_projects(old_out).to_multiset().insert(
                view_projects(old_rest)[min_idx as int],
            ));
            assert(view_projects(out@).to_multiset() =~= view_projects(
                old_out,
            ).to_multiset().insert(view_projects(old_rest)[min_idx as int]));
            assert(view_projects(old_rest).remove(min_idx as int).to_multiset()
                =~= view_projects(old_rest).to_multiset().remove(
                view_projects(old_rest)[min_idx as int],
            ));
            assert(view_projects(rest@).to_multiset() =~= view_projects(
                old_rest,
            ).to_multiset().remove(view_projects(old_rest)[min_idx as int]));
            assert(view_projects(out@).to_multiset().add(view_projects(rest@).to_multiset())
                =~= whole.to_multiset());
            assert forall|a: int, b: int|
                0 <= a < out@.len() && 0 <= b < rest@.len() implies chars_le(
                (#[trigger] view_projects(out@)[a]).name,
                (#[trigger] view_projects(rest@)[b]).name,
            ) by {
                let bv = if b < min_idx {
                    b
                } else {
                    b + 1
                };
                assert(view_projects(rest@)[b] == view_projects(old_rest)[bv]);
                if a < old_out.len() {
                    assert(view_projects(out@)[a] == view_projects(old_out)[a]);
                } else {
                    assert(view_projects(out@)[a] == view_projects(old_rest)[min_idx as int]);
                }
            }
        }
    }
    proof {
        broadcast use vstd::multiset::group_multiset_axioms;

        assert(view_projects(rest@) =~= Seq::<ProjectV>::empty());
        view_projects(rest@).to_multiset_ensures();
        assert forall|m: ProjectV| view_projects(rest@).to_multiset().count(m) == 0 by {
            assert(!view_projects(rest@).contains(m));
        }
        assert(view_projects(rest@).to_multiset() =~= vstd::multiset::Multiset::empty());
        assert(view_projects(out@).to_multiset() =~= whole.to_multiset());
    }
    out
}

/// The first project with this identifier, if any.
pub open spec fn lookup_project(ps: Seq<ProjectV>, id: i64) -> Option<ProjectV>
    decreases ps.len(),
{
    if ps.len() == 0 {
        None
    } else if ps.first().id == id {
        Some(ps.first())
    } else {
        lookup_project(ps.drop_first(), id)
    }
}

impl RecordStore {
    /// Insert a new project with a store-assigned identifier and the
    /// given creation time, and return the identifier. Fails only when
    /// the identifier counter is exhausted, in which case nothing
    /// changes.
    pub fn create_project(&mut self, name: String, description: Option<String>, now: u64) -> (r:
        Result<i64, VaultError>)
        requires
            old(self).wf(),
        ensures
            final(self).wf(),
            old(self)@.next_project_id == i64::MAX ==> r == Err::<i64, VaultError>(
                VaultError::StorageError,
            ) && final(self)@ == old(self)@,
            old(self)@.next_project_id < i64::MAX ==> (r matches Ok(id) && id == old(
                self,
            )@.next_project_id && final(self)@ == (StoreV {
                projects: old(self)@.projects.push(
                    fresh_project(id, name@, view_opt_string(description), now),
                ),
                next_project_id: (old(self)@.next_project_id + 1) as i64,
                ..old(self)@
            })),
    {
        if self.next_project_id == i64::MAX {
            return Err(VaultError::StorageError);
        }
        let id = self.next_project_id;
        let p = Project { id, name, description, created_at: now, deleted_at: None };
        self.projects.push(p);
        self.next_project_id = self.next_project_id + 1;
        proof {
            assert(self@.projects =~= old(self)@.projects.push(
                fresh_project(id, self@.projects.last().name, self@.projects.last().description, now),
            ));
            assert(self@ =~= (StoreV {
                projects: self@.projects,
                next_project_id: (old(self)@.next_project_id + 1) as i64,
                ..old(self)@
            }));
            assert forall|i: int| 0 <= i < self@.secrets.len() implies match (
            #[trigger] self@.secrets[i]).project_id {
                Some(q) => has_active_project(self@.projects, q),
                None => true,
            } by {
                match self@.secrets[i].project_id {
                    Some(q) => {
                        assert(has_active_project(old(self)@.projects, q));
                        let j = choose|j: int|
                            0 <= j < old(self)@.projects.len() && (
                            #[trigger] old(self)@.projects[j]).id == q
                                && old(self)@.projects[j].deleted_at is None;
                        assert(self@.projects[j].id == q);
                    },
                    None => {},
                }
            }
        }
        Ok(id)
    }

    /// The active projects, in ascending name order.
    pub fn get_all_projects(&self) -> (r: Vec<Project>)
        ensures
            view_projects(r@).to_multiset() == active_projects(self@.projects).to_multiset(),
            projects_sorted_by_name(view_projects(r@)),
    {
        let ghost pvs = self@.projects;
        let mut out: Vec<Project> = Vec::new();
        let mut i: usize = 0;
        while i < self.projects.len()
            invariant
                i <= self.projects.len(),
                pvs == self@.projects,
                pvs.len() == self.projects.len(),
                view_projects(out@) == active_projects(pvs.take(i as int)),
            decreases self.projects.len() - i,
        {
            let p = &self.projects[i];
            proof {
                assert(p@ == pvs[i as int]);
                assert(pvs.take(i as int + 1) =~= pvs.take(i as int).push(pvs[i as int]));
                lemma_active_projects_push(pvs.take(i as int), pvs[i as int]);
            }
            if p.deleted_at.is_none() {
                out.push(p.clone());
                proof {
                    assert(view_projects(out@) =~= active_projects(pvs.take(i as int)).push(
                        pvs[i as int],
                    ));
                }
            }
            i = i + 1;
        }
        proof {
            assert(pvs.take(pvs.len() as int) =~= pvs);
        }
        sort_projects_by_name(out)
    }

    /// The trashed projects, in ascending name order.
    pub fn get_deleted_projects(&self) -> (r: Vec<Project>)
        ensures
            view_projects(r@).to_multiset() == deleted_projects(self@.projects).to_multiset(),
            projects_sorted_by_name(view_projects(r@)),
    {
        let ghost pvs = self@.projects;
        let mut out: Vec<Project> = Vec::new();
        let mut i: usize = 0;
        while i < self.projects.len()
            invariant
                i <= self.projects.len(),
                pvs == self@.projects,
                pvs.len() == self.projects.len(),
                view_projects(out@) == deleted_projects(pvs.take(i as int)),
            decreases self.projects.len() - i,
        {
            let p = &self.projects[i];
            proof {
                assert(p@ == pvs[i as int]);
                assert(pvs.take(i as int + 1) =~= pvs.take(i as int).push(pvs[i as int]));
                lemma_deleted_projects_push(pvs.take(i as int), pvs[i as int]);
            }
            if p.deleted_at.is_some() {
                out.push(p.clone());
                proof {
                    assert(view_projects(out@) =~= deleted_projects(pvs.take(i as int)).push(
                        pvs[i as int],
                    ));
                }
            }
            i = i + 1;
        }
        proof {
            assert(pvs.take(pvs.len() as int) =~= pvs);
        }
        sort_projects_by_name(out)
    }

    /// The first project with this identifier, or a storage error when
    /// none exists.
    pub fn get_project(&self, id: i64) -> (r: Result<Project, VaultError>)
        ensures
            r matches Ok(p) ==> lookup_project(self@.projects, id) == Some(p@),
            r is Err ==> lookup_project(self@.projects, id) is None && r == Err::<
                Project,
                VaultError,
            >(VaultError::StorageError),
    {
        let ghost pvs = self@.projects;
        let mut i: usize = 0;
        proof {
            assert(pvs.skip(0) =~= pvs);
        }
        while i < self.projects.len()
            invariant
                i <= self.projects.len(),
                pvs == self@.projects,
                pvs.len() == self.projects.len(),
                lookup_project(pvs, id) == lookup_project(pvs.skip(i as int), id),
            decreases self.projects.len() - i,
        {
            let p = &self.projects[i];
            proof {
                assert(p@ == pvs[i as int]);
                assert(pvs.skip(i as int).first() == pvs[i as int]);
                assert(pvs.skip(i as int).drop_first() =~= pvs.skip(i as int + 1));
            }
            if p.id == id {
                return Ok(p.clone());
            }
            i = i + 1;
        }
        proof {
            assert(pvs.skip(pvs.len() as int) =~= Seq::<ProjectV>::empty());
        }
        Err(VaultError::StorageError)
    }

    /// Replace name and description on every project with this
    /// identifier. A missing identifier changes nothing.
    pub fn update_project(&mut self, id: i64, name: String, description: Option<String>)
        requires
            old(self).wf(),
        ensures
            final(self).wf(),
            final(self)@ == (StoreV {
                projects: update_projects_seq(
                    old(self)@.projects,
                    id,
                    name@,
                    view_opt_string(description),
                ),
                ..old(self)@
            }),
    {
        let ghost pvs = self@.projects;
        let ghost target = update_projects_seq(pvs, id, name@, view_opt_string(description));
        let mut out: Vec<Project> = Vec::new();
        let mut i: usize = 0;
        proof {
            assert(view_projects(out@) =~= target.take(0));
        }
        while i < self.projects.len()
            invariant
                i <= self.projects.len(),
                pvs == view_projects(self.projects@),
                target == update_projects_seq(pvs, id, name@, view_opt_string(description)),
                pvs.len() == self.projects.len(),
                view_projects(out@) == target.take(i as int),
            decreases self.projects.len() - i,
        {
            let p = &self.projects[i];
            proof {
                assert(p@ == pvs[i as int]);
                assert(target.len() == pvs.len());
                assert(target.take(i as int).len() == i as int);
                assert(view_projects(out@).len() == out@.len());
                assert(out@.len() == i as int);
            }
            if p.id == id {
                let mut t = p.clone();
                t.name = name.clone();
                t.description = match &description {
                    Some(d) => Some(d.clone()),
                    None => None,
                };
                out.push(t);
            } else {
                out.push(p.clone());
            }
            proof {
                assert(out@[i as int]@ == target[i as int]);
                assert(view_projects(out@) =~= target.take(i as int + 1));
            }
            i = i + 1;
        }
        self.projects = out;
        proof {
            assert(target.take(target.len() as int) =~= target);
            assert(self@ =~= (StoreV { projects: target, ..old(self)@ }));
            assert forall|i: int| 0 <= i < self@.secrets.len() implies match (
            #[trigger] self@.secrets[i]).project_id {
                Some(q) => has_active_project(self@.projects, q),
                None => true,
            } by {
                match self@.secrets[i].project_id {
                    Some(q) => {
                        assert(has_active_project(pvs, q));
                        let j = choose|j: int|
                            0 <= j < pvs.len() && (#[trigger] pvs[j]).id == q
                                && pvs[j].deleted_at is None;
                        assert(self@.projects[j].id == q && self@.projects[j].deleted_at is None);
                    },
                    None => {},
                }
            }
        }
    }

    /// Mark every project with this identifier as deleted at `now`, after
    /// first detaching every secret that references it — one atomic step:
    /// the detachment and the mark stand or fall together.
    pub fn soft_delete_project(&mut self, id: i64, now: u64)
        requires
            old(self).wf(),
        ensures
            final(self).wf(),
            final(self)@ == (StoreV {
                secrets: detach_secrets(old(self)@.secrets, id),
                projects: soft_delete_projects_seq(old(self)@.projects, id, now),
                ..old(self)@
            }),
    {
        let ghost svs = self@.secrets;
        let ghost pvs = self@.projects;
        let ghost starget = detach_secrets(svs, id);
        let ghost ptarget = soft_delete_projects_seq(pvs, id, now);
        let mut souts: Vec<crate::records::Secret> = Vec::new();
        let mut i: usize = 0;
        proof {
            assert(view_secrets(souts@) =~= starget.take(0));
        }
        while i < self.secrets.len()
            invariant
                i <= self.secrets.len(),
                svs == view_secrets(self.secrets@),
                starget == detach_secrets(svs, id),
                svs.len() == self.secrets.len(),
                view_secrets(souts@) == starget.take(i as int),
            decreases self.secrets.len() - i,
        {
            let s = &self.secrets[i];
            proof {
                assert(s@ == svs[i as int]);
                assert(starget.len() == svs.len());
                assert(starget.take(i as int).len() == i as int);
                assert(view_secrets(souts@).len() == souts@.len());
                assert(souts@.len() == i as int);
            }
            let attached = match &s.project_id {
                Some(p) => *p == id,
                None => false,
            };
            if attached {
                let mut t = s.clone();
                t.project_id = None;
                souts.push(t);
            } else {
                souts.push(s.clone());
            }
            proof {
                assert(souts@[i as int]@ == starget[i as int]);
                assert(view_secrets(souts@) =~= starget.take(i as int + 1));
            }
            i = i + 1;
        }
        let mut pouts: Vec<Project> = Vec::new();
        let mut k: usize = 0;
        proof {
            assert(view_projects(pouts@) =~= ptarget.take(0));
        }
        while k < self.projects.len()
            invariant
                k <= self.projects.len(),
                pvs == view_projects(self.projects@),
                ptarget == soft_delete_projects_seq(pvs, id, now),
                pvs.len() == self.projects.len(),
                view_projects(pouts@) == ptarget.take(k as int),
            decreases self.projects.len() - k,
        {
            let p = &self.projects[k];
            proof {
                assert(p@ == pvs[k as int]);
                assert(ptarget.len() == pvs.len());
                assert(ptarget.take(k as int).len() == k as int);
                assert(view_projects(pouts@).len() == pouts@.len());
                assert(pouts@.len() == k as int);
            }
            if p.id == id {
                let mut t = p.clone();
                let stamp = if now >= t.created_at {
                    now
                } else {
                    t.created_at
                };
                t.deleted_at = Some(stamp);
                pouts.push(t);
            } else {
                pouts.push(p.clone());
            }
            proof {
                assert(pouts@[k as int]@ == ptarget[k as int]);
                assert(view_projects(pouts@) =~= ptarget.take(k as int + 1));
            }
            k = k + 1;
        }
        self.secrets = souts;
        self.projects = pouts;
        proof {
            assert(starget.take(starget.len() as int) =~= starget);
            assert(ptarget.take(ptarget.len() as int) =~= ptarget);
            assert(self@ =~= (StoreV { secrets: starget, projects: ptarget, ..old(self)@ }));
            assert forall|i: int| 0 <= i < self@.secrets.len() implies match (
            #[trigger] self@.secrets[i]).project_id {
                Some(q) => has_active_project(self@.projects, q),
                None => true,
            } by {
                match self@.secrets[i].project_id {
                    Some(q) => {
                        assert(svs[i].project_id == Some(q) && q != id);
                        assert(has_active_project(pvs, q));
                        let j = choose|j: int|
                            0 <= j < pvs.len() && (#[trigger] pvs[j]).id == q
                                && pvs[j].deleted_at is None;
                        assert(self@.projects[j].id == q && self@.projects[j].deleted_at is None);
                    },
                    None => {},
                }
            }
            assert forall|i: int| 0 <= i < self@.attachments.len() implies has_secret(
                self@.secrets,
                (#[trigger] self@.attachments[i]).secret_id,
            ) by {
                assert(has_secret(svs, old(self)@.attachments[i].secret_id));
                let j = choose|j: int|
                    0 <= j < svs.len() && (#[trigger] svs[j]).id
                        == old(self)@.attachments[i].secret_id;
                assert(self@.secrets[j].id == self@.attachments[i].secret_id);
            }
        }
    }

    /// Remove every project with this identifier for good, after first
    /// detaching every secret that references it — one atomic step.
    pub fn delete_project(&mut self, id: i64)
        requires
            old(self).wf(),
        ensures
            final(self).wf(),
            final(self)@ == (StoreV {
                secrets: detach_secrets(old(self)@.secrets, id),
                projects: remove_project(old(self)@.projects, id),
                ..old(self)@
            }),
    {
        let ghost svs = self@.secrets;
        let ghost pvs = self@.projects;
        let ghost starget = detach_secrets(svs, id);
        let mut souts: Vec<crate::records::Secret> = Vec::new();
        let mut i: usize = 0;
        proof {
            assert(view_secrets(souts@) =~= starget.take(0));
        }
        while i < self.secrets.len()
            invariant
                i <= self.secrets.len(),
                svs == view_secrets(self.secrets@),
                starget == detach_secrets(svs, id),
                svs.len() == self.secrets.len(),
                view_secrets(souts@) == starget.take(i as int),
            decreases self.secrets.len() - i,
        {
            let s = &self.secrets[i];
            proof {
                assert(s@ == svs[i as int]);
                assert(starget.len() == svs.len());
                assert(starget.take(i as int).len() == i as int);
                assert(view_secrets(souts@).len() == souts@.len());
                assert(souts@.len() == i as int);
            }
            let attached = match &s.project_id {
                Some(p) => *p == id,
                None => false,
            };
            if attached {
                let mut t = s.clone();
                t.project_id = None;
                souts.push(t);
            } else {
                souts.push(s.clone());
            }
            proof {
                assert(souts@[i as int]@ == starget[i as int]);
                assert(view_secrets(souts@) =~= starget.take(i as int + 1));
            }
            i = i + 1;
        }
        let mut pouts: Vec<Project> = Vec::new();
        let mut k: usize = 0;
        while k < self.projects.len()
            invariant
                k <= self.projects.len(),
                pvs == view_projects(self.projects@),
                pvs.len() == self.projects.len(),
                view_projects(pouts@) == remove_project(pvs.take(k as int), id),
            decreases self.projects.len() - k,
        {
            let p = &self.projects[k];
            proof {
                assert(p@ == pvs[k as int]);
                assert(pvs.take(k as int + 1) =~= pvs.take(k as int).push(pvs[k as int]));
                lemma_remove_project_push(pvs.take(k as int), pvs[k as int], id);
            }
            if p.id != id {
                pouts.push(p.clone());
                proof {
                    assert(view_projects(pouts@) =~= remove_project(pvs.take(k as int), id).push(
                        pvs[k as int],
                    ));
                }
            }
            k = k + 1;
        }
        self.secrets = souts;
        self.projects = pouts;
        proof {
            assert(starget.take(starget.len() as int) =~= starget);
            assert(pvs.take(pvs.len() as int) =~= pvs);
            assert(self@ =~= (StoreV {
                secrets: starget,
                projects: remove_project(pvs, id),
                ..old(self)@
            }));
            lemma_remove_project_ordered(pvs, id);
            broadcast use vstd::prelude::Seq::lemma_filter_contains;

            assert forall|i: int| 0 <= i < self@.projects.len() implies {
                &&& 1 <= (#[trigger] self@.projects[i]).id < self@.next_project_id
                &&& crate::store::project_times_ok(self@.projects[i])
            } by {
                assert(pvs.contains(self@.projects[i]));
                let w = choose|k: int| 0 <= k < pvs.len() && pvs[k] == self@.projects[i];
                assert(pvs[w] == self@.projects[i]);
            }
            assert forall|i: int| 0 <= i < self@.secrets.len() implies match (
            #[trigger] self@.secrets[i]).project_id {
                Some(q) => has_active_project(self@.projects, q),
                None => true,
            } by {
                match self@.secrets[i].project_id {
                    Some(q) => {
                        assert(svs[i].project_id == Some(q) && q != id);
                        assert(has_active_project(pvs, q));
                        let j = choose|j: int|
                            0 <= j < pvs.len() && (#[trigger] pvs[j]).id == q
                                && pvs[j].deleted_at is None;
                        assert(remove_project(pvs, id).contains(pvs[j]));
                        let j2 = choose|k: int|
                            0 <= k < remove_project(pvs, id).len() && remove_project(pvs, id)[k]
                                == pvs[j];
                        assert(self@.projects[j2].id == q && self@.projects[j2].deleted_at is None);
                    },
                    None => {},
                }
            }
            assert forall|i: int| 0 <= i < self@.attachments.len() implies has_secret(
                self@.secrets,
                (#[trigger] self@.attachments[i]).secret_id,
            ) by {
                assert(has_secret(svs, old(self)@.attachments[i].secret_id));
                let j = choose|j: int|
                    0 <= j < svs.len() && (#[trigger] svs[j]).id
                        == old(self)@.attachments[i].secret_id;
                assert(self@.secrets[j].id == self@.attachments[i].secret_id);
            }
        }
    }

    /// Clear the deletion mark on every project with this identifier.
    /// Restoring is unconditional: an active project stays as it is.
    pub fn restore_project(&mut self, id: i64)
        requires
            old(self).wf(),
        ensures
            final(self).wf(),
            final(self)@ == (StoreV {
                projects: restore_projects_seq(old(self)@.projects, id),
                ..old(self)@
            }),
    {
        let ghost pvs = self@.projects;
        let ghost target = restore_projects_seq(pvs, id);
        let mut out: Vec<Project> = Vec::new();
        let mut i: usize = 0;
        proof {
            assert(view_projects(out@) =~= target.take(0));
        }
        while i < self.projects.len()
            invariant
                i <= self.projects.len(),
                pvs == view_projects(self.projects@),
                target == restore_projects_seq(pvs, id),
                pvs.len() == self.projects.len(),
                view_projects(out@) == target.take(i as int),
            decreases self.projects.len() - i,
        {
            let p = &self.projects[i];
            proof {
                assert(p@ == pvs[i as int]);
                assert(target.len() == pvs.len());
                assert(target.take(i as int).len() == i as int);
                assert(view_projects(out@).len() == out@.len());
                assert(out@.len() == i as int);
            }
            if p.id == id {
                let mut t = p.clone();
                t.deleted_at = None;
                out.push(t);
            } else {
                out.push(p.clone());
            }
            proof {
                assert(out@[i as int]@ == target[i as int]);
                assert(view_projects(out@) =~= target.take(i as int + 1));
            }
            i = i + 1;
        }
        self.projects = out;
        proof {
            assert(target.take(target.len() as int) =~= target);
            assert(self@ =~= (StoreV { projects: target, ..old(self)@ }));
            assert forall|i: int| 0 <= i < self@.secrets.len() implies match (
            #[trigger] self@.secrets[i]).project_id {
                Some(q) => has_active_project(self@.projects, q),
                None => true,
            } by {
                match self@.secrets[i].project_id {
                    Some(q) => {
                        assert(has_active_project(pvs, q));
                        let j = choose|j: int|
                            0 <= j < pvs.len() && (#[trigger] pvs[j]).id == q
                                && pvs[j].deleted_at is None;
                        assert(self@.projects[j].id == q && self@.projects[j].deleted_at is None);
                    },
                    None => {},
                }
            }
        }
    }
}

} // verus!
