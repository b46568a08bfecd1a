use vstd::prelude::*;
use crate::records::{Attachment, Project, Secret};
use crate::store::{RecordStore, StoreV, active_projects, active_secrets, has_active_project,
    has_secret, lemma_active_projects_push, lemma_active_projects_ordered,
    lemma_active_secrets_push, lemma_active_secrets_ordered, lemma_live_attachments_push,
    lemma_live_attachments_ordered, live_attachments, view_attachments, view_projects,
    view_secrets};

verus! {

impl RecordStore {
    /// Empty the trash: remove, in one logical step, every soft-deleted
    /// secret, every soft-deleted project, and every attachment whose
    /// secret goes. Secrets and projects are purged independently of each
    /// other — a trashed project's secrets were detached when it was
    /// trashed, so no cascade takes place.
    pub fn empty_trash(&mut self)
        requires
            old(self).wf(),
        ensures
            final(self).wf(),
            final(self)@ == (StoreV {
                secrets: active_secrets(old(self)@.secrets),
                projects: active_projects(old(self)@.projects),
                attachments: live_attachments(
                    old(self)@.attachments,
                    active_secrets(old(self)@.secrets),
                ),
                ..old(self)@
            }),
    {
        let ghost svs = self@.secrets;
        let ghost pvs = self@.projects;
        let ghost avs = self@.attachments;
        let mut souts: Vec<Secret> = Vec::new();
        let mut i: usize = 0;
        while i < self.secrets.len()
            invariant
                i <= self.secrets.len(),
                svs == view_secrets(self.secrets@),
                svs.len() == self.secrets.len(),
                view_secrets(souts@) == active_secrets(svs.take(i as int)),
            decreases self.secrets.len() - i,
        {
            let s = &self.secrets[i];
            proof {
                assert(s@ == svs[i as int]);
                assert(svs.take(i as int + 1) =~= svs.take(i as int).push(svs[i as int]));
                lemma_active_secrets_push(svs.take(i as int), svs[i as int]);
            }
            if s.deleted_at.is_none() {
                souts.push(s.clone());
                proof {
                    assert(view_secrets(souts@) =~= active_secrets(svs.take(i as int)).push(
                        svs[i as int],
                    ));
                }
            }
            i = i + 1;
        }
        let mut pouts: Vec<Project> = Vec::new();
        let mut k: usize = 0;
        while k < self.projects.len()
            invariant
                k <= self.projects.len(),
                pvs == view_projects(self.projects@),
                pvs.len() == self.projects.len(),
                view_projects(pouts@) == active_projects(pvs.take(k as int)),
            decreases self.projects.len() - k,
        {
            let p = &self.projects[k];
            proof {
                assert(p@ == pvs[k as int]);
                assert(pvs.take(k as int + 1) =~= pvs.take(k as int).push(pvs[k as int]));
                lemma_active_projects_push(pvs.take(k as int), pvs[k as int]);
            }
            if p.deleted_at.is_none() {
                pouts.push(p.clone());
                proof {
                    assert(view_projects(pouts@) =~= active_projects(pvs.take(k as int)).push(
                        pvs[k as int],
                    ));
                }
            }
            k = k + 1;
        }
        proof {
            assert(svs.take(svs.len() as int) =~= svs);
            assert(pvs.take(pvs.len() as int) =~= pvs);
        }
        let ghost kept = active_secrets(svs);
        let mut aouts: Vec<Attachment> = Vec::new();
        let mut m: usize = 0;
        while m < self.attachments.len()
            invariant
                m <= self.attachments.len(),
                avs == view_attachments(self.attachments@),
                avs.len() == self.attachments.len(),
                kept == view_secrets(souts@),
                view_attachments(aouts@) == live_attachments(avs.take(m as int), kept),
                souts@.len() == kept.len(),
            decreases self.attachments.len() - m,
        {
            let a = &self.attachments[m];
            proof {
                assert(a@ == avs[m as int]);
                assert(avs.take(m as int + 1) =~= avs.take(m as int).push(avs[m as int]));
                lemma_live_attachments_push(avs.take(m as int), avs[m as int], kept);
            }
            let found = crate::store::secrets_contain(&souts, a.secret_id);
            if found {
                aouts.push(a.clone());
                proof {
                    assert(view_attachments(aouts@) =~= live_attachments(
                        avs.take(m as int),
                        kept,
                    ).push(avs[m as int]));
                }
            }
            m = m + 1;
        }
        self.secrets = souts;
        self.projects = pouts;
        self.attachments = aouts;
        proof {
            assert(avs.take(avs.len() as int) =~= avs);
            assert(self@ =~= (StoreV {
                secrets: active_secrets(svs),
                projects: active_projects(pvs),
                attachments: live_attachments(avs, kept),
                ..old(self)@
            }));
            lemma_active_secrets_ordered(svs);
            lemma_active_projects_ordered(pvs);
            lemma_live_attachments_ordered(avs, kept);
            broadcast use vstd::prelude::Seq::lemma_filter_contains;
            broadcast use vstd::prelude::Seq::lemma_filter_pred;

            assert forall|i: int| 0 <= i < self@.secrets.len() implies {
                &&& 1 <= (#[trigger] self@.secrets[i]).id < self@.next_secret_id
                &&& crate::store::secret_times_ok(self@.secrets[i])
                &&& match self@.secrets[i].project_id {
                    Some(q) => has_active_project(self@.projects, q),
                    None => true,
                }
            } by {
                assert(svs.contains(self@.secrets[i]));
                let w = choose|c: int| 0 <= c < svs.len() && svs[c] == self@.secrets[i];
                assert(svs[w] == self@.secrets[i]);
                match self@.secrets[i].project_id {
                    Some(q) => {
                        assert(has_active_project(pvs, q));
                        let j = choose|j: int|
                            0 <= j < pvs.len() && (#[trigger] pvs[j]).id == q
                                && pvs[j].deleted_at is None;
                        assert(active_projects(pvs).contains(pvs[j]));
                        let j2 = choose|c: int|
                            0 <= c < active_projects(pvs).len() && active_projects(pvs)[c]
                                == pvs[j];
                        assert(self@.projects[j2].id == q && self@.projects[j2].deleted_at
                            is None);
                    },
                    None => {},
                }
            }
            assert forall|i: int| 0 <= i < self@.projects.len() implies {
                &&& 1 <= (#[trigger] self@.projects[i]).id < self@.next_project_id
                &&& crate::store::project_times_ok(self@.projects[i])
            } by {
                assert(pvs.contains(self@.projects[i]));
                let w = choose|c: int| 0 <= c < pvs.len() && pvs[c] == self@.projects[i];
                assert(pvs[w] == self@.projects[i]);
            }
            assert forall|i: int| 0 <= i < self@.attachments.len() implies {
                &&& 1 <= (#[trigger] self@.attachments[i]).id < self@.next_attachment_id
                &&& crate::store::attachment_size_ok(self@.attachments[i])
                &&& has_secret(self@.secrets, self@.attachments[i].secret_id)
            } by {
                assert(avs.contains(self@.attachments[i]));
                let w = choose|c: int| 0 <= c < avs.len() && avs[c] == self@.attachments[i];
                assert(avs[w] == self@.attachments[i]);
                assert(has_secret(kept, self@.attachments[i].secret_id));
            }
        }
    }
}

} // verus!
