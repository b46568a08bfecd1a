use vstd::prelude::*;
use crate::VaultError;
use crate::records::{Secret, SecretV};
use crate::store::{RecordStore, StoreV, active_secrets, deleted_secrets, fresh_secret, has_secret,
    later, lemma_active_secrets_push, lemma_deleted_secrets_push,
    lemma_remove_attachments_of_ordered, lemma_remove_attachments_of_push,
    lemma_remove_secret_ordered, lemma_remove_secret_push, remove_attachments_of, remove_secret,
    view_secrets};

verus! {

/// The row, marked deleted at the later of its creation time and `now`:
/// a deletion mark never precedes creation.
pub open spec fn mark_secret_deleted(s: SecretV, now: u64) -> SecretV {
    SecretV { deleted_at: Some(later(s.created_at, now)), ..s }
}

/// The row with its deletion mark cleared.
pub open spec fn clear_secret_deleted(s: SecretV) -> SecretV {
    SecretV { deleted_at: None, ..s }
}

/// The row with its caller-supplied fields replaced.
pub open spec fn set_secret_fields(
    s: SecretV,
    title: Seq<char>,
    username: Seq<char>,
    password: Seq<char>,
) -> SecretV {
    SecretV { title: title, username: username, password: password, ..s }
}

/// The table with every row of this identifier marked deleted at `now`.
pub open spec fn soft_delete_secrets_seq(ss: Seq<SecretV>, id: i64, now: u64) -> Seq<SecretV> {
    Seq::new(
        ss.len(),
        |i: int|
            if ss[i].id == id {
                mark_secret_deleted(ss[i], now)
            } else {
                ss[i]
            },
    )
}

/// The table with the deletion mark cleared on every row of this
/// identifier.
pub open spec fn restore_secrets_seq(ss: Seq<SecretV>, id: i64) -> Seq<SecretV> {
    Seq::new(
        ss.len(),
        |i: int|
            if ss[i].id == id {
                clear_secret_deleted(ss[i])
            } else {
                ss[i]
            },
    )
}

/// The table with the fields replaced on every row of this identifier.
pub open spec fn update_secrets_seq(
    ss: Seq<SecretV>,
    id: i64,
    title: Seq<char>,
    username: Seq<char>,
    password: Seq<char>,
) -> Seq<SecretV> {
    Seq::new(
        ss.len(),
        |i: int|
            if ss[i].id == id {
                set_secret_fields(ss[i], title, username, password)
            } else {
                ss[i]
            },
    )
}

/// Trashing a secret and then restoring it clears only the deletion mark:
/// the table is as a plain restore would leave it.
pub proof fn lemma_soft_delete_restore(ss: Seq<SecretV>, id: i64, now: u64)
    ensures
        restore_secrets_seq(soft_delete_secrets_seq(ss, id, now), id) == restore_secrets_seq(
            ss,
            id,
        ),
{
    assert(restore_secrets_seq(soft_delete_secrets_seq(ss, id, now), id) =~= restore_secrets_seq(
        ss,
        id,
    ));
}

/// Round trip: trashing an active secret and then restoring it yields the
/// table it started from — the record returns identical, its deletion
/// mark cleared.
pub proof fn lemma_soft_delete_restore_round_trip(ss: Seq<SecretV>, id: i64, now: u64)
    requires
        forall|i: int| 0 <= i < ss.len() && (#[trigger] ss[i]).id == id ==> ss[i].deleted_at
            is None,
    ensures
        restore_secrets_seq(soft_delete_secrets_seq(ss, id, now), id) == ss,
{
    assert(restore_secrets_seq(soft_delete_secrets_seq(ss, id, now), id) =~= ss);
}

impl RecordStore {
    /// Insert a new secret with a store-assigned identifier and the given
    /// creation time. Fails only when the identifier counter is
    /// exhausted, in which case nothing changes.
    pub fn create_secret(
        &mut self,
        title: String,
        username: String,
        password: String,
        now: u64,
    ) -> (r: Result<Secret, VaultError>)
        requires
            old(self).wf(),
        ensures
            final(self).wf(),
            old(self)@.next_secret_id == i64::MAX ==> r == Err::<Secret, VaultError>(
                VaultError::StorageError,
            ) && final(self)@ == old(self)@,
            old(self)@.next_secret_id < i64::MAX ==> (r matches Ok(s) && s@ == fresh_secret(
                old(self)@.next_secret_id,
                title@,
                username@,
                password@,
                now,
            ) && final(self)@ == (StoreV {
                secrets: old(self)@.secrets.push(s@),
                next_secret_id: (old(self)@.next_secret_id + 1) as i64,
                ..old(self)@
            })),
    {
        if self.next_secret_id == i64::MAX {
            return Err(VaultError::StorageError);
        }
        let s = Secret {
            id: self.next_secret_id,
            project_id: None,
            title,
            username,
            password,
            created_at: now,
            deleted_at: None,
        };
        let out = s.clone();
        self.secrets.push(s);
        self.next_secret_id = self.next_secret_id + 1;
        proof {
            assert(self@.secrets =~= old(self)@.secrets.push(out@));
            assert(self@ =~= (StoreV {
                secrets: old(self)@.secrets.push(out@),
                next_secret_id: (old(self)@.next_secret_id + 1) as i64,
                ..old(self)@
            }));
            assert forall|i: int| 0 <= i < self@.attachments.len() implies has_secret(
                self@.secrets,
                (#[trigger] self@.attachments[i]).secret_id,
            ) by {
                assert(has_secret(old(self)@.secrets, old(self)@.attachments[i].secret_id));
                let j = choose|j: int|
                    0 <= j < old(self)@.secrets.len() && (#[trigger] old(self)@.secrets[j]).id
                        == old(self)@.attachments[i].secret_id;
                assert(self@.secrets[j].id == self@.attachments[i].secret_id);
            }
        }
        Ok(out)
    }

    /// The active secrets, in insertion order.
    pub fn get_all_secrets(&self) -> (r: Vec<Secret>)
        ensures
            view_secrets(r@) == active_secrets(self@.secrets),
    {
        let ghost svs = self@.secrets;
        let mut out: Vec<Secret> = Vec::new();
        let mut i: usize = 0;
        while i < self.secrets.len()
            invariant
                i <= self.secrets.len(),
                svs == self@.secrets,
                svs.len() == self.secrets.len(),
                view_secrets(out@) == active_secrets(svs.take(i as int)),
            decreases self.secrets.len() - i,
        {
            let s = &self.secrets[i];
            proof {
                assert(s@ == svs[i as int]);
                assert(svs.take(i as int + 1) =~= svs.take(i as int).push(svs[i as int]));
                lemma_active_secrets_push(svs.take(i as int), svs[i as int]);
            }
            if s.deleted_at.is_none() {
                out.push(s.clone());
                proof {
                    assert(view_secrets(out@) =~= active_secrets(svs.take(i as int)).push(
                        svs[i as int],
                    ));
                }
            }
            i = i + 1;
        }
        proof {
            assert(svs.take(svs.len() as int) =~= svs);
        }
        out
    }

    /// The trashed secrets, in insertion order.
    pub fn get_deleted_secrets(&self) -> (r: Vec<Secret>)
        ensures
            view_secrets(r@) == deleted_secrets(self@.secrets),
    {
        let ghost svs = self@.secrets;
        let mut out: Vec<Secret> = Vec::new();
        let mut i: usize = 0;
        while i < self.secrets.len()
            invariant
                i <= self.secrets.len(),
                svs == self@.secrets,
                svs.len() == self.secrets.len(),
                view_secrets(out@) == deleted_secrets(svs.take(i as int)),
            decreases self.secrets.len() - i,
        {
            let s = &self.secrets[i];
            proof {
                assert(s@ == svs[i as int]);
                assert(svs.take(i as int + 1) =~= svs.take(i as int).push(svs[i as int]));
                lemma_deleted_secrets_push(svs.take(i as int), svs[i as int]);
            }
            if s.deleted_at.is_some() {
                out.push(s.clone());
                proof {
                    assert(view_secrets(out@) =~= deleted_secrets(svs.take(i as int)).push(
                        svs[i as int],
                    ));
                }
            }
            i = i + 1;
        }
        proof {
            assert(svs.take(svs.len() as int) =~= svs);
        }
        out
    }

    /// Mark every secret with this identifier as deleted at `now` (at its
    /// creation time, where the clock reads earlier than that). A missing
    /// identifier changes nothing; an already trashed secret gets a fresh
    /// mark, as the storage layer's unconditional update would.
    pub fn soft_delete_secret(&mut self, id: i64, now: u64)
        requires
            old(self).wf(),
        ensures
            final(self).wf(),
            final(self)@ == (StoreV {
                secrets: soft_delete_secrets_seq(old(self)@.secrets, id, now),
                ..old(self)@
            }),
    {
        let ghost svs = self@.secrets;
        let ghost target = soft_delete_secrets_seq(svs, id, now);
        let mut out: Vec<Secret> = Vec::new();
        let mut i: usize = 0;
        proof {
            assert(view_secrets(out@) =~= target.take(0));
        }
        while i < self.secrets.len()
            invariant
                i <= self.secrets.len(),
                svs == view_secrets(self.secrets@),
                target == soft_delete_secrets_seq(svs, id, now),
                svs.len() == self.secrets.len(),
                view_secrets(out@) == target.take(i as int),
            decreases self.secrets.len() - i,
        {
            let s = &self.secrets[i];
            proof {
                assert(s@ == svs[i as int]);
                assert(target.len() == svs.len());
                assert(target.take(i as int).len() == i as int);
                assert(view_secrets(out@).len() == out@.len());
                assert(out@.len() == i as int);
            }
            if s.id == id {
                let mut t = s.clone();
                let stamp = if now >= t.created_at {
                    now
                } else {
                    t.created_at
                };
                t.deleted_at = Some(stamp);
                out.push(t);
            } else {
                out.push(s.clone());
            }
            proof {
                assert(out@[i as int]@ == target[i as int]);
                assert(view_secrets(out@) =~= target.take(i as int + 1));
            }
            i = i + 1;
        }
        self.secrets = out;
        proof {
            assert(target.take(target.len() as int) =~= target);
            assert(self@ =~= (StoreV { secrets: target, ..old(self)@ }));
            assert forall|i: int| 0 <= i < self@.attachments.len() implies has_secret(
                self@.secrets,
                (#[trigger] self@.attachments[i]).secret_id,
            ) by {
                assert(has_secret(svs, old(self)@.attachments[i].secret_id));
                let j = choose|j: int|
                    0 <= j < svs.len() && (#[trigger] svs[j]).id
                        == old(self)@.attachments[i].secret_id;
                assert(self@.secrets[j].id == self@.attachments[i].secret_id);
            }
        }
    }

    /// Clear the deletion mark on every secret with this identifier. A
    /// missing identifier or an already active secret changes nothing:
    /// restoring is unconditional.
    pub fn restore_secret(&mut self, id: i64)
        requires
            old(self).wf(),
        ensures
            final(self).wf(),
            final(self)@ == (StoreV {
                secrets: restore_secrets_seq(old(self)@.secrets, id),
                ..old(self)@
            }),
    {
        let ghost svs = self@.secrets;
        let ghost target = restore_secrets_seq(svs, id);
        let mut out: Vec<Secret> = Vec::new();
        let mut i: usize = 0;
        proof {
            assert(view_secrets(out@) =~= target.take(0));
        }
        while i < self.secrets.len()
            invariant
                i <= self.secrets.len(),
                svs == view_secrets(self.secrets@),
                target == restore_secrets_seq(svs, id),
                svs.len() == self.secrets.len(),
                view_secrets(out@) == target.take(i as int),
            decreases self.secrets.len() - i,
        {
            let s = &self.secrets[i];
            proof {
                assert(s@ == svs[i as int]);
                assert(target.len() == svs.len());
                assert(target.take(i as int).len() == i as int);
                assert(view_secrets(out@).len() == out@.len());
                assert(out@.len() == i as int);
            }
            if s.id == id {
                let mut t = s.clone();
                t.deleted_at = None;
                out.push(t);
            } else {
                out.push(s.clone());
            }
            proof {
                assert(out@[i as int]@ == target[i as int]);
                assert(view_secrets(out@) =~= target.take(i as int + 1));
            }
            i = i + 1;
        }
        self.secrets = out;
        proof {
            assert(target.take(target.len() as int) =~= target);
            assert(self@ =~= (StoreV { secrets: target, ..old(self)@ }));
            assert forall|i: int| 0 <= i < self@.attachments.len() implies has_secret(
                self@.secrets,
                (#[trigger] self@.attachments[i]).secret_id,
            ) by {
                assert(has_secret(svs, old(self)@.attachments[i].secret_id));
                let j = choose|j: int|
                    0 <= j < svs.len() && (#[trigger] svs[j]).id
                        == old(self)@.attachments[i].secret_id;
                assert(self@.secrets[j].id == self@.attachments[i].secret_id);
            }
        }
    }

    /// Replace title, username and password on every secret with this
    /// identifier. A missing identifier changes nothing.
    pub fn update_secret(&mut self, id: i64, title: String, username: String, password: String)
        requires
            old(self).wf(),
        ensures
            final(self).wf(),
            final(self)@ == (StoreV {
                secrets: update_secrets_seq(old(self)@.secrets, id, title@, username@, password@),
                ..old(self)@
            }),
    {
        let ghost svs = self@.secrets;
        let ghost target = update_secrets_seq(svs, id, title@, username@, password@);
        let mut out: Vec<Secret> = Vec::new();
        let mut i: usize = 0;
        proof {
            assert(view_secrets(out@) =~= target.take(0));
        }
        while i < self.secrets.len()
            invariant
                i <= self.secrets.len(),
                svs == view_secrets(self.secrets@),
                target == update_secrets_seq(svs, id, title@, username@, password@),
                svs.len() == self.secrets.len(),
                view_secrets(out@) == target.take(i as int),
            decreases self.secrets.len() - i,
        {
            let s = &self.secrets[i];
            proof {
                assert(s@ == svs[i as int]);
                assert(target.len() == svs.len());
                assert(target.take(i as int).len() == i as int);
                assert(view_secrets(out@).len() == out@.len());
                assert(out@.len() == i as int);
            }
            if s.id == id {
                let mut t = s.clone();
                t.title = title.clone();
                t.username = username.clone();
                t.password = password.clone();
                out.push(t);
            } else {
                out.push(s.clone());
            }
            proof {
                assert(out@[i as int]@ == target[i as int]);
                assert(view_secrets(out@) =~= target.take(i as int + 1));
            }
            i = i + 1;
        }
        self.secrets = out;
        proof {
            assert(target.take(target.len() as int) =~= target);
            assert(self@ =~= (StoreV { secrets: target, ..old(self)@ }));
            assert forall|i: int| 0 <= i < self@.attachments.len() implies has_secret(
                self@.secrets,
                (#[trigger] self@.attachments[i]).secret_id,
            ) by {
                assert(has_secret(svs, old(self)@.attachments[i].secret_id));
                let j = choose|j: int|
                    0 <= j < svs.len() && (#[trigger] svs[j]).id
                        == old(self)@.attachments[i].secret_id;
                assert(self@.secrets[j].id == self@.attachments[i].secret_id);
            }
        }
    }

    /// Remove every secret with this identifier for good, together with
    /// its attachments, in one step. A missing identifier changes
    /// nothing.
    pub fn delete_secret(&mut self, id: i64)
        requires
            old(self).wf(),
        ensures
            final(self).wf(),
            final(self)@ == (StoreV {
                secrets: remove_secret(old(self)@.secrets, id),
                attachments: remove_attachments_of(old(self)@.attachments, id),
                ..old(self)@
            }),
    {
        let ghost svs = self@.secrets;
        let ghost avs = self@.attachments;
        let mut out: Vec<Secret> = Vec::new();
        let mut i: usize = 0;
        while i < self.secrets.len()
            invariant
                i <= self.secrets.len(),
                svs == view_secrets(self.secrets@),
                svs.len() == self.secrets.len(),
                view_secrets(out@) == remove_secret(svs.take(i as int), id),
            decreases self.secrets.len() - i,
        {
            let s = &self.secrets[i];
            proof {
                assert(s@ == svs[i as int]);
                assert(svs.take(i as int + 1) =~= svs.take(i as int).push(svs[i as int]));
                lemma_remove_secret_push(svs.take(i as int), svs[i as int], id);
            }
            if s.id != id {
                out.push(s.clone());
                proof {
                    assert(view_secrets(out@) =~= remove_secret(svs.take(i as int), id).push(
                        svs[i as int],
                    ));
                }
            }
            i = i + 1;
        }
        let mut keep: Vec<crate::records::Attachment> = Vec::new();
        let mut k: usize = 0;
        while k < self.attachments.len()
            invariant
                k <= self.attachments.len(),
                avs == crate::store::view_attachments(self.attachments@),
                avs.len() == self.attachments.len(),
                crate::store::view_attachments(keep@) == remove_attachments_of(
                    avs.take(k as int),
                    id,
                ),
            decreases self.attachments.len() - k,
        {
            let a = &self.attachments[k];
            proof {
                assert(a@ == avs[k as int]);
                assert(avs.take(k as int + 1) =~= avs.take(k as int).push(avs[k as int]));
                lemma_remove_attachments_of_push(avs.take(k as int), avs[k as int], id);
            }
            if a.secret_id != id {
                keep.push(a.clone());
                proof {
                    assert(crate::store::view_attachments(keep@) =~= remove_attachments_of(
                        avs.take(k as int),
                        id,
                    ).push(avs[k as int]));
                }
            }
            k = k + 1;
        }
        self.secrets = out;
        self.attachments = keep;
        proof {
            assert(svs.take(svs.len() as int) =~= svs);
            assert(avs.take(avs.len() as int) =~= avs);
            assert(self@ =~= (StoreV {
                secrets: remove_secret(svs, id),
                attachments: remove_attachments_of(avs, id),
                ..old(self)@
            }));
            lemma_remove_secret_ordered(svs, id);
            lemma_remove_attachments_of_ordered(avs, id);
            broadcast use vstd::prelude::Seq::lemma_filter_contains;
            broadcast use vstd::prelude::Seq::lemma_filter_pred;

            assert forall|i: int| 0 <= i < self@.secrets.len() implies {
                &&& 1 <= (#[trigger] self@.secrets[i]).id < self@.next_secret_id
                &&& crate::store::secret_times_ok(self@.secrets[i])
                &&& match self@.secrets[i].project_id {
                    Some(p) => crate::store::has_active_project(self@.projects, p),
                    None => true,
                }
            } by {
                assert(svs.contains(self@.secrets[i]));
                let w = choose|k: int| 0 <= k < svs.len() && svs[k] == self@.secrets[i];
                assert(svs[w] == self@.secrets[i]);
            }
            assert forall|i: int| 0 <= i < self@.attachments.len() implies {
                &&& 1 <= (#[trigger] self@.attachments[i]).id < self@.next_attachment_id
                &&& crate::store::attachment_size_ok(self@.attachments[i])
                &&& has_secret(self@.secrets, self@.attachments[i].secret_id)
            } by {
                assert(avs.contains(self@.attachments[i]));
                let w = choose|k: int| 0 <= k < avs.len() && avs[k] == self@.attachments[i];
                assert(avs[w] == self@.attachments[i]);
                let a = self@.attachments[i];
                assert(a.secret_id != id);
                assert(has_secret(svs, a.secret_id));
                let j = choose|j: int| 0 <= j < svs.len() && (#[trigger] svs[j]).id == a.secret_id;
                assert(remove_secret(svs, id).contains(svs[j]));
                let j2 = choose|k: int|
                    0 <= k < remove_secret(svs, id).len() && remove_secret(svs, id)[k] == svs[j];
                assert(self@.secrets[j2].id == a.secret_id);
            }
        }
    }
}

} // verus!
