use vstd::prelude::*;
use crate::VaultError;
use crate::records::{Secret, SecretV};
use crate::store::{RecordStore, StoreV, fresh_secret, view_secrets};

verus! {

/// Two records carry the same credential triple: title, username and
/// password agree exactly, case-sensitive, with no normalization.
pub open spec fn triple_matches(e: SecretV, s: SecretV) -> bool {
    e.title == s.title && e.username == s.username && e.password == s.password
}

/// Some existing record carries the same triple as this one.
pub open spec fn matches_existing(existing: Seq<SecretV>, s: SecretV) -> bool {
    exists|j: int| 0 <= j < existing.len() && triple_matches(#[trigger] existing[j], s)
}

/// The incoming records that merge inserts: those whose triple no
/// existing record carries. The rest are skipped. Matching is judged
/// against the records that existed when the merge began, so incoming
/// duplicates of one another all pass.
pub open spec fn merge_inserts(existing: Seq<SecretV>, incoming: Seq<SecretV>) -> Seq<SecretV> {
    incoming.filter(|s: SecretV| !matches_existing(existing, s))
}

/// Appending an incoming record extends the inserted ones with it exactly
/// when no existing record matches it.
pub proof fn lemma_merge_inserts_push(existing: Seq<SecretV>, incoming: Seq<SecretV>, e: SecretV)
    ensures
        merge_inserts(existing, incoming.push(e)) == (if !matches_existing(existing, e) {
            merge_inserts(existing, incoming).push(e)
        } else {
            merge_inserts(existing, incoming)
        }),
{
    reveal(Seq::filter);
    assert(incoming.push(e).drop_last() =~= incoming);
}

/// The rows that inserting a list of records produces: each one a fresh
/// secret carrying the incoming triple, no project, no deletion mark, the
/// merge's timestamp, and consecutive store-assigned identifiers.
pub open spec fn import_rows(ins: Seq<SecretV>, first_id: i64, now: u64) -> Seq<SecretV> {
    Seq::new(
        ins.len(),
        |i: int| fresh_secret((first_id + i) as i64, ins[i].title, ins[i].username, ins[i].password, now),
    )
}

/// Whether some record of the table carries the same triple as this one.
fn matches_any(existing: &Vec<Secret>, s: &Secret) -> (r: bool)
    ensures
        r == matches_existing(view_secrets(existing@), s@),
{
    let ghost evs = view_secrets(existing@);
    let mut i: usize = 0;
    while i < existing.len()
        invariant
            i <= existing.len(),
            evs == view_secrets(existing@),
            evs.len() == existing.len(),
            forall|k: int| 0 <= k < i ==> !triple_matches(#[trigger] evs[k], s@),
        decreases existing.len() - i,
    {
        let e = &existing[i];
        proof {
            assert(e@ == evs[i as int]);
        }
        if e.title == s.title && e.username == s.username && e.password == s.password {
            return true;
        }
        i = i + 1;
    }
    false
}

impl RecordStore {
    /// Merge a list of incoming records into the store: each one whose
    /// triple an existing record already carries is skipped; every other
    /// one is inserted as a new row, in the incoming order, with a fresh
    /// identifier and this merge's timestamp. Matching is judged against
    /// the records present when the merge began. Returns how many were
    /// inserted and how many skipped. Fails, changing nothing, only when
    /// the incoming list would exhaust the identifier counter.
    pub fn import_secrets(&mut self, incoming: &Vec<Secret>, now: u64) -> (r: Result<
        (u64, u64),
        VaultError,
    >)
        requires
            old(self).wf(),
        ensures
            final(self).wf(),
            incoming@.len() > i64::MAX - old(self)@.next_secret_id ==> r == Err::<
                (u64, u64),
                VaultError,
            >(VaultError::StorageError) && final(self)@ == old(self)@,
            incoming@.len() <= i64::MAX - old(self)@.next_secret_id ==> (r matches Ok(c) && {
                let plan = merge_inserts(old(self)@.secrets, view_secrets(incoming@));
                &&& c.0 == plan.len()
                &&& c.0 + c.1 == incoming@.len()
                &&& final(self)@ == (StoreV {
                    secrets: old(self)@.secrets + import_rows(
                        plan,
                        old(self)@.next_secret_id,
                        now,
                    ),
                    next_secret_id: (old(self)@.next_secret_id + plan.len()) as i64,
                    ..old(self)@
                })
            }),
    {
        broadcast use vstd::prelude::Seq::lemma_filter_len;

        if incoming.len() as u64 > (i64::MAX - self.next_secret_id) as u64 {
            return Err(VaultError::StorageError);
        }
        let ghost next0 = self@.next_secret_id;
        let ghost evs = self@.secrets;
        let ghost ivs = view_secrets(incoming@);
        let mut snapshot: Vec<Secret> = Vec::new();
        let mut k: usize = 0;
        proof {
            assert(view_secrets(snapshot@) =~= evs.take(0));
        }
        while k < self.secrets.len()
            invariant
                k <= self.secrets.len(),
                evs == view_secrets(self.secrets@),
                evs.len() == self.secrets.len(),
                view_secrets(snapshot@) == evs.take(k as int),
            decreases self.secrets.len() - k,
        {
            let s = &self.secrets[k];
            proof {
                assert(s@ == evs[k as int]);
                assert(evs.take(k as int).len() == k as int);
                assert(view_secrets(snapshot@).len() == snapshot@.len());
                assert(snapshot@.len() == k as int);
            }
            snapshot.push(s.clone());
            proof {
                assert(view_secrets(snapshot@) =~= evs.take(k as int + 1));
            }
            k = k + 1;
        }
        proof {
            assert(evs.take(evs.len() as int) =~= evs);
        }
        let mut inserted: u64 = 0;
        let mut skipped: u64 = 0;
        let mut i: usize = 0;
        proof {
            assert(ivs.take(0) =~= Seq::<SecretV>::empty());
            assert(merge_inserts(evs, ivs.take(0)) =~= Seq::<SecretV>::empty()) by {
                reveal(Seq::filter);
            }
            assert(import_rows(merge_inserts(evs, ivs.take(0)), next0, now) =~= Seq::<
                SecretV,
            >::empty());
            assert(self@ =~= (StoreV {
                secrets: evs + import_rows(merge_inserts(evs, ivs.take(0)), next0, now),
                next_secret_id: (next0 + merge_inserts(evs, ivs.take(0)).len()) as i64,
                ..old(self)@
            }));
        }
        while i < incoming.len()
            invariant
                i <= incoming.len(),
                evs == old(self)@.secrets,
                next0 == old(self)@.next_secret_id,
                ivs == view_secrets(incoming@),
                ivs.len() == incoming.len(),
                view_secrets(snapshot@) == evs,
                incoming@.len() <= i64::MAX - next0,
                inserted == merge_inserts(evs, ivs.take(i as int)).len(),
                inserted + skipped == i,
                self@ == (StoreV {
                    secrets: evs + import_rows(merge_inserts(evs, ivs.take(i as int)), next0, now),
                    next_secret_id: (next0 + inserted) as i64,
                    ..old(self)@
                }),
                self.wf(),
            decreases incoming.len() - i,
        {
            let s = &incoming[i];
            let ghost plan_i = merge_inserts(evs, ivs.take(i as int));
            proof {
                assert(s@ == ivs[i as int]);
                assert(ivs.take(i as int + 1) =~= ivs.take(i as int).push(ivs[i as int]));
                lemma_merge_inserts_push(evs, ivs.take(i as int), ivs[i as int]);
                assert(plan_i.len() <= ivs.take(i as int).len());
            }
            if matches_any(&snapshot, s) {
                skipped = skipped + 1;
                proof {
                    assert(merge_inserts(evs, ivs.take(i as int + 1)) == plan_i);
                }
            } else {
                let created = self.create_secret(
                    s.title.clone(),
                    s.username.clone(),
                    s.password.clone(),
                    now,
                );
                match created {
                    Ok(_) => {},
                    Err(_) => {
                        proof {
                            assert(false);
                        }
                        return Err(VaultError::StorageError);
                    },
                }
                inserted = inserted + 1;
                proof {
                    let plan_n = merge_inserts(evs, ivs.take(i as int + 1));
                    assert(plan_n == plan_i.push(ivs[i as int]));
                    assert(import_rows(plan_n, next0, now) =~= import_rows(
                        plan_i,
                        next0,
                        now,
                    ).push(fresh_secret((next0 + plan_i.len()) as i64, ivs[i as int].title,
                        ivs[i as int].username, ivs[i as int].password, now)));
                    assert(evs + import_rows(plan_n, next0, now) =~= (evs + import_rows(
                        plan_i,
                        next0,
                        now,
                    )).push(fresh_secret((next0 + plan_i.len()) as i64, ivs[i as int].title,
                        ivs[i as int].username, ivs[i as int].password, now)));
                    assert(self@ =~= (StoreV {
                        secrets: evs + import_rows(plan_n, next0, now),
                        next_secret_id: (next0 + inserted) as i64,
                        ..old(self)@
                    }));
                }
            }
            i = i + 1;
        }
        proof {
            assert(ivs.take(ivs.len() as int) =~= ivs);
        }
        Ok((inserted, skipped))
    }
}

} // verus!
