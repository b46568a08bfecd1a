use vstd::prelude::*;
use crate::VaultError;
use crate::records::{Attachment, AttachmentMetadata, AttachmentMetadataV, AttachmentV, metadata_of};
use crate::store::{RecordStore, StoreV, attachments_of, has_secret, lemma_attachments_of_push,
    lemma_remove_attachment_ordered, lemma_remove_attachment_push, remove_attachment,
    view_attachments};

verus! {

/// The views of a table of attachment metadata rows.
pub open spec fn view_metadata(v: Seq<AttachmentMetadata>) -> Seq<AttachmentMetadataV> {
    v.map_values(|m: AttachmentMetadata| m@)
}

/// The metadata of each row of an attachment table.
pub open spec fn metadata_seq(aa: Seq<AttachmentV>) -> Seq<AttachmentMetadataV> {
    aa.map_values(|a: AttachmentV| metadata_of(a))
}

/// The fields a newly stored attachment carries.
pub open spec fn fresh_attachment(
    id: i64,
    secret_id: i64,
    filename: Seq<char>,
    mime_type: Seq<char>,
    content: Seq<u8>,
    now: u64,
) -> AttachmentV {
    AttachmentV {
        id: id,
        secret_id: secret_id,
        filename: filename,
        mime_type: mime_type,
        file_size: content.len() as u64,
        created_at: now,
        content: content,
    }
}

/// The rows stand in descending creation order: newest first.
pub open spec fn metadata_sorted_by_created_desc(ms: Seq<AttachmentMetadataV>) -> bool {
    forall|i: int, j: int| 0 <= i < j < ms.len() ==> (#[trigger] ms[i]).created_at >= (
    #[trigger] ms[j]).created_at
}

/// Arrange attachment metadata newest first; rows of equal creation time
/// may come in any order, so the result is pinned as a multiset.
fn sort_metadata_by_created_desc(input: Vec<AttachmentMetadata>) -> (r: Vec<AttachmentMetadata>)
    ensures
        view_metadata(r@).to_multiset() == view_metadata(input@).to_multiset(),
        metadata_sorted_by_created_desc(view_metadata(r@)),
{
    let ghost whole = view_metadata(input@);
    let mut rest = input;
    let mut out: Vec<AttachmentMetadata> = Vec::new();
    proof {
        broadcast use vstd::multiset::group_multiset_axioms;

        assert(view_metadata(out@) =~= Seq::<AttachmentMetadataV>::empty());
        view_metadata(out@).to_multiset_ensures();
        assert forall|m: AttachmentMetadataV| view_metadata(out@).to_multiset().count(m) == 0 by {
            assert(!view_metadata(out@).contains(m));
        }
        assert(view_metadata(out@).to_multiset() =~= vstd::multiset::Multiset::empty());
        assert(view_metadata(out@).to_multiset().add(view_metadata(rest@).to_multiset())
            =~= whole.to_multiset());
    }
    while rest.len() > 0
        invariant
            metadata_sorted_by_created_desc(view_metadata(out@)),
            view_metadata(out@).to_multiset().add(view_metadata(rest@).to_multiset())
                == whole.to_multiset(),
            forall|a: int, b: int|
                0 <= a < out@.len() && 0 <= b < rest@.len() ==> (#[trigger] view_metadata(
                    out@,
                )[a]).created_at >= (#[trigger] view_metadata(rest@)[b]).created_at,
        decreases rest.len(),
    {
        let mut max_idx: usize = 0;
        let mut j: usize = 1;
        while j < rest.len()
            invariant
                max_idx < j <= rest@.len(),
                forall|k: int| 0 <= k < j ==> rest@[max_idx as int]@.created_at >= (
                #[trigger] rest@[k]@).created_at,
            decreases rest.len() - j,
        {
            if rest[j].created_at > rest[max_idx].created_at {
                max_idx = j;
            }
            j = j + 1;
        }
        let ghost old_rest = rest@;
        let ghost old_out = out@;
        let m = rest.remove(max_idx);
        out.push(m);
        proof {
            broadcast use vstd::multiset::group_multiset_axioms;

            view_metadata(old_out).to_multiset_ensures();
            view_metadata(old_rest).to_multiset_ensures();
            assert(view_metadata(old_rest).contains(view_metadata(old_rest)[max_idx as int]));
            assert(view_metadata(out@) =~= view_metadata(old_out).push(
                view_metadata(old_rest)[max_idx as int],
            ));
            assert(view_metadata(rest@) =~= view_metadata(old_rest).remove(max_idx as int));
            assert(view_metadata(old_out).push(
                view_metadata(old_rest)[max_idx as int],
            ).to_multiset() =~= view_metadata(old_out).to_multiset().insert(
                view_metadata(old_rest)[max_idx as int],
            ));
            assert(view_metadata(out@).to_multiset() =~= view_metadata(
                old_out,
            ).to_multiset().insert(view_metadata(old_rest)[max_idx as int]));
            assert(view_metadata(old_rest).remove(max_idx as int).to_multiset() =~= view_metadata(
                old_rest,
            ).to_multiset().remove(view_metadata(old_rest)[max_idx as int]));
            assert(view_metadata(rest@).to_multiset() =~= view_metadata(
                old_rest,
            ).to_multiset().remove(view_metadata(old_rest)[max_idx as int]));
            assert(view_metadata(out@).to_multiset().add(view_metadata(rest@).to_multiset())
                =~= whole.to_multiset());
            assert forall|a: int, b: int|
                0 <= a < out@.len() && 0 <= b < rest@.len() implies (#[trigger] view_metadata(
                out@,
            )[a]).created_at >= (#[trigger] view_metadata(rest@)[b]).created_at by {
                let bv = if b < max_idx {
                    b
                } else {
                    b + 1
                };
                assert(view_metadata(rest@)[b] == view_metadata(old_rest)[bv]);
                if a < old_out.len() {
                    assert(view_metadata(out@)[a] == view_metadata(old_out)[a]);
                } else {
                    assert(view_metadata(out@)[a] == view_metadata(old_rest)[max_idx as int]);
                }
            }
        }
    }
    proof {
        broadcast use vstd::multiset::group_multiset_axioms;

        assert(view_metadata(rest@) =~= Seq::<AttachmentMetadataV>::empty());
        view_metadata(rest@).to_multiset_ensures();
        assert forall|m: AttachmentMetadataV| view_metadata(rest@).to_multiset().count(m) == 0 by {
            assert(!view_metadata(rest@).contains(m));
        }
        assert(view_metadata(rest@).to_multiset() =~= vstd::multiset::Multiset::empty());
        assert(view_metadata(out@).to_multiset() =~= whole.to_multiset());
    }
    out
}

/// The first attachment with this identifier, if any.
pub open spec fn lookup_attachment(aa: Seq<AttachmentV>, id: i64) -> Option<AttachmentV>
    decreases aa.len(),
{
    if aa.len() == 0 {
        None
    } else if aa.first().id == id {
        Some(aa.first())
    } else {
        lookup_attachment(aa.drop_first(), id)
    }
}

impl RecordStore {
    /// Whether a secret with this identifier exists, trashed or not.
    pub fn secret_exists(&self, sid: i64) -> (r: bool)
        ensures
            r == has_secret(self@.secrets, sid),
    {
        let ghost svs = self@.secrets;
        let mut i: usize = 0;
        while i < self.secrets.len()
            invariant
                i <= self.secrets.len(),
                svs == self@.secrets,
                svs.len() == self.secrets.len(),
                forall|k: int| 0 <= k < i ==> (#[trigger] svs[k]).id != sid,
            decreases self.secrets.len() - i,
        {
            let s = &self.secrets[i];
            proof {
                assert(s@ == svs[i as int]);
            }
            if s.id == sid {
                return true;
            }
            i = i + 1;
        }
        false
    }

    /// Store an attachment for an existing secret, with a store-assigned
    /// identifier, the given creation time and the content's length as
    /// its recorded size; return its metadata. Storing fails, and nothing
    /// changes, when the secret does not exist — the reference is strong —
    /// or when the identifier counter is exhausted.
    pub fn add_attachment(
        &mut self,
        secret_id: i64,
        filename: String,
        mime_type: String,
        content: Vec<u8>,
        now: u64,
    ) -> (r: Result<AttachmentMetadata, VaultError>)
        requires
            old(self).wf(),
        ensures
            final(self).wf(),
            !has_secret(old(self)@.secrets, secret_id) ==> r == Err::<
                AttachmentMetadata,
                VaultError,
            >(VaultError::StorageError) && final(self)@ == old(self)@,
            has_secret(old(self)@.secrets, secret_id) && old(self)@.next_attachment_id == i64::MAX
                ==> r == Err::<AttachmentMetadata, VaultError>(VaultError::StorageError)
                && final(self)@ == old(self)@,
            has_secret(old(self)@.secrets, secret_id) && old(self)@.next_attachment_id < i64::MAX
                ==> (r matches Ok(m) && m@ == metadata_of(
                fresh_attachment(
                    old(self)@.next_attachment_id,
                    secret_id,
                    filename@,
                    mime_type@,
                    content@,
                    now,
                ),
            ) && final(self)@ == (StoreV {
                attachments: old(self)@.attachments.push(
                    fresh_attachment(
                        old(self)@.next_attachment_id,
                        secret_id,
                        filename@,
                        mime_type@,
                        content@,
                        now,
                    ),
                ),
                next_attachment_id: (old(self)@.next_attachment_id + 1) as i64,
                ..old(self)@
            })),
    {
        if !self.secret_exists(secret_id) {
            return Err(VaultError::StorageError);
        }
        if self.next_attachment_id == i64::MAX {
            return Err(VaultError::StorageError);
        }
        let file_size = content.len() as u64;
        let a = Attachment {
            id: self.next_attachment_id,
            secret_id,
            filename: filename.clone(),
            mime_type: mime_type.clone(),
            file_size,
            created_at: now,
            content,
        };
        let meta = AttachmentMetadata {
            id: a.id,
            secret_id: a.secret_id,
            filename,
            mime_type,
            file_size,
            created_at: now,
        };
        self.attachments.push(a);
        self.next_attachment_id = self.next_attachment_id + 1;
        proof {
            let fresh = fresh_attachment(
                old(self)@.next_attachment_id,
                secret_id,
                meta@.filename,
                meta@.mime_type,
                self@.attachments.last().content,
                now,
            );
            assert(self@.attachments =~= old(self)@.attachments.push(fresh));
            assert(self@ =~= (StoreV {
                attachments: old(self)@.attachments.push(fresh),
                next_attachment_id: (old(self)@.next_attachment_id + 1) as i64,
                ..old(self)@
            }));
        }
        Ok(meta)
    }

    /// The metadata of one secret's attachments, newest first.
    pub fn get_attachments_metadata(&self, secret_id: i64) -> (r: Vec<AttachmentMetadata>)
        ensures
            view_metadata(r@).to_multiset() == metadata_seq(
                attachments_of(self@.attachments, secret_id),
            ).to_multiset(),
            metadata_sorted_by_created_desc(view_metadata(r@)),
    {
        let ghost avs = self@.attachments;
        let mut out: Vec<AttachmentMetadata> = Vec::new();
        let mut i: usize = 0;
        while i < self.attachments.len()
            invariant
                i <= self.attachments.len(),
                avs == self@.attachments,
                avs.len() == self.attachments.len(),
                view_metadata(out@) == metadata_seq(attachments_of(avs.take(i as int), secret_id)),
            decreases self.attachments.len() - i,
        {
            let a = &self.attachments[i];
            proof {
                assert(a@ == avs[i as int]);
                assert(avs.take(i as int + 1) =~= avs.take(i as int).push(avs[i as int]));
                lemma_attachments_of_push(avs.take(i as int), avs[i as int], secret_id);
            }
            if a.secret_id == secret_id {
                let m = AttachmentMetadata {
                    id: a.id,
                    secret_id: a.secret_id,
                    filename: a.filename.clone(),
                    mime_type: a.mime_type.clone(),
                    file_size: a.file_size,
                    created_at: a.created_at,
                };
                out.push(m);
                proof {
                    assert(view_metadata(out@) =~= metadata_seq(
                        attachments_of(avs.take(i as int), secret_id),
                    ).push(metadata_of(avs[i as int])));
                    assert(metadata_seq(attachments_of(avs.take(i as int + 1), secret_id))
                        =~= metadata_seq(attachments_of(avs.take(i as int), secret_id)).push(
                        metadata_of(avs[i as int]),
                    ));
                }
            } else {
                proof {
                    assert(metadata_seq(attachments_of(avs.take(i as int + 1), secret_id))
                        =~= metadata_seq(attachments_of(avs.take(i as int), secret_id)));
                }
            }
            i = i + 1;
        }
        proof {
            assert(avs.take(avs.len() as int) =~= avs);
        }
        sort_metadata_by_created_desc(out)
    }

    /// The content of the first attachment with this identifier, or a
    /// storage error when none exists.
    pub fn get_attachment_content(&self, attachment_id: i64) -> (r: Result<Vec<u8>, VaultError>)
        ensures
            r matches Ok(c) ==> (lookup_attachment(self@.attachments, attachment_id) matches Some(a)
                && a.content == c@),
            r is Err ==> lookup_attachment(self@.attachments, attachment_id) is None && r == Err::<
                Vec<u8>,
                VaultError,
            >(VaultError::StorageError),
    {
        let ghost avs = self@.attachments;
        let mut i: usize = 0;
        proof {
            assert(avs.skip(0) =~= avs);
        }
        while i < self.attachments.len()
            invariant
                i <= self.attachments.len(),
                avs == self@.attachments,
                avs.len() == self.attachments.len(),
                lookup_attachment(avs, attachment_id) == lookup_attachment(
                    avs.skip(i as int),
                    attachment_id,
                ),
            decreases self.attachments.len() - i,
        {
            let a = &self.attachments[i];
            proof {
                assert(a@ == avs[i as int]);
                assert(avs.skip(i as int).first() == avs[i as int]);
                assert(avs.skip(i as int).drop_first() =~= avs.skip(i as int + 1));
            }
            if a.id == attachment_id {
                return Ok(a.content.clone());
            }
            i = i + 1;
        }
        proof {
            assert(avs.skip(avs.len() as int) =~= Seq::<AttachmentV>::empty());
        }
        Err(VaultError::StorageError)
    }

    /// Remove every attachment with this identifier for good. A missing
    /// identifier changes nothing.
    pub fn delete_attachment(&mut self, id: i64)
        requires
            old(self).wf(),
        ensures
            final(self).wf(),
            final(self)@ == (StoreV {
                attachments: remove_attachment(old(self)@.attachments, id),
                ..old(self)@
            }),
    {
        let ghost avs = self@.attachments;
        let mut keep: Vec<Attachment> = Vec::new();
        let mut i: usize = 0;
        while i < self.attachments.len()
            invariant
                i <= self.attachments.len(),
                avs == view_attachments(self.attachments@),
                avs.len() == self.attachments.len(),
                view_attachments(keep@) == remove_attachment(avs.take(i as int), id),
            decreases self.attachments.len() - i,
        {
            let a = &self.attachments[i];
            proof {
                assert(a@ == avs[i as int]);
                assert(avs.take(i as int + 1) =~= avs.take(i as int).push(avs[i as int]));
                lemma_remove_attachment_push(avs.take(i as int), avs[i as int], id);
            }
            if a.id != id {
                keep.push(a.clone());
                proof {
                    assert(view_attachments(keep@) =~= remove_attachment(
                        avs.take(i as int),
                        id,
                    ).push(avs[i as int]));
                }
            }
            i = i + 1;
        }
        self.attachments = keep;
        proof {
            assert(avs.take(avs.len() as int) =~= avs);
            assert(self@ =~= (StoreV { attachments: remove_attachment(avs, id), ..old(self)@ }));
            lemma_remove_attachment_ordered(avs, id);
            assert forall|i: int| 0 <= i < self@.attachments.len() implies {
                &&& 1 <= (#[trigger] self@.attachments[i]).id < self@.next_attachment_id
                &&& crate::store::attachment_size_ok(self@.attachments[i])
                &&& has_secret(self@.secrets, self@.attachments[i].secret_id)
            } by {
                assert(avs.contains(self@.attachments[i]));
                let w = choose|k: int| 0 <= k < avs.len() && avs[k] == self@.attachments[i];
                assert(avs[w] == self@.attachments[i]);
            }
        }
    }
}

} // verus!
