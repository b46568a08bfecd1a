use vstd::prelude::*;
use crate::records::{Attachment, AttachmentV, Project, ProjectV, Secret, SecretV};

verus! {

/// The relational record set of one vault, held as typed tables with
/// store-assigned identifiers, plus the schema version counter.
pub struct RecordStore {
    pub version: u32,
    pub secrets: Vec<Secret>,
    pub projects: Vec<Project>,
    pub attachments: Vec<Attachment>,
    pub next_secret_id: i64,
    pub next_project_id: i64,
    pub next_attachment_id: i64,
}

/// The mathematical value of a `RecordStore`.
#[verifier::ext_equal]
pub ghost struct StoreV {
    pub version: u32,
    pub secrets: Seq<SecretV>,
    pub projects: Seq<ProjectV>,
    pub attachments: Seq<AttachmentV>,
    pub next_secret_id: i64,
    pub next_project_id: i64,
    pub next_attachment_id: i64,
}

/// The views of a table of secrets.
pub open spec fn view_secrets(v: Seq<Secret>) -> Seq<SecretV> {
    v.map_values(|s: Secret| s@)
}

/// The views of a table of projects.
pub open spec fn view_projects(v: Seq<Project>) -> Seq<ProjectV> {
    v.map_values(|p: Project| p@)
}

/// The views of a table of attachments.
pub open spec fn view_attachments(v: Seq<Attachment>) -> Seq<AttachmentV> {
    v.map_values(|a: Attachment| a@)
}

impl View for RecordStore {
    type V = StoreV;

    open spec fn view(&self) -> StoreV {
        StoreV {
            version: self.version,
            secrets: view_secrets(self.secrets@),
            projects: view_projects(self.projects@),
            attachments: view_attachments(self.attachments@),
            next_secret_id: self.next_secret_id,
            next_project_id: self.next_project_id,
            next_attachment_id: self.next_attachment_id,
        }
    }
}

/// Secret identifiers grow strictly along the rows: rows stand in
/// insertion order and no identifier repeats.
pub open spec fn secret_ids_increasing(ss: Seq<SecretV>) -> bool {
    forall|i: int, j: int| 0 <= i < j < ss.len() ==> (#[trigger] ss[i]).id < (#[trigger] ss[j]).id
}

/// Every secret identifier lies in `1..next`.
pub open spec fn secret_ids_bounded(ss: Seq<SecretV>, next: i64) -> bool {
    forall|i: int| 0 <= i < ss.len() ==> 1 <= (#[trigger] ss[i]).id < next
}

/// Project identifiers grow strictly along the rows.
pub open spec fn project_ids_increasing(ps: Seq<ProjectV>) -> bool {
    forall|i: int, j: int| 0 <= i < j < ps.len() ==> (#[trigger] ps[i]).id < (#[trigger] ps[j]).id
}

/// Every project identifier lies in `1..next`.
pub open spec fn project_ids_bounded(ps: Seq<ProjectV>, next: i64) -> bool {
    forall|i: int| 0 <= i < ps.len() ==> 1 <= (#[trigger] ps[i]).id < next
}

/// Attachment identifiers grow strictly along the rows.
pub open spec fn attachment_ids_increasing(aa: Seq<AttachmentV>) -> bool {
    forall|i: int, j: int| 0 <= i < j < aa.len() ==> (#[trigger] aa[i]).id < (#[trigger] aa[j]).id
}

/// Every attachment identifier lies in `1..next`.
pub open spec fn attachment_ids_bounded(aa: Seq<AttachmentV>, next: i64) -> bool {
    forall|i: int| 0 <= i < aa.len() ==> 1 <= (#[trigger] aa[i]).id < next
}

/// A deletion mark, where present, is no earlier than the creation time.
pub open spec fn secret_times_ok(s: SecretV) -> bool {
    match s.deleted_at {
        Some(d) => d >= s.created_at,
        None => true,
    }
}

/// A deletion mark, where present, is no earlier than the creation time.
pub open spec fn project_times_ok(p: ProjectV) -> bool {
    match p.deleted_at {
        Some(d) => d >= p.created_at,
        None => true,
    }
}

/// The recorded size of an attachment is the length of its content.
pub open spec fn attachment_size_ok(a: AttachmentV) -> bool {
    a.file_size == a.content.len()
}

/// Some project with this identifier is active (not soft-deleted).
pub open spec fn has_active_project(ps: Seq<ProjectV>, pid: i64) -> bool {
    exists|j: int| 0 <= j < ps.len() && (#[trigger] ps[j]).id == pid && ps[j].deleted_at is None
}

/// Some secret with this identifier exists.
pub open spec fn has_secret(ss: Seq<SecretV>, sid: i64) -> bool {
    exists|j: int| 0 <= j < ss.len() && (#[trigger] ss[j]).id == sid
}

impl StoreV {
    /// The store's invariant: identifiers are positive, unique, below the
    /// table's counter and increasing along the rows; deletion marks do
    /// not precede creation; a secret's project reference, where present,
    /// names an active project; an attachment's secret reference names an
    /// existing secret; and an attachment's recorded size matches its
    /// content.
    pub open spec fn wf(self) -> bool {
        &&& 1 <= self.next_secret_id
        &&& 1 <= self.next_project_id
        &&& 1 <= self.next_attachment_id
        &&& secret_ids_increasing(self.secrets)
        &&& secret_ids_bounded(self.secrets, self.next_secret_id)
        &&& project_ids_increasing(self.projects)
        &&& project_ids_bounded(self.projects, self.next_project_id)
        &&& attachment_ids_increasing(self.attachments)
        &&& attachment_ids_bounded(self.attachments, self.next_attachment_id)
        &&& forall|i: int| 0 <= i < self.secrets.len() ==> secret_times_ok(#[trigger] self.secrets[i])
        &&& forall|i: int| 0 <= i < self.projects.len() ==> project_times_ok(
            #[trigger] self.projects[i],
        )
        &&& forall|i: int| 0 <= i < self.attachments.len() ==> attachment_size_ok(
            #[trigger] self.attachments[i],
        )
        &&& forall|i: int| 0 <= i < self.secrets.len() ==> match (#[trigger] self.secrets[i]).project_id {
            Some(p) => has_active_project(self.projects, p),
            None => true,
        }
        &&& forall|i: int| 0 <= i < self.attachments.len() ==> has_secret(
            self.secrets,
            (#[trigger] self.attachments[i]).secret_id,
        )
    }
}

/// The record set of a freshly created vault: nothing stored, schema
/// version zero, all identifier counters at one.
pub open spec fn empty_store() -> StoreV {
    StoreV {
        version: 0,
        secrets: Seq::empty(),
        projects: Seq::empty(),
        attachments: Seq::empty(),
        next_secret_id: 1,
        next_project_id: 1,
        next_attachment_id: 1,
    }
}

/// The fields a newly created secret carries.
pub open spec fn fresh_secret(
    id: i64,
    title: Seq<char>,
    username: Seq<char>,
    password: Seq<char>,
    now: u64,
) -> SecretV {
    SecretV {
        id: id,
        project_id: None,
        title: title,
        username: username,
        password: password,
        created_at: now,
        deleted_at: None,
    }
}

/// The later of two times.
pub open spec fn later(a: u64, b: u64) -> u64 {
    if b >= a {
        b
    } else {
        a
    }
}

// ---------------------------------------------------------------------
// Row selections. Each is a filter over one table; beside each stands a
// lemma for appending a row, and, for those that mutations use, a lemma
// that the selection keeps rows of the table in their order.
// ---------------------------------------------------------------------

/// The active secrets: those without a deletion mark.
pub open spec fn active_secrets(ss: Seq<SecretV>) -> Seq<SecretV> {
    ss.filter(|s: SecretV| s.deleted_at is None)
}

/// The trashed secrets: those carrying a deletion mark.
pub open spec fn deleted_secrets(ss: Seq<SecretV>) -> Seq<SecretV> {
    ss.filter(|s: SecretV| s.deleted_at is Some)
}

/// The active projects: those without a deletion mark.
pub open spec fn active_projects(ps: Seq<ProjectV>) -> Seq<ProjectV> {
    ps.filter(|p: ProjectV| p.deleted_at is None)
}

/// The trashed projects: those carrying a deletion mark.
pub open spec fn deleted_projects(ps: Seq<ProjectV>) -> Seq<ProjectV> {
    ps.filter(|p: ProjectV| p.deleted_at is Some)
}

/// The secrets that remain once the row with this identifier is removed.
pub open spec fn remove_secret(ss: Seq<SecretV>, id: i64) -> Seq<SecretV> {
    ss.filter(|s: SecretV| s.id != id)
}

/// The projects that remain once the row with this identifier is removed.
pub open spec fn remove_project(ps: Seq<ProjectV>, id: i64) -> Seq<ProjectV> {
    ps.filter(|p: ProjectV| p.id != id)
}

/// The attachments that remain once the row with this identifier is
/// removed.
pub open spec fn remove_attachment(aa: Seq<AttachmentV>, id: i64) -> Seq<AttachmentV> {
    aa.filter(|a: AttachmentV| a.id != id)
}

/// The attachments of one secret.
pub open spec fn attachments_of(aa: Seq<AttachmentV>, sid: i64) -> Seq<AttachmentV> {
    aa.filter(|a: AttachmentV| a.secret_id == sid)
}

/// The attachments that remain once those of one secret are removed.
pub open spec fn remove_attachments_of(aa: Seq<AttachmentV>, sid: i64) -> Seq<AttachmentV> {
    aa.filter(|a: AttachmentV| a.secret_id != sid)
}

/// The attachments whose secret still stands in the given table.
pub open spec fn live_attachments(aa: Seq<AttachmentV>, ss: Seq<SecretV>) -> Seq<AttachmentV> {
    aa.filter(|a: AttachmentV| has_secret(ss, a.secret_id))
}

/// Appending a row extends the active secrets with it exactly when it is
/// active.
pub proof fn lemma_active_secrets_push(s: Seq<SecretV>, e: SecretV)
    ensures
        active_secrets(s.push(e)) == (if e.deleted_at is None {
            active_secrets(s).push(e)
        } else {
            active_secrets(s)
        }),
{
    reveal(Seq::filter);
    assert(s.push(e).drop_last() =~= s);
}

/// Appending a row extends the trashed secrets with it exactly when it is
/// trashed.
pub proof fn lemma_deleted_secrets_push(s: Seq<SecretV>, e: SecretV)
    ensures
        deleted_secrets(s.push(e)) == (if e.deleted_at is Some {
            deleted_secrets(s).push(e)
        } else {
            deleted_secrets(s)
        }),
{
    reveal(Seq::filter);
    assert(s.push(e).drop_last() =~= s);
}

/// Appending a row extends the active projects with it exactly when it is
/// active.
pub proof fn lemma_active_projects_push(s: Seq<ProjectV>, e: ProjectV)
    ensures
        active_projects(s.push(e)) == (if e.deleted_at is None {
            active_projects(s).push(e)
        } else {
            active_projects(s)
        }),
{
    reveal(Seq::filter);
    assert(s.push(e).drop_last() =~= s);
}

/// Appending a row extends the trashed projects with it exactly when it
/// is trashed.
pub proof fn lemma_deleted_projects_push(s: Seq<ProjectV>, e: ProjectV)
    ensures
        deleted_projects(s.push(e)) == (if e.deleted_at is Some {
            deleted_projects(s).push(e)
        } else {
            deleted_projects(s)
        }),
{
    reveal(Seq::filter);
    assert(s.push(e).drop_last() =~= s);
}

/// Appending a row keeps it among the remaining secrets exactly when its
/// identifier differs.
pub proof fn lemma_remove_secret_push(s: Seq<SecretV>, e: SecretV, id: i64)
    ensures
        remove_secret(s.push(e), id) == (if e.id != id {
            remove_secret(s, id).push(e)
        } else {
            remove_secret(s, id)
        }),
{
    reveal(Seq::filter);
    assert(s.push(e).drop_last() =~= s);
}

/// Appending a row keeps it among the remaining projects exactly when its
/// identifier differs.
pub proof fn lemma_remove_project_push(s: Seq<ProjectV>, e: ProjectV, id: i64)
    ensures
        remove_project(s.push(e), id) == (if e.id != id {
            remove_project(s, id).push(e)
        } else {
            remove_project(s, id)
        }),
{
    reveal(Seq::filter);
    assert(s.push(e).drop_last() =~= s);
}

/// Appending a row keeps it among the remaining attachments exactly when
/// its identifier differs.
pub proof fn lemma_remove_attachment_push(s: Seq<AttachmentV>, e: AttachmentV, id: i64)
    ensures
        remove_attachment(s.push(e), id) == (if e.id != id {
            remove_attachment(s, id).push(e)
        } else {
            remove_attachment(s, id)
        }),
{
    reveal(Seq::filter);
    assert(s.push(e).drop_last() =~= s);
}

/// Appending a row extends one secret's attachments with it exactly when
/// it belongs to that secret.
pub proof fn lemma_attachments_of_push(s: Seq<AttachmentV>, e: AttachmentV, sid: i64)
    ensures
        attachments_of(s.push(e), sid) == (if e.secret_id == sid {
            attachments_of(s, sid).push(e)
        } else {
            attachments_of(s, sid)
        }),
{
    reveal(Seq::filter);
    assert(s.push(e).drop_last() =~= s);
}

/// Appending a row keeps it exactly when it belongs to another secret.
pub proof fn lemma_remove_attachments_of_push(s: Seq<AttachmentV>, e: AttachmentV, sid: i64)
    ensures
        remove_attachments_of(s.push(e), sid) == (if e.secret_id != sid {
            remove_attachments_of(s, sid).push(e)
        } else {
            remove_attachments_of(s, sid)
        }),
{
    reveal(Seq::filter);
    assert(s.push(e).drop_last() =~= s);
}

/// Appending a row keeps it exactly when its secret stands in the table.
pub proof fn lemma_live_attachments_push(s: Seq<AttachmentV>, e: AttachmentV, ss: Seq<SecretV>)
    ensures
        live_attachments(s.push(e), ss) == (if has_secret(ss, e.secret_id) {
            live_attachments(s, ss).push(e)
        } else {
            live_attachments(s, ss)
        }),
{
    reveal(Seq::filter);
    assert(s.push(e).drop_last() =~= s);
}

/// Removing a secret keeps the other rows in their order, each a row of
/// the original table.
pub proof fn lemma_remove_secret_ordered(s: Seq<SecretV>, id: i64)
    requires
        secret_ids_increasing(s),
    ensures
        secret_ids_increasing(remove_secret(s, id)),
        forall|i: int| 0 <= i < remove_secret(s, id).len() ==> s.contains(
            #[trigger] remove_secret(s, id)[i],
        ),
    decreases s.len(),
{
    reveal(Seq::filter);
    if s.len() == 0 {
    } else {
        let rest = s.drop_last();
        lemma_remove_secret_ordered(rest, id);
        assert(rest.push(s.last()) =~= s);
        assert forall|i: int| 0 <= i < remove_secret(s, id).len() implies s.contains(
            #[trigger] remove_secret(s, id)[i],
        ) by {
            if i < remove_secret(rest, id).len() {
                assert(rest.contains(remove_secret(rest, id)[i]));
                let w = choose|k: int| 0 <= k < rest.len() && rest[k] == remove_secret(rest, id)[i];
                assert(s[w] == remove_secret(s, id)[i]);
            } else {
                assert(remove_secret(s, id)[i] == s.last());
            }
        }
        assert forall|i: int, j: int|
            0 <= i < j < remove_secret(s, id).len() implies (#[trigger] remove_secret(s, id)[i]).id
            < (#[trigger] remove_secret(s, id)[j]).id by {
            if j >= remove_secret(rest, id).len() {
                assert(remove_secret(s, id)[j] == s.last());
                assert(rest.contains(remove_secret(rest, id)[i]));
                let w = choose|k: int| 0 <= k < rest.len() && rest[k] == remove_secret(rest, id)[i];
                assert(s[w].id < s[s.len() - 1].id);
            }
        }
    }
}

/// Removing a project keeps the other rows in their order, each a row of
/// the original table.
pub proof fn lemma_remove_project_ordered(s: Seq<ProjectV>, id: i64)
    requires
        project_ids_increasing(s),
    ensures
        project_ids_increasing(remove_project(s, id)),
        forall|i: int| 0 <= i < remove_project(s, id).len() ==> s.contains(
            #[trigger] remove_project(s, id)[i],
        ),
    decreases s.len(),
{
    reveal(Seq::filter);
    if s.len() == 0 {
    } else {
        let rest = s.drop_last();
        lemma_remove_project_ordered(rest, id);
        assert(rest.push(s.last()) =~= s);
        assert forall|i: int| 0 <= i < remove_project(s, id).len() implies s.contains(
            #[trigger] remove_project(s, id)[i],
        ) by {
            if i < remove_project(rest, id).len() {
                assert(rest.contains(remove_project(rest, id)[i]));
                let w = choose|k: int|
                    0 <= k < rest.len() && rest[k] == remove_project(rest, id)[i];
                assert(s[w] == remove_project(s, id)[i]);
            } else {
                assert(remove_project(s, id)[i] == s.last());
            }
        }
        assert forall|i: int, j: int|
            0 <= i < j < remove_project(s, id).len() implies (#[trigger] remove_project(
            s,
            id,
        )[i]).id < (#[trigger] remove_project(s, id)[j]).id by {
            if j >= remove_project(rest, id).len() {
                assert(remove_project(s, id)[j] == s.last());
                assert(rest.contains(remove_project(rest, id)[i]));
                let w = choose|k: int|
                    0 <= k < rest.len() && rest[k] == remove_project(rest, id)[i];
                assert(s[w].id < s[s.len() - 1].id);
            }
        }
    }
}

/// Removing an attachment keeps the other rows in their order, each a row
/// of the original table.
pub proof fn lemma_remove_attachment_ordered(s: Seq<AttachmentV>, id: i64)
    requires
        attachment_ids_increasing(s),
    ensures
        attachment_ids_increasing(remove_attachment(s, id)),
        forall|i: int| 0 <= i < remove_attachment(s, id).len() ==> s.contains(
            #[trigger] remove_attachment(s, id)[i],
        ),
    decreases s.len(),
{
    reveal(Seq::filter);
    if s.len() == 0 {
    } else {
        let rest = s.drop_last();
        lemma_remove_attachment_ordered(rest, id);
        assert(rest.push(s.last()) =~= s);
        assert forall|i: int| 0 <= i < remove_attachment(s, id).len() implies s.contains(
            #[trigger] remove_attachment(s, id)[i],
        ) by {
            if i < remove_attachment(rest, id).len() {
                assert(rest.contains(remove_attachment(rest, id)[i]));
                let w = choose|k: int|
                    0 <= k < rest.len() && rest[k] == remove_attachment(rest, id)[i];
                assert(s[w] == remove_attachment(s, id)[i]);
            } else {
                assert(remove_attachment(s, id)[i] == s.last());
            }
        }
        assert forall|i: int, j: int|
            0 <= i < j < remove_attachment(s, id).len() implies (#[trigger] remove_attachment(
            s,
            id,
        )[i]).id < (#[trigger] remove_attachment(s, id)[j]).id by {
            if j >= remove_attachment(rest, id).len() {
                assert(remove_attachment(s, id)[j] == s.last());
                assert(rest.contains(remove_attachment(rest, id)[i]));
                let w = choose|k: int|
                    0 <= k < rest.len() && rest[k] == remove_attachment(rest, id)[i];
                assert(s[w].id < s[s.len() - 1].id);
            }
        }
    }
}

/// Removing one secret's attachments keeps the other rows in their order,
/// each a row of the original table.
pub proof fn lemma_remove_attachments_of_ordered(s: Seq<AttachmentV>, sid: i64)
    requires
        attachment_ids_increasing(s),
    ensures
        attachment_ids_increasing(remove_attachments_of(s, sid)),
        forall|i: int| 0 <= i < remove_attachments_of(s, sid).len() ==> s.contains(
            #[trigger] remove_attachments_of(s, sid)[i],
        ),
    decreases s.len(),
{
    reveal(Seq::filter);
    if s.len() == 0 {
    } else {
        let rest = s.drop_last();
        lemma_remove_attachments_of_ordered(rest, sid);
        assert(rest.push(s.last()) =~= s);
        assert forall|i: int| 0 <= i < remove_attachments_of(s, sid).len() implies s.contains(
            #[trigger] remove_attachments_of(s, sid)[i],
        ) by {
            if i < remove_attachments_of(rest, sid).len() {
                assert(rest.contains(remove_attachments_of(rest, sid)[i]));
                let w = choose|k: int|
                    0 <= k < rest.len() && rest[k] == remove_attachments_of(rest, sid)[i];
                assert(s[w] == remove_attachments_of(s, sid)[i]);
            } else {
                assert(remove_attachments_of(s, sid)[i] == s.last());
            }
        }
        assert forall|i: int, j: int|
            0 <= i < j < remove_attachments_of(s, sid).len() implies (
        #[trigger] remove_attachments_of(s, sid)[i]).id < (#[trigger] remove_attachments_of(
            s,
            sid,
        )[j]).id by {
            if j >= remove_attachments_of(rest, sid).len() {
                assert(remove_attachments_of(s, sid)[j] == s.last());
                assert(rest.contains(remove_attachments_of(rest, sid)[i]));
                let w = choose|k: int|
                    0 <= k < rest.len() && rest[k] == remove_attachments_of(rest, sid)[i];
                assert(s[w].id < s[s.len() - 1].id);
            }
        }
    }
}

/// Keeping the active secrets keeps them in their order, each a row of
/// the original table.
pub proof fn lemma_active_secrets_ordered(s: Seq<SecretV>)
    requires
        secret_ids_increasing(s),
    ensures
        secret_ids_increasing(active_secrets(s)),
        forall|i: int| 0 <= i < active_secrets(s).len() ==> s.contains(
            #[trigger] active_secrets(s)[i],
        ),
    decreases s.len(),
{
    reveal(Seq::filter);
    if s.len() == 0 {
    } else {
        let rest = s.drop_last();
        lemma_active_secrets_ordered(rest);
        assert(rest.push(s.last()) =~= s);
        assert forall|i: int| 0 <= i < active_secrets(s).len() implies s.contains(
            #[trigger] active_secrets(s)[i],
        ) by {
            if i < active_secrets(rest).len() {
                assert(rest.contains(active_secrets(rest)[i]));
                let w = choose|k: int| 0 <= k < rest.len() && rest[k] == active_secrets(rest)[i];
                assert(s[w] == active_secrets(s)[i]);
            } else {
                assert(active_secrets(s)[i] == s.last());
            }
        }
        assert forall|i: int, j: int|
            0 <= i < j < active_secrets(s).len() implies (#[trigger] active_secrets(s)[i]).id < (
        #[trigger] active_secrets(s)[j]).id by {
            if j >= active_secrets(rest).len() {
                assert(active_secrets(s)[j] == s.last());
                assert(rest.contains(active_secrets(rest)[i]));
                let w = choose|k: int| 0 <= k < rest.len() && rest[k] == active_secrets(rest)[i];
                assert(s[w].id < s[s.len() - 1].id);
            }
        }
    }
}

/// Keeping the active projects keeps them in their order, each a row of
/// the original table.
pub proof fn lemma_active_projects_ordered(s: Seq<ProjectV>)
    requires
        project_ids_increasing(s),
    ensures
        project_ids_increasing(active_projects(s)),
        forall|i: int| 0 <= i < active_projects(s).len() ==> s.contains(
            #[trigger] active_projects(s)[i],
        ),
    decreases s.len(),
{
    reveal(Seq::filter);
    if s.len() == 0 {
    } else {
        let rest = s.drop_last();
        lemma_active_projects_ordered(rest);
        assert(rest.push(s.last()) =~= s);
        assert forall|i: int| 0 <= i < active_projects(s).len() implies s.contains(
            #[trigger] active_projects(s)[i],
        ) by {
            if i < active_projects(rest).len() {
                assert(rest.contains(active_projects(rest)[i]));
                let w = choose|k: int| 0 <= k < rest.len() && rest[k] == active_projects(rest)[i];
                assert(s[w] == active_projects(s)[i]);
            } else {
                assert(active_projects(s)[i] == s.last());
            }
        }
        assert forall|i: int, j: int|
            0 <= i < j < active_projects(s).len() implies (#[trigger] active_projects(s)[i]).id < (
        #[trigger] active_projects(s)[j]).id by {
            if j >= active_projects(rest).len() {
                assert(active_projects(s)[j] == s.last());
                assert(rest.contains(active_projects(rest)[i]));
                let w = choose|k: int| 0 <= k < rest.len() && rest[k] == active_projects(rest)[i];
                assert(s[w].id < s[s.len() - 1].id);
            }
        }
    }
}

/// Keeping the attachments of surviving secrets keeps them in their
/// order, each a row of the original table.
pub proof fn lemma_live_attachments_ordered(s: Seq<AttachmentV>, ss: Seq<SecretV>)
    requires
        attachment_ids_increasing(s),
    ensures
        attachment_ids_increasing(live_attachments(s, ss)),
        forall|i: int| 0 <= i < live_attachments(s, ss).len() ==> s.contains(
            #[trigger] live_attachments(s, ss)[i],
        ),
    decreases s.len(),
{
    reveal(Seq::filter);
    if s.len() == 0 {
    } else {
        let rest = s.drop_last();
        lemma_live_attachments_ordered(rest, ss);
        assert(rest.push(s.last()) =~= s);
        assert forall|i: int| 0 <= i < live_attachments(s, ss).len() implies s.contains(
            #[trigger] live_attachments(s, ss)[i],
        ) by {
            if i < live_attachments(rest, ss).len() {
                assert(rest.contains(live_attachments(rest, ss)[i]));
                let w = choose|k: int|
                    0 <= k < rest.len() && rest[k] == live_attachments(rest, ss)[i];
                assert(s[w] == live_attachments(s, ss)[i]);
            } else {
                assert(live_attachments(s, ss)[i] == s.last());
            }
        }
        assert forall|i: int, j: int|
            0 <= i < j < live_attachments(s, ss).len() implies (#[trigger] live_attachments(
            s,
            ss,
        )[i]).id < (#[trigger] live_attachments(s, ss)[j]).id by {
            if j >= live_attachments(rest, ss).len() {
                assert(live_attachments(s, ss)[j] == s.last());
                assert(rest.contains(live_attachments(rest, ss)[i]));
                let w = choose|k: int|
                    0 <= k < rest.len() && rest[k] == live_attachments(rest, ss)[i];
                assert(s[w].id < s[s.len() - 1].id);
            }
        }
    }
}

/// Whether some row of this table of secrets carries this identifier.
pub fn secrets_contain(v: &Vec<Secret>, sid: i64) -> (r: bool)
    ensures
        r == has_secret(view_secrets(v@), sid),
{
    let ghost svs = view_secrets(v@);
    let mut i: usize = 0;
    while i < v.len()
        invariant
            i <= v.len(),
            svs == view_secrets(v@),
            svs.len() == v.len(),
            forall|k: int| 0 <= k < i ==> (#[trigger] svs[k]).id != sid,
        decreases v.len() - i,
    {
        let s = &v[i];
        proof {
            assert(s@ == svs[i as int]);
        }
        if s.id == sid {
            return true;
        }
        i = i + 1;
    }
    false
}

/// Whether some row of this table of projects carries this identifier and
/// is active.
pub fn projects_contain_active(v: &Vec<Project>, pid: i64) -> (r: bool)
    ensures
        r == has_active_project(view_projects(v@), pid),
{
    let ghost pvs = view_projects(v@);
    let mut i: usize = 0;
    while i < v.len()
        invariant
            i <= v.len(),
            pvs == view_projects(v@),
            pvs.len() == v.len(),
            forall|k: int| 0 <= k < i ==> !((#[trigger] pvs[k]).id == pid && pvs[k].deleted_at
                is None),
        decreases v.len() - i,
    {
        let p = &v[i];
        proof {
            assert(p@ == pvs[i as int]);
        }
        if p.id == pid && p.deleted_at.is_none() {
            return true;
        }
        i = i + 1;
    }
    false
}

/// Identifiers that grow from each row to the next grow across any two
/// rows.
proof fn lemma_secret_ids_chain(ss: Seq<SecretV>, i: int, j: int)
    requires
        forall|k: int| 0 <= k < ss.len() - 1 ==> (#[trigger] ss[k]).id < ss[k + 1].id,
        0 <= i < j < ss.len(),
    ensures
        ss[i].id < ss[j].id,
    decreases j - i,
{
    if j > i + 1 {
        lemma_secret_ids_chain(ss, i, j - 1);
    }
}

/// Identifiers that grow from each row to the next grow across any two
/// rows.
proof fn lemma_project_ids_chain(ps: Seq<ProjectV>, i: int, j: int)
    requires
        forall|k: int| 0 <= k < ps.len() - 1 ==> (#[trigger] ps[k]).id < ps[k + 1].id,
        0 <= i < j < ps.len(),
    ensures
        ps[i].id < ps[j].id,
    decreases j - i,
{
    if j > i + 1 {
        lemma_project_ids_chain(ps, i, j - 1);
    }
}

/// Identifiers that grow from each row to the next grow across any two
/// rows.
proof fn lemma_attachment_ids_chain(aa: Seq<AttachmentV>, i: int, j: int)
    requires
        forall|k: int| 0 <= k < aa.len() - 1 ==> (#[trigger] aa[k]).id < aa[k + 1].id,
        0 <= i < j < aa.len(),
    ensures
        aa[i].id < aa[j].id,
    decreases j - i,
{
    if j > i + 1 {
        lemma_attachment_ids_chain(aa, i, j - 1);
    }
}

impl RecordStore {
    /// The store's invariant, on the executable value.
    pub open spec fn wf(&self) -> bool {
        self@.wf()
    }

    /// A freshly created, empty record store.
    pub fn new() -> (r: RecordStore)
        ensures
            r@ == empty_store(),
            r.wf(),
    {
        let r = RecordStore {
            version: 0,
            secrets: Vec::new(),
            projects: Vec::new(),
            attachments: Vec::new(),
            next_secret_id: 1,
            next_project_id: 1,
            next_attachment_id: 1,
        };
        proof {
            assert(r@ =~= empty_store());
        }
        r
    }

    /// Whether this value satisfies the store's invariant — the check a
    /// decoded image must pass before the store is trusted with it.
    #[verifier::rlimit(100)]
    pub fn validate(&self) -> (r: bool)
        ensures
            r == self.wf(),
    {
        if self.next_secret_id < 1 || self.next_project_id < 1 || self.next_attachment_id < 1 {
            return false;
        }
        let ghost svs = self@.secrets;
        let ghost pvs = self@.projects;
        let ghost avs = self@.attachments;
        let mut i: usize = 0;
        while i < self.secrets.len()
            invariant
                i <= self.secrets.len(),
                svs == self@.secrets,
                pvs == self@.projects,
                svs.len() == self.secrets.len(),
                forall|k: int| 0 <= k < i ==> 1 <= (#[trigger] svs[k]).id < self@.next_secret_id,
                forall|k: int| 0 <= k < i ==> secret_times_ok(#[trigger] svs[k]),
                forall|k: int| 0 <= k < i ==> match (#[trigger] svs[k]).project_id {
                    Some(p) => has_active_project(pvs, p),
                    None => true,
                },
                forall|k: int| 0 <= k < i && k < svs.len() - 1 ==> (#[trigger] svs[k]).id < svs[k
                    + 1].id,
            decreases self.secrets.len() - i,
        {
            let s = &self.secrets[i];
            proof {
                assert(s@ == svs[i as int]);
            }
            if s.id < 1 || s.id >= self.next_secret_id {
                return false;
            }
            match s.deleted_at {
                Some(d) => {
                    if d < s.created_at {
                        return false;
                    }
                },
                None => {},
            }
            match s.project_id {
                Some(pid) => {
                    if !projects_contain_active(&self.projects, pid) {
                        return false;
                    }
                    proof {
                        assert(svs[i as int].project_id == Some(pid));
                        assert(has_active_project(pvs, pid));
                    }
                },
                None => {
                    proof {
                        assert(svs[i as int].project_id is None);
                    }
                },
            }
            if i + 1 < self.secrets.len() {
                let t = &self.secrets[i + 1];
                proof {
                    assert(t@ == svs[i as int + 1]);
                }
                if s.id >= t.id {
                    return false;
                }
            }
            i = i + 1;
        }
        let mut j: usize = 0;
        while j < self.projects.len()
            invariant
                j <= self.projects.len(),
                pvs == self@.projects,
                pvs.len() == self.projects.len(),
                forall|k: int| 0 <= k < j ==> 1 <= (#[trigger] pvs[k]).id < self@.next_project_id,
                forall|k: int| 0 <= k < j ==> project_times_ok(#[trigger] pvs[k]),
                forall|k: int| 0 <= k < j && k < pvs.len() - 1 ==> (#[trigger] pvs[k]).id < pvs[k
                    + 1].id,
            decreases self.projects.len() - j,
        {
            let p = &self.projects[j];
            proof {
                assert(p@ == pvs[j as int]);
            }
            if p.id < 1 || p.id >= self.next_project_id {
                return false;
            }
            match p.deleted_at {
                Some(d) => {
                    if d < p.created_at {
                        return false;
                    }
                },
                None => {},
            }
            if j + 1 < self.projects.len() {
                let t = &self.projects[j + 1];
                proof {
                    assert(t@ == pvs[j as int + 1]);
                }
                if p.id >= t.id {
                    return false;
                }
            }
            j = j + 1;
        }
        let mut m: usize = 0;
        while m < self.attachments.len()
            invariant
                m <= self.attachments.len(),
                svs == self@.secrets,
                avs == self@.attachments,
                avs.len() == self.attachments.len(),
                forall|k: int| 0 <= k < m ==> 1 <= (#[trigger] avs[k]).id
                    < self@.next_attachment_id,
                forall|k: int| 0 <= k < m ==> attachment_size_ok(#[trigger] avs[k]),
                forall|k: int| 0 <= k < m ==> has_secret(svs, (#[trigger] avs[k]).secret_id),
                forall|k: int| 0 <= k < m && k < avs.len() - 1 ==> (#[trigger] avs[k]).id < avs[k
                    + 1].id,
            decreases self.attachments.len() - m,
        {
            let a = &self.attachments[m];
            proof {
                assert(a@ == avs[m as int]);
            }
            if a.id < 1 || a.id >= self.next_attachment_id {
                return false;
            }
            if a.file_size != a.content.len() as u64 {
                return false;
            }
            if !secrets_contain(&self.secrets, a.secret_id) {
                return false;
            }
            if m + 1 < self.attachments.len() {
                let t = &self.attachments[m + 1];
                proof {
                    assert(t@ == avs[m as int + 1]);
                }
                if a.id >= t.id {
                    return false;
                }
            }
            m = m + 1;
        }
        proof {
            assert forall|x: int, y: int| 0 <= x < y < svs.len() implies (#[trigger] svs[x]).id < (
            #[trigger] svs[y]).id by {
                lemma_secret_ids_chain(svs, x, y);
            }
            assert forall|x: int, y: int| 0 <= x < y < pvs.len() implies (#[trigger] pvs[x]).id < (
            #[trigger] pvs[y]).id by {
                lemma_project_ids_chain(pvs, x, y);
            }
            assert forall|x: int, y: int| 0 <= x < y < avs.len() implies (#[trigger] avs[x]).id < (
            #[trigger] avs[y]).id by {
                lemma_attachment_ids_chain(avs, x, y);
            }
        }
        true
    }
}

} // verus!
