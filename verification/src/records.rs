use vstd::prelude::*;

verus! {

/// A stored credential. `project_id` is a soft reference: deleting the
/// project detaches the secret instead of removing it. `deleted_at` marks
/// the secret as trashed; an absent value means active.
pub struct Secret {
    pub id: i64,
    pub project_id: Option<i64>,
    pub title: String,
    pub username: String,
    pub password: String,
    pub created_at: u64,
    pub deleted_at: Option<u64>,
}

/// The mathematical value of a `Secret`.
#[verifier::ext_equal]
pub ghost struct SecretV {
    pub id: i64,
    pub project_id: Option<i64>,
    pub title: Seq<char>,
    pub username: Seq<char>,
    pub password: Seq<char>,
    pub created_at: u64,
    pub deleted_at: Option<u64>,
}

impl View for Secret {
    type V = SecretV;

    open spec fn view(&self) -> SecretV {
        SecretV {
            id: self.id,
            project_id: self.project_id,
            title: self.title@,
            username: self.username@,
            password: self.password@,
            created_at: self.created_at,
            deleted_at: self.deleted_at,
        }
    }
}

impl Clone for Secret {
    fn clone(&self) -> (r: Self)
        ensures
            r@ == self@,
    {
        Secret {
            id: self.id,
            project_id: self.project_id,
            title: self.title.clone(),
            username: self.username.clone(),
            password: self.password.clone(),
            created_at: self.created_at,
            deleted_at: self.deleted_at,
        }
    }
}

/// The view of an optional string.
pub open spec fn view_opt_string(d: Option<String>) -> Option<Seq<char>> {
    match d {
        Some(s) => Some(s@),
        None => None,
    }
}

/// A grouping of secrets. Soft-deleting or deleting a project always
/// detaches its secrets first; it never removes them.
pub struct Project {
    pub id: i64,
    pub name: String,
    pub description: Option<String>,
    pub created_at: u64,
    pub deleted_at: Option<u64>,
}

/// The mathematical value of a `Project`.
#[verifier::ext_equal]
pub ghost struct ProjectV {
    pub id: i64,
    pub name: Seq<char>,
    pub description: Option<Seq<char>>,
    pub created_at: u64,
    pub deleted_at: Option<u64>,
}

impl View for Project {
    type V = ProjectV;

    open spec fn view(&self) -> ProjectV {
        ProjectV {
            id: self.id,
            name: self.name@,
            description: view_opt_string(self.description),
            created_at: self.created_at,
            deleted_at: self.deleted_at,
        }
    }
}

impl Clone for Project {
    fn clone(&self) -> (r: Self)
        ensures
            r@ == self@,
    {
        Project {
            id: self.id,
            name: self.name.clone(),
            description: match &self.description {
                Some(d) => Some(d.clone()),
                None => None,
            },
            created_at: self.created_at,
            deleted_at: self.deleted_at,
        }
    }
}

/// A binary attachment of a secret, held whole: its descriptive fields
/// together with its content. Attachments reference their secret
/// strongly and know no soft delete.
pub struct Attachment {
    pub id: i64,
    pub secret_id: i64,
    pub filename: String,
    pub mime_type: String,
    pub file_size: u64,
    pub created_at: u64,
    pub content: Vec<u8>,
}

/// The mathematical value of an `Attachment`.
#[verifier::ext_equal]
pub ghost struct AttachmentV {
    pub id: i64,
    pub secret_id: i64,
    pub filename: Seq<char>,
    pub mime_type: Seq<char>,
    pub file_size: u64,
    pub created_at: u64,
    pub content: Seq<u8>,
}

impl View for Attachment {
    type V = AttachmentV;

    open spec fn view(&self) -> AttachmentV {
        AttachmentV {
            id: self.id,
            secret_id: self.secret_id,
            filename: self.filename@,
            mime_type: self.mime_type@,
            file_size: self.file_size,
            created_at: self.created_at,
            content: self.content@,
        }
    }
}

impl Clone for Attachment {
    fn clone(&self) -> (r: Self)
        ensures
            r@ == self@,
    {
        Attachment {
            id: self.id,
            secret_id: self.secret_id,
            filename: self.filename.clone(),
            mime_type: self.mime_type.clone(),
            file_size: self.file_size,
            created_at: self.created_at,
            content: self.content.clone(),
        }
    }
}

/// The descriptive fields of an attachment, without its content: what a
/// listing returns.
pub struct AttachmentMetadata {
    pub id: i64,
    pub secret_id: i64,
    pub filename: String,
    pub mime_type: String,
    pub file_size: u64,
    pub created_at: u64,
}

/// The mathematical value of an `AttachmentMetadata`.
#[verifier::ext_equal]
pub ghost struct AttachmentMetadataV {
    pub id: i64,
    pub secret_id: i64,
    pub filename: Seq<char>,
    pub mime_type: Seq<char>,
    pub file_size: u64,
    pub created_at: u64,
}

impl View for AttachmentMetadata {
    type V = AttachmentMetadataV;

    open spec fn view(&self) -> AttachmentMetadataV {
        AttachmentMetadataV {
            id: self.id,
            secret_id: self.secret_id,
            filename: self.filename@,
            mime_type: self.mime_type@,
            file_size: self.file_size,
            created_at: self.created_at,
        }
    }
}

/// The metadata of a stored attachment.
pub open spec fn metadata_of(a: AttachmentV) -> AttachmentMetadataV {
    AttachmentMetadataV {
        id: a.id,
        secret_id: a.secret_id,
        filename: a.filename,
        mime_type: a.mime_type,
        file_size: a.file_size,
        created_at: a.created_at,
    }
}

} // verus!
