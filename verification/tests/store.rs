use secrets_manager::records::{Project, Secret};
use secrets_manager::store::RecordStore;
use secrets_manager::VaultError;

fn new_store() -> RecordStore {
    RecordStore::new()
}

#[test]
fn create_and_list_secrets() {
    let mut st = new_store();
    let a = st.create_secret("a".to_string(), "ua".to_string(), "pa".to_string(), 10).unwrap();
    let b = st.create_secret("b".to_string(), "ub".to_string(), "pb".to_string(), 11).unwrap();
    assert_eq!(a.id, 1);
    assert_eq!(b.id, 2);
    assert_eq!(a.created_at, 10);
    assert_eq!(a.deleted_at, None);
    assert_eq!(a.project_id, None);

    let all = st.get_all_secrets();
    assert_eq!(all.len(), 2);
    assert_eq!(all[0].title, "a");
    assert_eq!(all[1].title, "b");
    assert!(st.get_deleted_secrets().is_empty());
}

#[test]
fn soft_delete_restore_round_trip() {
    let mut st = new_store();
    let s = st.create_secret("mail".to_string(), "me".to_string(), "pw".to_string(), 10).unwrap();
    let before = st.get_all_secrets();

    st.soft_delete_secret(s.id, 20);
    assert!(st.get_all_secrets().is_empty());
    let trashed = st.get_deleted_secrets();
    assert_eq!(trashed.len(), 1);
    assert_eq!(trashed[0].deleted_at, Some(20));

    st.restore_secret(s.id);
    let after = st.get_all_secrets();
    assert_eq!(after.len(), 1);
    // The restored record is identical to the pre-delete state, its
    // deletion mark cleared.
    assert_eq!(after[0].id, before[0].id);
    assert_eq!(after[0].title, before[0].title);
    assert_eq!(after[0].username, before[0].username);
    assert_eq!(after[0].password, before[0].password);
    assert_eq!(after[0].created_at, before[0].created_at);
    assert_eq!(after[0].project_id, before[0].project_id);
    assert_eq!(after[0].deleted_at, None);
}

#[test]
fn soft_delete_never_predates_creation() {
    let mut st = new_store();
    let s = st.create_secret("t".to_string(), "u".to_string(), "p".to_string(), 100).unwrap();
    // A clock reading earlier than creation is clamped to creation.
    st.soft_delete_secret(s.id, 50);
    let trashed = st.get_deleted_secrets();
    assert_eq!(trashed[0].deleted_at, Some(100));
}

#[test]
fn restore_is_unconditional() {
    let mut st = new_store();
    let s = st.create_secret("t".to_string(), "u".to_string(), "p".to_string(), 1).unwrap();
    // Restoring an active record is a no-op.
    st.restore_secret(s.id);
    let all = st.get_all_secrets();
    assert_eq!(all.len(), 1);
    assert_eq!(all[0].deleted_at, None);
}

#[test]
fn update_secret_replaces_fields() {
    let mut st = new_store();
    let s = st.create_secret("t".to_string(), "u".to_string(), "p".to_string(), 1).unwrap();
    st.update_secret(s.id, "t2".to_string(), "u2".to_string(), "p2".to_string());
    let all = st.get_all_secrets();
    assert_eq!(all[0].title, "t2");
    assert_eq!(all[0].username, "u2");
    assert_eq!(all[0].password, "p2");
    assert_eq!(all[0].created_at, 1);
}

#[test]
fn delete_secret_removes_row_and_attachments() {
    let mut st = new_store();
    let s = st.create_secret("t".to_string(), "u".to_string(), "p".to_string(), 1).unwrap();
    st.add_attachment(s.id, "f".to_string(), "m".to_string(), vec![1], 2).unwrap();
    st.delete_secret(s.id);
    assert!(st.get_all_secrets().is_empty());
    assert!(st.get_deleted_secrets().is_empty());
    assert!(st.get_attachments_metadata(s.id).is_empty());
}

fn store_with_attached_project() -> (RecordStore, i64, i64, i64) {
    // Project 1 with secrets 1 and 2 referencing it, secret 3 detached.
    let p = Project {
        id: 1,
        name: "P".to_string(),
        description: None,
        created_at: 5,
        deleted_at: None,
    };
    let mk = |id: i64, title: &str, pid: Option<i64>| Secret {
        id,
        project_id: pid,
        title: title.to_string(),
        username: "u".to_string(),
        password: "p".to_string(),
        created_at: 6,
        deleted_at: None,
    };
    let st = RecordStore {
        version: 0,
        secrets: vec![mk(1, "s1", Some(1)), mk(2, "s2", Some(1)), mk(3, "s3", None)],
        projects: vec![p],
        attachments: Vec::new(),
        next_secret_id: 4,
        next_project_id: 2,
        next_attachment_id: 1,
    };
    assert!(st.validate());
    (st, 1, 1, 2)
}

#[test]
fn delete_project_detaches_secrets() {
    let (mut st, pid, s1, s2) = store_with_attached_project();
    st.delete_project(pid);
    assert!(st.get_all_projects().is_empty());
    let all = st.get_all_secrets();
    assert_eq!(all.len(), 3);
    for s in &all {
        assert_eq!(s.project_id, None);
    }
    assert!(all.iter().any(|s| s.id == s1));
    assert!(all.iter().any(|s| s.id == s2));
}

#[test]
fn soft_delete_project_detaches_secrets() {
    let (mut st, pid, _, _) = store_with_attached_project();
    st.soft_delete_project(pid, 9);
    assert!(st.get_all_projects().is_empty());
    let trashed = st.get_deleted_projects();
    assert_eq!(trashed.len(), 1);
    assert_eq!(trashed[0].deleted_at, Some(9));
    for s in &st.get_all_secrets() {
        assert_eq!(s.project_id, None);
    }

    st.restore_project(pid);
    let back = st.get_all_projects();
    assert_eq!(back.len(), 1);
    assert_eq!(back[0].deleted_at, None);
}

#[test]
fn project_crud() {
    let mut st = new_store();
    let pid = st.create_project("work".to_string(), Some("desc".to_string()), 3).unwrap();
    assert_eq!(pid, 1);
    let got = st.get_project(pid).unwrap();
    assert_eq!(got.name, "work");
    assert_eq!(got.description, Some("desc".to_string()));
    assert_eq!(st.get_project(99).err(), Some(VaultError::StorageError));

    st.update_project(pid, "home".to_string(), None);
    assert_eq!(st.get_project(pid).unwrap().name, "home");
    assert_eq!(st.get_project(pid).unwrap().description, None);
}

#[test]
fn project_listings_sort_by_name() {
    let mut st = new_store();
    st.create_project("banana".to_string(), None, 1).unwrap();
    st.create_project("apple".to_string(), None, 2).unwrap();
    let cherry = st.create_project("cherry".to_string(), None, 3).unwrap();
    let all = st.get_all_projects();
    let names: Vec<&str> = all.iter().map(|p| p.name.as_str()).collect();
    assert_eq!(names, vec!["apple", "banana", "cherry"]);

    st.soft_delete_project(cherry, 4);
    st.create_project("apricot".to_string(), None, 5).unwrap();
    let names: Vec<String> = st.get_all_projects().iter().map(|p| p.name.clone()).collect();
    assert_eq!(names, vec!["apple", "apricot", "banana"]);
    let trash: Vec<String> = st.get_deleted_projects().iter().map(|p| p.name.clone()).collect();
    assert_eq!(trash, vec!["cherry"]);
}

#[test]
fn attachment_listing_is_newest_first() {
    let mut st = new_store();
    let s = st.create_secret("t".to_string(), "u".to_string(), "p".to_string(), 1).unwrap();
    st.add_attachment(s.id, "old".to_string(), "m".to_string(), vec![1], 10).unwrap();
    st.add_attachment(s.id, "new".to_string(), "m".to_string(), vec![2], 20).unwrap();
    st.add_attachment(s.id, "mid".to_string(), "m".to_string(), vec![3], 15).unwrap();
    let names: Vec<String> = st
        .get_attachments_metadata(s.id)
        .iter()
        .map(|m| m.filename.clone())
        .collect();
    assert_eq!(names, vec!["new", "mid", "old"]);
}

#[test]
fn attachment_crud() {
    let mut st = new_store();
    let s = st.create_secret("t".to_string(), "u".to_string(), "p".to_string(), 1).unwrap();
    let m = st
        .add_attachment(s.id, "f.txt".to_string(), "text/plain".to_string(), vec![9, 8, 7], 2)
        .unwrap();
    assert_eq!(m.id, 1);
    assert_eq!(m.secret_id, s.id);
    assert_eq!(m.file_size, 3);

    let metas = st.get_attachments_metadata(s.id);
    assert_eq!(metas.len(), 1);
    assert_eq!(metas[0].filename, "f.txt");
    assert_eq!(st.get_attachment_content(m.id).unwrap(), vec![9, 8, 7]);
    assert_eq!(st.get_attachment_content(42).err(), Some(VaultError::StorageError));

    st.delete_attachment(m.id);
    assert!(st.get_attachments_metadata(s.id).is_empty());
}

#[test]
fn attachment_needs_existing_secret() {
    let mut st = new_store();
    let r = st.add_attachment(7, "f".to_string(), "m".to_string(), vec![], 1);
    assert_eq!(r.err(), Some(VaultError::StorageError));
}

#[test]
fn empty_trash_purges_trashed_rows() {
    let mut st = new_store();
    let keep = st.create_secret("keep".to_string(), "u".to_string(), "p".to_string(), 1).unwrap();
    let gone = st.create_secret("gone".to_string(), "u".to_string(), "p".to_string(), 2).unwrap();
    st.add_attachment(gone.id, "f".to_string(), "m".to_string(), vec![1], 3).unwrap();
    let pid = st.create_project("trash me".to_string(), None, 4).unwrap();
    st.soft_delete_secret(gone.id, 5);
    st.soft_delete_project(pid, 6);

    st.empty_trash();
    let all = st.get_all_secrets();
    assert_eq!(all.len(), 1);
    assert_eq!(all[0].id, keep.id);
    assert!(st.get_deleted_secrets().is_empty());
    assert!(st.get_all_projects().is_empty());
    assert!(st.get_deleted_projects().is_empty());
    assert!(st.get_attachments_metadata(gone.id).is_empty());
}

#[test]
fn import_dedup_counts() {
    let mut st = new_store();
    st.create_secret("a".to_string(), "b".to_string(), "c".to_string(), 1).unwrap();

    let incoming = vec![
        Secret {
            id: 100,
            project_id: Some(3),
            title: "a".to_string(),
            username: "b".to_string(),
            password: "c".to_string(),
            created_at: 0,
            deleted_at: None,
        },
        Secret {
            id: 101,
            project_id: None,
            title: "x".to_string(),
            username: "y".to_string(),
            password: "z".to_string(),
            created_at: 0,
            deleted_at: None,
        },
    ];
    let (inserted, skipped) = st.import_secrets(&incoming, 50).unwrap();
    assert_eq!(inserted, 1);
    assert_eq!(skipped, 1);

    let all = st.get_all_secrets();
    assert_eq!(all.len(), 2);
    // The only new row is the second incoming record, as a fresh row.
    assert_eq!(all[1].title, "x");
    assert_eq!(all[1].username, "y");
    assert_eq!(all[1].password, "z");
    assert_eq!(all[1].id, 2);
    assert_eq!(all[1].project_id, None);
    assert_eq!(all[1].created_at, 50);
}

#[test]
fn import_dedup_is_against_the_snapshot() {
    let mut st = new_store();
    // Two identical incoming records that match nothing existing are both
    // inserted: matching is judged against the records present at the
    // start of the merge.
    let twin = Secret {
        id: 0,
        project_id: None,
        title: "t".to_string(),
        username: "u".to_string(),
        password: "p".to_string(),
        created_at: 0,
        deleted_at: None,
    };
    let (inserted, skipped) = st.import_secrets(&vec![twin.clone(), twin], 9).unwrap();
    assert_eq!(inserted, 2);
    assert_eq!(skipped, 0);
}

#[test]
fn import_matches_trashed_rows_too() {
    let mut st = new_store();
    let s = st.create_secret("a".to_string(), "b".to_string(), "c".to_string(), 1).unwrap();
    st.soft_delete_secret(s.id, 2);
    let incoming = vec![Secret {
        id: 0,
        project_id: None,
        title: "a".to_string(),
        username: "b".to_string(),
        password: "c".to_string(),
        created_at: 0,
        deleted_at: None,
    }];
    let (inserted, skipped) = st.import_secrets(&incoming, 3).unwrap();
    assert_eq!(inserted, 0);
    assert_eq!(skipped, 1);
}
