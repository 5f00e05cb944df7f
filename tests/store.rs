use notes_backend::{Identity, NoteStore, Permission, VersionsError};

fn who(b: u8) -> Identity {
    Identity::new(vec![b, 7, b])
}

fn contents(store: &NoteStore, id: u64, caller: &Identity) -> Vec<String> {
    store
        .get_note_versions(id, caller)
        .ok()
        .unwrap()
        .iter()
        .map(|v| v.content.clone())
        .collect()
}

#[test]
fn ids_increase_and_are_not_reused() {
    let o = who(1);
    let mut s = NoteStore::new();
    let a = s.add_note("a".to_string(), "x".to_string(), o.clone(), 10);
    let b = s.add_note("b".to_string(), "y".to_string(), o.clone(), 11);
    assert_eq!(a, 0);
    assert_eq!(b, 1);
    assert!(s.delete_note(b, &o).is_some());
    let c = s.add_note("c".to_string(), "z".to_string(), o.clone(), 12);
    assert_eq!(c, 2);
    assert!(s.get_note(b, &o).is_none());
}

#[test]
fn read_after_create() {
    let o = who(1);
    let mut s = NoteStore::new();
    let id = s.add_note("title".to_string(), "body".to_string(), o.clone(), 42);
    let n = s.get_note(id, &o).unwrap();
    assert_eq!(n.id, id);
    assert_eq!(n.title, "title");
    assert_eq!(n.content, "body");
    assert!(n.owner == o);
    assert_eq!(n.created_at, 42);
    assert_eq!(n.updated_at, 42);
    assert_eq!(n.versions.len(), 1);
    assert_eq!(n.versions[0].content, "body");
    assert_eq!(n.versions[0].updated_at, 42);
    assert!(n.shared_with.is_empty());
    assert!(!n.is_markdown);
}

#[test]
fn stranger_cannot_read_or_update() {
    let o = who(1);
    let u = who(2);
    let mut s = NoteStore::new();
    let id = s.add_note("t".to_string(), "c".to_string(), o.clone(), 1);
    assert!(s.get_note(id, &u).is_none());
    assert!(s.update_note(id, "t2".to_string(), "c2".to_string(), &u, 2).is_none());
    let n = s.get_note(id, &o).unwrap();
    assert_eq!(n.title, "t");
    assert_eq!(n.content, "c");
    assert_eq!(n.updated_at, 1);
    assert_eq!(n.versions.len(), 1);
}

#[test]
fn update_archives_previous_content() {
    let o = who(1);
    let mut s = NoteStore::new();
    let id = s.add_note("t1".to_string(), "c1".to_string(), o.clone(), 1);
    let n = s.update_note(id, "t2".to_string(), "c2".to_string(), &o, 5).unwrap();
    assert_eq!(n.title, "t2");
    assert_eq!(n.content, "c2");
    assert_eq!(n.updated_at, 5);
    assert_eq!(n.created_at, 1);
    assert_eq!(n.versions.len(), 2);
    assert_eq!(n.versions[1].content, "c1");
    assert_eq!(n.versions[1].updated_at, 1);
    assert_eq!(s.get_note(id, &o).unwrap().content, "c2");
}

#[test]
fn revert_appends_current_content() {
    let o = who(1);
    let mut s = NoteStore::new();
    let id = s.add_note("t".to_string(), "one".to_string(), o.clone(), 1);
    s.update_note(id, "t".to_string(), "two".to_string(), &o, 2).unwrap();
    s.update_note(id, "t".to_string(), "three".to_string(), &o, 3).unwrap();
    let n = s.revert_to_version(id, 1, &o, 4).unwrap();
    assert_eq!(n.content, "one");
    assert_eq!(n.updated_at, 4);
    assert_eq!(contents(&s, id, &o), vec!["one", "one", "two", "three"]);
}

#[test]
fn revert_out_of_range_changes_nothing() {
    let o = who(1);
    let mut s = NoteStore::new();
    let id = s.add_note("t".to_string(), "one".to_string(), o.clone(), 1);
    assert!(s.revert_to_version(id, 1, &o, 9).is_none());
    assert!(s.revert_to_version(id, usize::MAX, &o, 9).is_none());
    let n = s.get_note(id, &o).unwrap();
    assert_eq!(n.content, "one");
    assert_eq!(n.updated_at, 1);
    assert_eq!(n.versions.len(), 1);
}

#[test]
fn read_grant_allows_reading_only() {
    let o = who(1);
    let u = who(2);
    let mut s = NoteStore::new();
    let id = s.add_note("t".to_string(), "c".to_string(), o.clone(), 1);
    assert!(s.share_note(id, u.clone(), Permission::Read, &o).is_some());
    assert_eq!(s.get_note(id, &u).unwrap().content, "c");
    assert!(s.update_note(id, "x".to_string(), "y".to_string(), &u, 2).is_none());
    assert!(s.toggle_markdown(id, &u).is_none());
    assert!(s.revert_to_version(id, 0, &u, 2).is_none());
    assert_eq!(s.get_note(id, &o).unwrap().content, "c");
}

#[test]
fn regranting_replaces_permission() {
    let o = who(1);
    let u = who(2);
    let mut s = NoteStore::new();
    let id = s.add_note("t".to_string(), "c".to_string(), o.clone(), 1);
    s.share_note(id, u.clone(), Permission::Read, &o).unwrap();
    let n = s.share_note(id, u.clone(), Permission::Write, &o).unwrap();
    assert_eq!(n.shared_with.len(), 1);
    assert_eq!(n.shared_with[0].1, Permission::Write);
    assert!(s.update_note(id, "x".to_string(), "y".to_string(), &u, 2).is_some());
}

#[test]
fn only_owner_shares_revokes_and_deletes() {
    let o = who(1);
    let u = who(2);
    let v = who(3);
    let mut s = NoteStore::new();
    let id = s.add_note("t".to_string(), "c".to_string(), o.clone(), 1);
    s.share_note(id, u.clone(), Permission::Write, &o).unwrap();
    assert!(s.share_note(id, v.clone(), Permission::Read, &u).is_none());
    assert!(s.revoke_access(id, &u, &u).is_none());
    assert!(s.delete_note(id, &u).is_none());
    assert!(s.get_note(id, &v).is_none());
    assert!(s.get_note(id, &o).is_some());
}

#[test]
fn revoke_hides_note_from_user() {
    let o = who(1);
    let u = who(2);
    let mut s = NoteStore::new();
    let id = s.add_note("t".to_string(), "c".to_string(), o.clone(), 1);
    s.share_note(id, u.clone(), Permission::Write, &o).unwrap();
    assert!(s.get_note(id, &u).is_some());
    let n = s.revoke_access(id, &u, &o).unwrap();
    assert!(n.shared_with.is_empty());
    assert!(s.get_note(id, &u).is_none());
    assert!(s.get_note(id, &o).is_some());
}

#[test]
fn revoking_without_grant_succeeds() {
    let o = who(1);
    let u = who(2);
    let mut s = NoteStore::new();
    let id = s.add_note("t".to_string(), "c".to_string(), o.clone(), 1);
    let n = s.revoke_access(id, &u, &o).unwrap();
    assert!(n.shared_with.is_empty());
    assert_eq!(n.content, "c");
}

#[test]
fn deleted_note_is_gone_for_everyone() {
    let o = who(1);
    let u = who(2);
    let mut s = NoteStore::new();
    let id = s.add_note("t".to_string(), "c".to_string(), o.clone(), 1);
    s.share_note(id, u.clone(), Permission::Write, &o).unwrap();
    let gone = s.delete_note(id, &o).unwrap();
    assert_eq!(gone.content, "c");
    for caller in [&o, &u] {
        assert!(s.get_note(id, caller).is_none());
        assert!(s.update_note(id, "x".to_string(), "y".to_string(), caller, 2).is_none());
        assert_eq!(s.get_note_versions(id, caller).err(), Some(VersionsError::NotFound));
    }
    assert!(s.delete_note(id, &o).is_none());
}

#[test]
fn versions_tell_missing_from_hidden() {
    let o = who(1);
    let u = who(2);
    let mut s = NoteStore::new();
    let id = s.add_note("t".to_string(), "c".to_string(), o.clone(), 1);
    assert_eq!(s.get_note_versions(id + 1, &o).err(), Some(VersionsError::NotFound));
    assert_eq!(s.get_note_versions(id, &u).err(), Some(VersionsError::NoPermission));
    assert_eq!(VersionsError::NotFound.message(), "Note not found.");
    assert_eq!(
        VersionsError::NoPermission.message(),
        "You do not have permission to view this note's versions."
    );
}

#[test]
fn toggle_markdown_leaves_history() {
    let o = who(1);
    let u = who(2);
    let mut s = NoteStore::new();
    let id = s.add_note("t".to_string(), "c".to_string(), o.clone(), 1);
    s.share_note(id, u.clone(), Permission::Write, &o).unwrap();
    let n = s.toggle_markdown(id, &u).unwrap();
    assert!(n.is_markdown);
    assert_eq!(n.versions.len(), 1);
    assert_eq!(n.updated_at, 1);
    assert!(!s.toggle_markdown(id, &o).unwrap().is_markdown);
}

#[test]
fn listing_shows_visible_notes_in_id_order() {
    let o = who(1);
    let u = who(2);
    let mut s = NoteStore::new();
    let a = s.add_note("a".to_string(), "1".to_string(), o.clone(), 1);
    let b = s.add_note("b".to_string(), "2".to_string(), u.clone(), 2);
    let c = s.add_note("c".to_string(), "3".to_string(), o.clone(), 3);
    s.share_note(b, o.clone(), Permission::Read, &u).unwrap();
    let ids: Vec<u64> = s.get_all_notes(&o).iter().map(|n| n.id).collect();
    assert_eq!(ids, vec![a, b, c]);
    let ids: Vec<u64> = s.get_all_notes(&u).iter().map(|n| n.id).collect();
    assert_eq!(ids, vec![b]);
    assert!(s.get_all_notes(&who(9)).is_empty());
}

#[test]
fn identities_compare_by_bytes() {
    assert!(Identity::new(vec![1, 2]) == Identity::new(vec![1, 2]));
    assert!(Identity::new(vec![1, 2]) != Identity::new(vec![1]));
    assert!(Identity::new(vec![1, 2]) != Identity::new(vec![1, 3]));
    assert_eq!(Identity::new(vec![4, 5]).to_bytes(), vec![4, 5]);
}

#[test]
fn shared_write_edit_then_owner_reverts() {
    let o = who(1);
    let u = who(2);
    let mut s = NoteStore::new();
    let id = s.add_note("A".to_string(), "hi".to_string(), o.clone(), 1);
    s.share_note(id, u.clone(), Permission::Write, &o).unwrap();
    s.update_note(id, "A".to_string(), "hello".to_string(), &u, 2).unwrap();
    assert_eq!(contents(&s, id, &o), vec!["hi", "hi"]);
    let n = s.revert_to_version(id, 0, &o, 3).unwrap();
    assert_eq!(n.content, "hi");
    assert_eq!(contents(&s, id, &o), vec!["hi", "hi", "hello"]);
}
