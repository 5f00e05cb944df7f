//! What holds of the store across several operations, stated over its model.
use vstd::prelude::*;

use crate::identity::Permission;
use crate::note::NoteModel;
use crate::store::{StoreModel, VersionsError};

verus! {

/// One operation on the store, as a caller issues it.
pub enum Operation {
    Add { title: Seq<char>, content: Seq<char>, caller: Seq<u8>, now: u64 },
    Update { id: u64, title: Seq<char>, content: Seq<char>, caller: Seq<u8>, now: u64 },
    Delete { id: u64, caller: Seq<u8> },
    ToggleMarkdown { id: u64, caller: Seq<u8> },
    Share { id: u64, user: Seq<u8>, permission: Permission, caller: Seq<u8> },
    Revoke { id: u64, user: Seq<u8>, caller: Seq<u8> },
    Revert { id: u64, k: int, caller: Seq<u8>, now: u64 },
}

impl StoreModel {
    pub open spec fn apply(self, op: Operation) -> StoreModel {
        match op {
            Operation::Add { title, content, caller, now } => self.add_note(
                title,
                content,
                caller,
                now,
            ),
            Operation::Update { id, title, content, caller, now } => self.update_note(
                id,
                title,
                content,
                caller,
                now,
            ),
            Operation::Delete { id, caller } => self.delete_note(id, caller),
            Operation::ToggleMarkdown { id, caller } => self.toggle_markdown(id, caller),
            Operation::Share { id, user, permission, caller } => self.share_note(
                id,
                user,
                permission,
                caller,
            ),
            Operation::Revoke { id, user, caller } => self.revoke_access(id, user, caller),
            Operation::Revert { id, k, caller, now } => self.revert_to_version(id, k, caller, now),
        }
    }

    /// The ids that the additions among `ops` are given, in order, when
    /// `ops` run one after another from this store.
    pub open spec fn issued_ids(self, ops: Seq<Operation>) -> Seq<u64>
        decreases ops.len(),
    {
        if ops.len() == 0 {
            Seq::empty()
        } else {
            let rest = self.apply(ops[0]).issued_ids(ops.drop_first());
            if ops[0] is Add {
                seq![self.next_id].add(rest)
            } else {
                rest
            }
        }
    }
}

proof fn lemma_issued_from(s: StoreModel, ops: Seq<Operation>)
    requires
        s.next_id + ops.len() < u64::MAX,
    ensures
        forall|i: int| 0 <= i < s.issued_ids(ops).len() ==> s.next_id <= #[trigger] s.issued_ids(ops)[i],
        forall|i: int, j: int|
            0 <= i < j < s.issued_ids(ops).len() ==> s.issued_ids(ops)[i] < s.issued_ids(ops)[j],
    decreases ops.len(),
{
    if ops.len() > 0 {
        let t = s.apply(ops[0]);
        let rest = t.issued_ids(ops.drop_first());
        let all = s.issued_ids(ops);
        assert(t.next_id >= s.next_id);
        lemma_issued_from(t, ops.drop_first());
        if ops[0] is Add {
            assert(t.next_id == s.next_id + 1);
            assert(all == seq![s.next_id].add(rest));
            assert forall|i: int| 0 <= i < all.len() implies s.next_id <= #[trigger] all[i] by {
                if i > 0 {
                    assert(all[i] == rest[i - 1]);
                }
            }
            assert forall|i: int, j: int| 0 <= i < j < all.len() implies all[i] < all[j] by {
                assert(all[j] == rest[j - 1]);
                if i > 0 {
                    assert(all[i] == rest[i - 1]);
                }
            }
        } else {
            assert(all == rest);
        }
    }
}

/// Whatever operations run in between, additions get strictly increasing
/// ids, none of them the id of a note stored at the start, deleted since or not.
pub proof fn law_ids_strictly_increase(s: StoreModel, ops: Seq<Operation>)
    requires
        s.valid(),
        s.next_id + ops.len() < u64::MAX,
    ensures
        forall|i: int, j: int|
            0 <= i < j < s.issued_ids(ops).len() ==> s.issued_ids(ops)[i] < s.issued_ids(ops)[j],
        forall|i: int|
            0 <= i < s.issued_ids(ops).len() ==> !s.notes.contains_key(#[trigger] s.issued_ids(ops)[i]),
{
    lemma_issued_from(s, ops);
}

/// The creator of a note reads back what they wrote, owns it, and finds the
/// initial content as its one version.
pub proof fn law_read_after_add(
    s: StoreModel,
    title: Seq<char>,
    content: Seq<char>,
    caller: Seq<u8>,
    now: u64,
)
    ensures
        ({
            let r = s.add_note(title, content, caller, now).get_note(s.next_id, caller);
            &&& r is Some
            &&& r->0.title == title
            &&& r->0.content == content
            &&& r->0.owner == caller
            &&& r->0.versions.len() == 1
            &&& r->0.versions[0].content == content
        }),
{
}

/// An update by an identity that neither owns the note nor holds `Write`
/// on it leaves the whole store as it was.
pub proof fn law_update_needs_write(
    s: StoreModel,
    id: u64,
    title: Seq<char>,
    content: Seq<char>,
    caller: Seq<u8>,
    now: u64,
)
    requires
        !s.may_write(id, caller),
    ensures
        s.update_note(id, title, content, caller, now) == s,
{
}

/// Updating a freshly created note archives its first content: one more
/// version, the new last one holding the old content, and the new content
/// current.
pub proof fn law_update_archives(
    s: StoreModel,
    title1: Seq<char>,
    content1: Seq<char>,
    owner: Seq<u8>,
    now1: u64,
    title2: Seq<char>,
    content2: Seq<char>,
    now2: u64,
)
    ensures
        ({
            let id = s.next_id;
            let s1 = s.add_note(title1, content1, owner, now1);
            let s2 = s1.update_note(id, title2, content2, owner, now2);
            &&& s2.notes[id].versions.len() == s1.notes[id].versions.len() + 1
            &&& s2.notes[id].versions.last().content == content1
            &&& s2.notes[id].content == content2
            &&& s2.notes[id].title == title2
        }),
{
}

/// Reverting to an existing version makes its content current and archives
/// the content that was current; history only grows.
pub proof fn law_revert_in_range(s: StoreModel, id: u64, k: int, caller: Seq<u8>, now: u64)
    requires
        s.may_revert(id, k, caller),
    ensures
        ({
            let before = s.notes[id];
            let after = s.revert_to_version(id, k, caller, now).notes[id];
            &&& after.content == before.versions[k].content
            &&& after.versions.len() == before.versions.len() + 1
            &&& after.versions.last().content == before.content
            &&& after.versions.take(before.versions.len() as int) == before.versions
        }),
{
    let before = s.notes[id];
    let after = s.revert_to_version(id, k, caller, now).notes[id];
    assert(after.versions.take(before.versions.len() as int) =~= before.versions);
}

/// Reverting to a version the note does not have changes nothing.
pub proof fn law_revert_out_of_range(s: StoreModel, id: u64, k: int, caller: Seq<u8>, now: u64)
    requires
        s.notes.contains_key(id),
        !(0 <= k < s.notes[id].versions.len()),
    ensures
        s.revert_to_version(id, k, caller, now) == s,
{
}

/// A `Read` grant lets its holder see the note but not change it.
pub proof fn law_read_grant(
    s: StoreModel,
    id: u64,
    user: Seq<u8>,
    owner: Seq<u8>,
    title: Seq<char>,
    content: Seq<char>,
    now: u64,
)
    requires
        s.owns(id, owner),
        user != owner,
    ensures
        ({
            let s2 = s.share_note(id, user, Permission::Read, owner);
            &&& s2.get_note(id, user) is Some
            &&& !s2.may_write(id, user)
            &&& s2.update_note(id, title, content, user, now) == s2
        }),
{
}

/// After a revocation the user no longer sees the note, while its owner
/// still does.
pub proof fn law_revoke_hides(s: StoreModel, id: u64, user: Seq<u8>, owner: Seq<u8>)
    requires
        s.owns(id, owner),
        user != owner,
    ensures
        ({
            let s2 = s.revoke_access(id, user, owner);
            &&& s2.get_note(id, user) is None
            &&& s2.get_note(id, owner) is Some
        }),
{
}

/// After its owner deletes a note, nobody can read, update or list the
/// versions of it, the former owner included.
pub proof fn law_deleted_is_gone(
    s: StoreModel,
    id: u64,
    owner: Seq<u8>,
    who: Seq<u8>,
    title: Seq<char>,
    content: Seq<char>,
    now: u64,
)
    requires
        s.owns(id, owner),
    ensures
        ({
            let s2 = s.delete_note(id, owner);
            &&& s2.get_note(id, who) is None
            &&& s2.update_note(id, title, content, who, now) == s2
            &&& s2.get_note_versions(id, who) == Err::<Seq<crate::note::VersionModel>, VersionsError>(
                VersionsError::NotFound,
            )
        }),
{
}

} // verus!
