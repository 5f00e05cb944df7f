use vstd::prelude::*;

use crate::identity::{Identity, Permission};
use crate::note::{note_view, version_views, Note, NoteModel, NoteVersion, VersionModel};

verus! {

/// Why the version history of a note was not handed out.
#[derive(Clone, Copy, Debug, PartialEq, Eq, Structural)]
pub enum VersionsError {
    /// No note has that id.
    NotFound,
    /// The note exists, but the caller may not see it.
    NoPermission,
}

impl VersionsError {
    /// The message reported for this error.
    pub fn message(&self) -> (r: String)
        ensures
            r@ == (match self {
                VersionsError::NotFound => "Note not found."@,
                VersionsError::NoPermission => "You do not have permission to view this note's versions."@,
            }),
    {
        match self {
            VersionsError::NotFound => String::from_str("Note not found."),
            VersionsError::NoPermission => String::from_str(
                "You do not have permission to view this note's versions.",
            ),
        }
    }
}

/// The mathematical value of a `NoteStore`: the id the next note will get,
/// and the notes by id.
pub struct StoreModel {
    pub next_id: u64,
    pub notes: Map<u64, NoteModel>,
}

impl StoreModel {
    /// Every stored note sits under its own id, below the next id to hand out.
    pub open spec fn valid(self) -> bool {
        forall|id: u64| #[trigger]
            self.notes.contains_key(id) ==> id < self.next_id && self.notes[id].id == id
    }

    pub open spec fn put(self, id: u64, n: NoteModel) -> StoreModel {
        StoreModel { notes: self.notes.insert(id, n), ..self }
    }

    pub open spec fn may_read(self, id: u64, who: Seq<u8>) -> bool {
        self.notes.contains_key(id) && self.notes[id].readable_by(who)
    }

    pub open spec fn may_write(self, id: u64, who: Seq<u8>) -> bool {
        self.notes.contains_key(id) && self.notes[id].writable_by(who)
    }

    pub open spec fn owns(self, id: u64, who: Seq<u8>) -> bool {
        self.notes.contains_key(id) && self.notes[id].owner == who
    }

    /// The store after a note is added under the next id.
    pub open spec fn add_note(
        self,
        title: Seq<char>,
        content: Seq<char>,
        owner: Seq<u8>,
        now: u64,
    ) -> StoreModel {
        StoreModel {
            next_id: (self.next_id + 1) as u64,
            notes: self.notes.insert(
                self.next_id,
                NoteModel::created(self.next_id, title, content, owner, now),
            ),
        }
    }

    /// What a lookup by `who` shows: not-found and not-allowed look alike.
    pub open spec fn get_note(self, id: u64, who: Seq<u8>) -> Option<NoteModel> {
        if self.may_read(id, who) {
            Some(self.notes[id])
        } else {
            None
        }
    }

    pub open spec fn update_note(
        self,
        id: u64,
        title: Seq<char>,
        content: Seq<char>,
        who: Seq<u8>,
        now: u64,
    ) -> StoreModel {
        if self.may_write(id, who) {
            self.put(id, self.notes[id].edited(title, content, now))
        } else {
            self
        }
    }

    pub open spec fn delete_note(self, id: u64, who: Seq<u8>) -> StoreModel {
        if self.owns(id, who) {
            StoreModel { notes: self.notes.remove(id), ..self }
        } else {
            self
        }
    }

    pub open spec fn toggle_markdown(self, id: u64, who: Seq<u8>) -> StoreModel {
        if self.may_write(id, who) {
            self.put(id, self.notes[id].toggled())
        } else {
            self
        }
    }

    pub open spec fn share_note(
        self,
        id: u64,
        user: Seq<u8>,
        permission: Permission,
        who: Seq<u8>,
    ) -> StoreModel {
        if self.owns(id, who) {
            self.put(id, self.notes[id].shared(user, permission))
        } else {
            self
        }
    }

    pub open spec fn revoke_access(self, id: u64, user: Seq<u8>, who: Seq<u8>) -> StoreModel {
        if self.owns(id, who) {
            self.put(id, self.notes[id].revoked(user))
        } else {
            self
        }
    }

    /// Whether version `k` of note `id` can be brought back by `who`.
    pub open spec fn may_revert(self, id: u64, k: int, who: Seq<u8>) -> bool {
        self.may_write(id, who) && 0 <= k < self.notes[id].versions.len()
    }

    pub open spec fn revert_to_version(self, id: u64, k: int, who: Seq<u8>, now: u64) -> StoreModel {
        if self.may_revert(id, k, who) {
            self.put(id, self.notes[id].reverted(k, now))
        } else {
            self
        }
    }

    /// The version history as `who` is told of it; unlike a lookup, it
    /// tells a missing note from a hidden one.
    pub open spec fn get_note_versions(self, id: u64, who: Seq<u8>) -> Result<
        Seq<VersionModel>,
        VersionsError,
    > {
        if !self.notes.contains_key(id) {
            Err(VersionsError::NotFound)
        } else if !self.notes[id].readable_by(who) {
            Err(VersionsError::NoPermission)
        } else {
            Ok(self.notes[id].versions)
        }
    }
}

/// The notes of a list, by id.
pub open spec fn note_map(s: Seq<Note>) -> Map<u64, NoteModel>
    decreases s.len(),
{
    if s.len() == 0 {
        Map::empty()
    } else {
        note_map(s.drop_last()).insert(s.last().id, s.last()@)
    }
}

pub open spec fn ids_increasing(s: Seq<Note>) -> bool {
    forall|i: int, j: int| 0 <= i < j < s.len() ==> s[i].id < s[j].id
}

proof fn lemma_note_map_at(s: Seq<Note>, i: int)
    requires
        ids_increasing(s),
        0 <= i < s.len(),
    ensures
        note_map(s).contains_key(s[i].id),
        note_map(s)[s[i].id] == s[i]@,
    decreases s.len(),
{
    if i < s.len() - 1 {
        assert(ids_increasing(s.drop_last()));
        assert(s.drop_last()[i] == s[i]);
        assert(s[i].id < s.last().id);
        lemma_note_map_at(s.drop_last(), i);
    }
}

proof fn lemma_note_map_absent(s: Seq<Note>, id: u64)
    requires
        forall|i: int| 0 <= i < s.len() ==> s[i].id != id,
    ensures
        !note_map(s).contains_key(id),
    decreases s.len(),
{
    if s.len() > 0 {
        assert(s.last() == s[s.len() - 1]);
        lemma_note_map_absent(s.drop_last(), id);
    }
}

proof fn lemma_note_map_lookup(s: Seq<Note>, id: u64)
    requires
        ids_increasing(s),
    ensures
        note_map(s).contains_key(id) == (exists|i: int| 0 <= i < s.len() && s[i].id == id),
        forall|i: int| 0 <= i < s.len() && s[i].id == id ==> note_map(s)[id] == #[trigger] s[i]@,
{
    if exists|i: int| 0 <= i < s.len() && s[i].id == id {
        let i = choose|i: int| 0 <= i < s.len() && s[i].id == id;
        lemma_note_map_at(s, i);
    } else {
        lemma_note_map_absent(s, id);
    }
}

proof fn lemma_note_map_set(s: Seq<Note>, i: int, n: Note)
    requires
        ids_increasing(s),
        0 <= i < s.len(),
        s[i].id == n.id,
    ensures
        ids_increasing(s.update(i, n)),
        note_map(s.update(i, n)) == note_map(s).insert(n.id, n@),
{
    let t = s.update(i, n);
    assert(ids_increasing(t));
    assert forall|id: u64|
        #![auto]
        note_map(t).contains_key(id) == note_map(s).insert(n.id, n@).contains_key(id) by {
        lemma_note_map_lookup(s, id);
        lemma_note_map_lookup(t, id);
        if exists|j: int| 0 <= j < s.len() && s[j].id == id {
            let j = choose|j: int| 0 <= j < s.len() && s[j].id == id;
            assert(t[j].id == id);
        }
        if exists|j: int| 0 <= j < t.len() && t[j].id == id {
            let j = choose|j: int| 0 <= j < t.len() && t[j].id == id;
            if j != i {
                assert(s[j].id == id);
            }
        }
    }
    assert forall|id: u64| #![auto] note_map(t).contains_key(id) implies note_map(t)[id]
        == note_map(s).insert(n.id, n@)[id] by {
        lemma_note_map_lookup(s, id);
        lemma_note_map_lookup(t, id);
        let j = choose|j: int| 0 <= j < t.len() && t[j].id == id;
        assert(note_map(t)[id] == t[j]@);
        if j != i {
            assert(s[j] == t[j]);
            assert(note_map(s)[id] == s[j]@);
        }
    }
    assert(note_map(t) =~= note_map(s).insert(n.id, n@));
}

proof fn lemma_note_map_remove(s: Seq<Note>, i: int)
    requires
        ids_increasing(s),
        0 <= i < s.len(),
    ensures
        ids_increasing(s.remove(i)),
        note_map(s.remove(i)) == note_map(s).remove(s[i].id),
{
    let t = s.remove(i);
    let k0 = s[i].id;
    assert(ids_increasing(t)) by {
        assert forall|a: int, b: int| 0 <= a < b < t.len() implies t[a].id < t[b].id by {
            let a2 = if a < i { a } else { a + 1 };
            let b2 = if b < i { b } else { b + 1 };
            assert(t[a] == s[a2]);
            assert(t[b] == s[b2]);
        }
    }
    assert forall|id: u64|
        #![auto]
        note_map(t).contains_key(id) == note_map(s).remove(k0).contains_key(id) by {
        lemma_note_map_lookup(s, id);
        lemma_note_map_lookup(t, id);
        if exists|j: int| 0 <= j < s.len() && s[j].id == id {
            let j = choose|j: int| 0 <= j < s.len() && s[j].id == id;
            if j < i {
                assert(t[j].id == id);
            } else if j > i {
                assert(t[j - 1].id == id);
            }
        }
        if exists|j: int| 0 <= j < t.len() && t[j].id == id {
            let j = choose|j: int| 0 <= j < t.len() && t[j].id == id;
            if j < i {
                assert(s[j].id == id);
            } else {
                assert(s[j + 1].id == id);
            }
        }
    }
    assert forall|id: u64| #![auto] note_map(t).contains_key(id) implies note_map(t)[id]
        == note_map(s).remove(k0)[id] by {
        lemma_note_map_lookup(s, id);
        lemma_note_map_lookup(t, id);
        let j = choose|j: int| 0 <= j < t.len() && t[j].id == id;
        assert(note_map(t)[id] == t[j]@);
        if j < i {
            assert(s[j] == t[j]);
            assert(note_map(s)[id] == s[j]@);
        } else {
            assert(s[j + 1] == t[j]);
            assert(note_map(s)[id] == s[j + 1]@);
        }
    }
    assert(note_map(t) =~= note_map(s).remove(k0));
}

/// The store: the notes, ordered by id, and the counter that hands out ids.
pub struct NoteStore {
    next_id: u64,
    notes: Vec<Note>,
}

impl View for NoteStore {
    type V = StoreModel;

    closed spec fn view(&self) -> StoreModel {
        StoreModel { next_id: self.next_id, notes: note_map(self.notes@) }
    }
}
impl NoteStore {
    /// Notes ordered by id, each well formed, all below the next id.
    pub closed spec fn wf(&self) -> bool {
        &&& ids_increasing(self.notes@)
        &&& forall|i: int| 0 <= i < self.notes@.len() ==> (#[trigger] self.notes@[i]).id < self.next_id
        &&& forall|i: int| 0 <= i < self.notes@.len() ==> (#[trigger] self.notes@[i]).wf()
    }

    /// A well-formed store has a valid model.
    pub proof fn lemma_wf_valid(&self)
        requires
            self.wf(),
        ensures
            self@.valid(),
    {
        assert forall|id: u64| #[trigger] self@.notes.contains_key(id) implies id < self@.next_id
            && self@.notes[id].id == id by {
            lemma_note_map_lookup(self.notes@, id);
            let i = choose|i: int| 0 <= i < self.notes@.len() && self.notes@[i].id == id;
            assert(self.notes@[i].id < self.next_id);
            assert(self@.notes[id] == self.notes@[i]@);
        }
    }

    pub fn new() -> (r: NoteStore)
        ensures
            r.wf(),
            r@.next_id == 0,
            r@.notes == Map::<u64, NoteModel>::empty(),
    {
        let r = NoteStore { next_id: 0, notes: Vec::new() };
        assert(note_map(r.notes@) =~= Map::empty());
        r
    }

    /// The id the next added note will get.
    pub fn next_id(&self) -> (r: u64)
        ensures
            r == self@.next_id,
    {
        self.next_id
    }

    /// Where the note with this id sits, if it is stored.
    fn position(&self, id: u64) -> (r: Option<usize>)
        requires
            self.wf(),
        ensures
            r matches Some(i) ==> i < self.notes@.len() && self.notes@[i as int].id == id,
            r is None ==> !self@.notes.contains_key(id),
            r is Some == self@.notes.contains_key(id),
    {
        let mut i: usize = 0;
        while i < self.notes.len()
            invariant
                self.wf(),
                i <= self.notes@.len(),
                forall|j: int| 0 <= j < i ==> self.notes@[j].id != id,
            decreases self.notes@.len() - i,
        {
            if self.notes[i].id == id {
                proof {
                    lemma_note_map_at(self.notes@, i as int);
                }
                return Some(i);
            }
            i = i + 1;
        }
        proof {
            lemma_note_map_absent(self.notes@, id);
        }
        None
    }

    /// Puts `n` in place of the note at position `i`, which has the same id.
    fn replace_at(&mut self, i: usize, n: Note)
        requires
            old(self).wf(),
            n.wf(),
            i < old(self).notes@.len(),
            old(self).notes@[i as int].id == n.id,
        ensures
            final(self).wf(),
            final(self)@ == old(self)@.put(n.id, n@),
    {
        proof {
            lemma_note_map_set(self.notes@, i as int, n);
        }
        self.notes.set(i, n);
        assert(forall|j: int|
            0 <= j < self.notes@.len() ==> #[trigger] self.notes@[j] == if j == i {
                n
            } else {
                old(self).notes@[j]
            });
    }

    /// Stores a new note owned by `caller` under the next id, and returns
    /// that id. Ids are never handed out twice, not even after a deletion.
    pub fn add_note(&mut self, title: String, content: String, caller: Identity, now: u64) -> (r:
        u64)
        requires
            old(self).wf(),
            old(self)@.next_id < u64::MAX,
        ensures
            final(self).wf(),
            r == old(self)@.next_id,
            final(self)@ == old(self)@.add_note(title@, content@, caller@, now),
    {
        let id = self.next_id;
        let note = Note::new(id, title, content, caller, now);
        let ghost before = self.notes@;
        self.notes.push(note);
        self.next_id = id + 1;
        proof {
            assert(self.notes@.drop_last() =~= before);
            assert(forall|j: int| 0 <= j < before.len() ==> #[trigger] self.notes@[j] == before[j]);
        }
        id
    }

    /// The note with this id, if `caller` owns it or it is shared with them.
    pub fn get_note(&self, id: u64, caller: &Identity) -> (r: Option<Note>)
        requires
            self.wf(),
        ensures
            r matches Some(n) ==> n.wf(),
            note_view(r) == self@.get_note(id, caller@),
    {
        match self.position(id) {
            Some(i) => {
                proof {
                    lemma_note_map_at(self.notes@, i as int);
                }
                if self.notes[i].can_read(caller) {
                    Some(self.notes[i].clone())
                } else {
                    None
                }
            },
            None => None,
        }
    }

    /// Every note `caller` may see, ordered by id.
    pub fn get_all_notes(&self, caller: &Identity) -> (r: Vec<Note>)
        requires
            self.wf(),
        ensures
            forall|i: int|
                0 <= i < r@.len() ==> (#[trigger] r@[i]).wf() && self@.get_note(r@[i].id, caller@)
                    == Some(r@[i]@),
            forall|id: u64|
                #[trigger] self@.may_read(id, caller@) ==> exists|i: int|
                    0 <= i < r@.len() && r@[i].id == id,
            forall|i: int, j: int| 0 <= i < j < r@.len() ==> r@[i].id < r@[j].id,
    {
        let mut r: Vec<Note> = Vec::new();
        let mut i: usize = 0;
        while i < self.notes.len()
            invariant
                self.wf(),
                i <= self.notes@.len(),
                forall|a: int|
                    0 <= a < r@.len() ==> (#[trigger] r@[a]).wf() && self@.get_note(
                        r@[a].id,
                        caller@,
                    ) == Some(r@[a]@),
                forall|a: int, b: int|
                    0 <= a < r@.len() && i <= b < self.notes@.len() ==> #[trigger] r@[a].id
                        < #[trigger] self.notes@[b].id,
                forall|b: int|
                    0 <= b < i && self@.may_read(#[trigger] self.notes@[b].id, caller@) ==> exists|
                        a: int,
                    | 0 <= a < r@.len() && r@[a].id == self.notes@[b].id,
                forall|a: int, c: int| 0 <= a < c < r@.len() ==> r@[a].id < r@[c].id,
            decreases self.notes@.len() - i,
        {
            proof {
                lemma_note_map_at(self.notes@, i as int);
            }
            let ghost before = r@;
            if self.notes[i].can_read(caller) {
                let n = self.notes[i].clone();
                r.push(n);
                proof {
                    assert(forall|a: int| 0 <= a < before.len() ==> #[trigger] r@[a] == before[a]);
                    assert(r@[before.len() as int] == n);
                    assert forall|b: int|
                        0 <= b < i + 1 && self@.may_read(
                            #[trigger] self.notes@[b].id,
                            caller@,
                        ) implies exists|a: int|
                        0 <= a < r@.len() && r@[a].id == self.notes@[b].id by {
                        if b < i {
                            let a = choose|a: int|
                                0 <= a < before.len() && before[a].id == self.notes@[b].id;
                            assert(r@[a] == before[a]);
                        } else {
                            assert(r@[before.len() as int].id == self.notes@[b].id);
                        }
                    }
                }
            } else {
                proof {
                    assert forall|b: int|
                        0 <= b < i + 1 && self@.may_read(
                            #[trigger] self.notes@[b].id,
                            caller@,
                        ) implies exists|a: int|
                        0 <= a < r@.len() && r@[a].id == self.notes@[b].id by {
                        if b == i {
                            assert(!self@.may_read(self.notes@[b].id, caller@));
                        }
                    }
                }
            }
            i = i + 1;
        }
        proof {
            assert forall|id: u64| #[trigger] self@.may_read(id, caller@) implies exists|i: int|
                0 <= i < r@.len() && r@[i].id == id by {
                lemma_note_map_lookup(self.notes@, id);
                let b = choose|b: int| 0 <= b < self.notes@.len() && self.notes@[b].id == id;
                assert(self@.may_read(self.notes@[b].id, caller@));
            }
        }
        r
    }

    /// Archives the current content of the note and sets its title and
    /// content, if `caller` owns it or was granted `Write`. Otherwise nothing
    /// changes and nothing is returned.
    pub fn update_note(
        &mut self,
        id: u64,
        title: String,
        content: String,
        caller: &Identity,
        now: u64,
    ) -> (r: Option<Note>)
        requires
            old(self).wf(),
        ensures
            final(self).wf(),
            final(self)@ == old(self)@.update_note(id, title@, content@, caller@, now),
            r is Some == old(self)@.may_write(id, caller@),
            r is None ==> *final(self) == *old(self),
            r matches Some(n) ==> n.wf() && n@ == final(self)@.notes[id],
    {
        match self.position(id) {
            Some(i) => {
                proof {
                    lemma_note_map_at(self.notes@, i as int);
                }
                if !self.notes[i].can_write(caller) {
                    return None;
                }
                let mut n = self.notes[i].clone();
                n.edit(title, content, now);
                self.replace_at(i, n.clone());
                Some(n)
            },
            None => None,
        }
    }

    /// Removes the note and its whole history, if `caller` owns it, and
    /// returns it. Its id is not handed out again.
    pub fn delete_note(&mut self, id: u64, caller: &Identity) -> (r: Option<Note>)
        requires
            old(self).wf(),
        ensures
            final(self).wf(),
            final(self)@ == old(self)@.delete_note(id, caller@),
            r is Some == old(self)@.owns(id, caller@),
            r is None ==> *final(self) == *old(self),
            r matches Some(n) ==> n.wf() && n@ == old(self)@.notes[id],
    {
        match self.position(id) {
            Some(i) => {
                proof {
                    lemma_note_map_at(self.notes@, i as int);
                }
                if !self.notes[i].is_owned_by(caller) {
                    return None;
                }
                proof {
                    lemma_note_map_remove(self.notes@, i as int);
                }
                let ghost before = self.notes@;
                let n = self.notes.remove(i);
                proof {
                    assert forall|j: int| 0 <= j < self.notes@.len() implies (#[trigger] self.notes@[j]).id < self.next_id && self.notes@[j].wf() by {
                        if j < i {
                            assert(self.notes@[j] == before[j]);
                        } else {
                            assert(self.notes@[j] == before[j + 1]);
                        }
                    }
                }
                Some(n)
            },
            None => None,
        }
    }

    /// Flips the markdown flag, if `caller` owns the note or was granted
    /// `Write`. The history and the time of the last change stay as they are.
    pub fn toggle_markdown(&mut self, id: u64, caller: &Identity) -> (r: Option<Note>)
        requires
            old(self).wf(),
        ensures
            final(self).wf(),
            final(self)@ == old(self)@.toggle_markdown(id, caller@),
            r is Some == old(self)@.may_write(id, caller@),
            r is None ==> *final(self) == *old(self),
            r matches Some(n) ==> n.wf() && n@ == final(self)@.notes[id],
    {
        match self.position(id) {
            Some(i) => {
                proof {
                    lemma_note_map_at(self.notes@, i as int);
                }
                if !self.notes[i].can_write(caller) {
                    return None;
                }
                let mut n = self.notes[i].clone();
                n.toggle_markdown();
                self.replace_at(i, n.clone());
                Some(n)
            },
            None => None,
        }
    }

    /// Grants `permission` on the note to `user`, replacing any earlier
    /// grant, if `caller` owns the note.
    pub fn share_note(
        &mut self,
        id: u64,
        user: Identity,
        permission: Permission,
        caller: &Identity,
    ) -> (r: Option<Note>)
        requires
            old(self).wf(),
        ensures
            final(self).wf(),
            final(self)@ == old(self)@.share_note(id, user@, permission, caller@),
            r is Some == old(self)@.owns(id, caller@),
            r is None ==> *final(self) == *old(self),
            r matches Some(n) ==> n.wf() && n@ == final(self)@.notes[id],
    {
        match self.position(id) {
            Some(i) => {
                proof {
                    lemma_note_map_at(self.notes@, i as int);
                }
                if !self.notes[i].is_owned_by(caller) {
                    return None;
                }
                let mut n = self.notes[i].clone();
                n.share(user, permission);
                self.replace_at(i, n.clone());
                Some(n)
            },
            None => None,
        }
    }

    /// Withdraws whatever `user` was granted on the note, if `caller` owns
    /// it; a user without a grant leaves the note as it is.
    pub fn revoke_access(&mut self, id: u64, user: &Identity, caller: &Identity) -> (r: Option<
        Note,
    >)
        requires
            old(self).wf(),
        ensures
            final(self).wf(),
            final(self)@ == old(self)@.revoke_access(id, user@, caller@),
            r is Some == old(self)@.owns(id, caller@),
            r is None ==> *final(self) == *old(self),
            r matches Some(n) ==> n.wf() && n@ == final(self)@.notes[id],
    {
        match self.position(id) {
            Some(i) => {
                proof {
                    lemma_note_map_at(self.notes@, i as int);
                }
                if !self.notes[i].is_owned_by(caller) {
                    return None;
                }
                let mut n = self.notes[i].clone();
                n.revoke(user);
                self.replace_at(i, n.clone());
                Some(n)
            },
            None => None,
        }
    }

    /// The version history of the note, oldest first, if `caller` may see
    /// the note; the error tells a missing note from a hidden one.
    pub fn get_note_versions(&self, id: u64, caller: &Identity) -> (r: Result<
        Vec<NoteVersion>,
        VersionsError,
    >)
        requires
            self.wf(),
        ensures
            r matches Ok(v) ==> self@.get_note_versions(id, caller@) == Ok::<
                Seq<VersionModel>,
                VersionsError,
            >(version_views(v@)),
            r matches Err(e) ==> self@.get_note_versions(id, caller@) == Err::<
                Seq<VersionModel>,
                VersionsError,
            >(e),
    {
        match self.position(id) {
            Some(i) => {
                proof {
                    lemma_note_map_at(self.notes@, i as int);
                }
                if self.notes[i].can_read(caller) {
                    Ok(self.notes[i].history())
                } else {
                    Err(VersionsError::NoPermission)
                }
            },
            None => Err(VersionsError::NotFound),
        }
    }

    /// Archives the current content of the note and brings back that of
    /// version `k`, if `caller` owns the note or was granted `Write` and the
    /// note has such a version. Otherwise nothing changes.
    pub fn revert_to_version(&mut self, id: u64, k: usize, caller: &Identity, now: u64) -> (r:
        Option<Note>)
        requires
            old(self).wf(),
        ensures
            final(self).wf(),
            final(self)@ == old(self)@.revert_to_version(id, k as int, caller@, now),
            r is Some == old(self)@.may_revert(id, k as int, caller@),
            r is None ==> *final(self) == *old(self),
            r matches Some(n) ==> n.wf() && n@ == final(self)@.notes[id],
    {
        match self.position(id) {
            Some(i) => {
                proof {
                    lemma_note_map_at(self.notes@, i as int);
                }
                if !self.notes[i].can_write(caller) {
                    return None;
                }
                if k >= self.notes[i].versions.len() {
                    assert(version_views(self.notes@[i as int].versions@).len()
                        == self.notes@[i as int].versions@.len());
                    return None;
                }
                let mut n = self.notes[i].clone();
                assert(version_views(n.versions@).len() == n.versions@.len());
                assert(version_views(self.notes@[i as int].versions@).len()
                    == self.notes@[i as int].versions@.len());
                n.revert(k, now);
                self.replace_at(i, n.clone());
                Some(n)
            },
            None => None,
        }
    }
}

} // verus!
