use vstd::prelude::*;

use crate::identity::{Identity, Permission};

verus! {

/// One superseded state of a note's content: the content as it was, and when
/// it had been set.
pub struct NoteVersion {
    pub content: String,
    pub updated_at: u64,
}

/// The mathematical value of a `NoteVersion`.
pub struct VersionModel {
    pub content: Seq<char>,
    pub updated_at: u64,
}

impl View for NoteVersion {
    type V = VersionModel;

    open spec fn view(&self) -> VersionModel {
        VersionModel { content: self.content@, updated_at: self.updated_at }
    }
}

impl Clone for NoteVersion {
    fn clone(&self) -> (r: NoteVersion)
        ensures
            r@ == self@,
    {
        NoteVersion { content: self.content.clone(), updated_at: self.updated_at }
    }
}

/// A note: its current title and content, its owner, the history of its
/// earlier contents (oldest first) and the identities it is shared with.
pub struct Note {
    pub id: u64,
    pub title: String,
    pub content: String,
    pub created_at: u64,
    pub updated_at: u64,
    pub owner: Identity,
    pub versions: Vec<NoteVersion>,
    pub shared_with: Vec<(Identity, Permission)>,
    pub is_markdown: bool,
}

/// The mathematical value of a `Note`; sharing is a map from identity to
/// the permission granted.
pub struct NoteModel {
    pub id: u64,
    pub title: Seq<char>,
    pub content: Seq<char>,
    pub created_at: u64,
    pub updated_at: u64,
    pub owner: Seq<u8>,
    pub versions: Seq<VersionModel>,
    pub shared_with: Map<Seq<u8>, Permission>,
    pub is_markdown: bool,
}

/// The grants of a list of (identity, permission) pairs, a later pair
/// overriding an earlier one for the same identity.
pub open spec fn grants(s: Seq<(Identity, Permission)>) -> Map<Seq<u8>, Permission>
    decreases s.len(),
{
    if s.len() == 0 {
        Map::empty()
    } else {
        grants(s.drop_last()).insert(s.last().0@, s.last().1)
    }
}

/// No identity appears twice in the list.
pub open spec fn unique_keys(s: Seq<(Identity, Permission)>) -> bool {
    forall|i: int, j: int| 0 <= i < j < s.len() ==> s[i].0@ != s[j].0@
}

/// The models of a list of versions.
pub open spec fn version_views(s: Seq<NoteVersion>) -> Seq<VersionModel> {
    s.map_values(|v: NoteVersion| v@)
}

proof fn lemma_grants_at(s: Seq<(Identity, Permission)>, i: int)
    requires
        unique_keys(s),
        0 <= i < s.len(),
    ensures
        grants(s).contains_key(s[i].0@),
        grants(s)[s[i].0@] == s[i].1,
    decreases s.len(),
{
    if i < s.len() - 1 {
        assert(unique_keys(s.drop_last()));
        assert(s.drop_last()[i] == s[i]);
        assert(s[i].0@ != s.last().0@);
        lemma_grants_at(s.drop_last(), i);
    }
}

proof fn lemma_grants_absent(s: Seq<(Identity, Permission)>, k: Seq<u8>)
    requires
        forall|i: int| 0 <= i < s.len() ==> s[i].0@ != k,
    ensures
        !grants(s).contains_key(k),
    decreases s.len(),
{
    if s.len() > 0 {
        assert(s.last() == s[s.len() - 1]);
        lemma_grants_absent(s.drop_last(), k);
    }
}

/// What the grants of a list without repeated identities hold for `k`.
proof fn lemma_grants_lookup(s: Seq<(Identity, Permission)>, k: Seq<u8>)
    requires
        unique_keys(s),
    ensures
        grants(s).contains_key(k) == (exists|i: int| 0 <= i < s.len() && s[i].0@ == k),
        forall|i: int| 0 <= i < s.len() && s[i].0@ == k ==> grants(s)[k] == #[trigger] s[i].1,
{
    if exists|i: int| 0 <= i < s.len() && s[i].0@ == k {
        let i = choose|i: int| 0 <= i < s.len() && s[i].0@ == k;
        lemma_grants_at(s, i);
    } else {
        lemma_grants_absent(s, k);
    }
}

proof fn lemma_grants_set(s: Seq<(Identity, Permission)>, i: int, e: (Identity, Permission))
    requires
        unique_keys(s),
        0 <= i < s.len(),
        s[i].0@ == e.0@,
    ensures
        unique_keys(s.update(i, e)),
        grants(s.update(i, e)) == grants(s).insert(e.0@, e.1),
{
    let t = s.update(i, e);
    assert(unique_keys(t));
    assert forall|k: Seq<u8>|
        #![auto]
        grants(t).contains_key(k) == grants(s).insert(e.0@, e.1).contains_key(k) by {
        lemma_grants_lookup(s, k);
        lemma_grants_lookup(t, k);
        if exists|j: int| 0 <= j < s.len() && s[j].0@ == k {
            let j = choose|j: int| 0 <= j < s.len() && s[j].0@ == k;
            assert(t[j].0@ == k);
        }
        if exists|j: int| 0 <= j < t.len() && t[j].0@ == k {
            let j = choose|j: int| 0 <= j < t.len() && t[j].0@ == k;
            if j != i {
                assert(s[j].0@ == k);
            }
        }
    }
    assert forall|k: Seq<u8>| #![auto] grants(t).contains_key(k) implies grants(t)[k] == grants(
        s,
    ).insert(e.0@, e.1)[k] by {
        lemma_grants_lookup(s, k);
        lemma_grants_lookup(t, k);
        let j = choose|j: int| 0 <= j < t.len() && t[j].0@ == k;
        if j != i {
            assert(s[j].0@ == k);
            assert(t[j].1 == s[j].1);
        }
    }
    assert(grants(t) =~= grants(s).insert(e.0@, e.1));
}

proof fn lemma_grants_remove(s: Seq<(Identity, Permission)>, i: int)
    requires
        unique_keys(s),
        0 <= i < s.len(),
    ensures
        unique_keys(s.remove(i)),
        grants(s.remove(i)) == grants(s).remove(s[i].0@),
{
    let t = s.remove(i);
    let k0 = s[i].0@;
    assert(unique_keys(t));
    assert forall|k: Seq<u8>|
        #![auto]
        grants(t).contains_key(k) == grants(s).remove(k0).contains_key(k) by {
        lemma_grants_lookup(s, k);
        lemma_grants_lookup(t, k);
        if exists|j: int| 0 <= j < s.len() && s[j].0@ == k {
            let j = choose|j: int| 0 <= j < s.len() && s[j].0@ == k;
            if j < i {
                assert(t[j].0@ == k);
            } else if j > i {
                assert(t[j - 1].0@ == k);
            }
        }
        if exists|j: int| 0 <= j < t.len() && t[j].0@ == k {
            let j = choose|j: int| 0 <= j < t.len() && t[j].0@ == k;
            if j < i {
                assert(s[j].0@ == k);
            } else {
                assert(s[j + 1].0@ == k);
            }
        }
    }
    assert forall|k: Seq<u8>| #![auto] grants(t).contains_key(k) implies grants(t)[k] == grants(
        s,
    ).remove(k0)[k] by {
        lemma_grants_lookup(s, k);
        lemma_grants_lookup(t, k);
        let j = choose|j: int| 0 <= j < t.len() && t[j].0@ == k;
        if j < i {
            assert(s[j] == t[j]);
            assert(s[j].0@ != s[i].0@);
            assert(grants(t)[k] == t[j].1);
            assert(grants(s)[k] == s[j].1);
        } else {
            assert(s[j + 1] == t[j]);
            assert(s[j + 1].0@ != s[i].0@);
            assert(grants(t)[k] == t[j].1);
            assert(grants(s)[k] == s[j + 1].1);
        }
    }
    assert(grants(t) =~= grants(s).remove(k0));
}

proof fn lemma_grants_push(s: Seq<(Identity, Permission)>, e: (Identity, Permission))
    requires
        unique_keys(s),
        forall|i: int| 0 <= i < s.len() ==> s[i].0@ != e.0@,
    ensures
        unique_keys(s.push(e)),
        grants(s.push(e)) == grants(s).insert(e.0@, e.1),
{
    assert(s.push(e).drop_last() =~= s);
}

/// The model of an optional note.
pub open spec fn note_view(o: Option<Note>) -> Option<NoteModel> {
    match o {
        Some(n) => Some(n@),
        None => None,
    }
}

impl NoteModel {
    /// The owner, and anyone the note is shared with, may see it.
    pub open spec fn readable_by(self, who: Seq<u8>) -> bool {
        self.owner == who || self.shared_with.contains_key(who)
    }

    /// The owner, and anyone granted `Write`, may change it.
    pub open spec fn writable_by(self, who: Seq<u8>) -> bool {
        self.owner == who || (self.shared_with.contains_key(who) && self.shared_with[who]
            == Permission::Write)
    }

    /// The current content, as a version to archive.
    pub open spec fn current_version(self) -> VersionModel {
        VersionModel { content: self.content, updated_at: self.updated_at }
    }

    /// A note as it is created: one seed version holding the initial content.
    pub open spec fn created(
        id: u64,
        title: Seq<char>,
        content: Seq<char>,
        owner: Seq<u8>,
        now: u64,
    ) -> NoteModel {
        NoteModel {
            id,
            title,
            content,
            created_at: now,
            updated_at: now,
            owner,
            versions: seq![VersionModel { content, updated_at: now }],
            shared_with: Map::empty(),
            is_markdown: false,
        }
    }

    /// The note after an edit: the current content archived, then replaced.
    pub open spec fn edited(self, title: Seq<char>, content: Seq<char>, now: u64) -> NoteModel {
        NoteModel {
            title,
            content,
            updated_at: now,
            versions: self.versions.push(self.current_version()),
            ..self
        }
    }

    /// The note after reverting to version `k`: the current content archived,
    /// then replaced by that version's content.
    pub open spec fn reverted(self, k: int, now: u64) -> NoteModel {
        NoteModel {
            content: self.versions[k].content,
            updated_at: now,
            versions: self.versions.push(self.current_version()),
            ..self
        }
    }

    pub open spec fn toggled(self) -> NoteModel {
        NoteModel { is_markdown: !self.is_markdown, ..self }
    }

    pub open spec fn shared(self, user: Seq<u8>, permission: Permission) -> NoteModel {
        NoteModel { shared_with: self.shared_with.insert(user, permission), ..self }
    }

    pub open spec fn revoked(self, user: Seq<u8>) -> NoteModel {
        NoteModel { shared_with: self.shared_with.remove(user), ..self }
    }
}

impl View for Note {
    type V = NoteModel;

    open spec fn view(&self) -> NoteModel {
        NoteModel {
            id: self.id,
            title: self.title@,
            content: self.content@,
            created_at: self.created_at,
            updated_at: self.updated_at,
            owner: self.owner@,
            versions: version_views(self.versions@),
            shared_with: grants(self.shared_with@),
            is_markdown: self.is_markdown,
        }
    }
}
impl Note {
    /// No identity appears twice among those the note is shared with.
    pub open spec fn wf(&self) -> bool {
        unique_keys(self.shared_with@)
    }

    /// A new note owned by `owner`, whose history holds the initial content
    /// as its one version.
    pub fn new(id: u64, title: String, content: String, owner: Identity, now: u64) -> (r: Note)
        ensures
            r.wf(),
            r@ == NoteModel::created(id, title@, content@, owner@, now),
    {
        let seed = NoteVersion { content: content.clone(), updated_at: now };
        let versions = vec![seed];
        let r = Note {
            id,
            title,
            content,
            created_at: now,
            updated_at: now,
            owner,
            versions,
            shared_with: Vec::new(),
            is_markdown: false,
        };
        assert(version_views(r.versions@) =~= seq![VersionModel { content: content@, updated_at: now }]);
        assert(grants(r.shared_with@) =~= Map::empty());
        r
    }

    /// The position of `who` among the identities the note is shared with.
    fn grant_position(&self, who: &Identity) -> (r: Option<usize>)
        ensures
            r matches Some(i) ==> i < self.shared_with@.len() && self.shared_with@[i as int].0@
                == who@,
            r is None ==> forall|i: int|
                0 <= i < self.shared_with@.len() ==> self.shared_with@[i].0@ != who@,
    {
        let mut i: usize = 0;
        while i < self.shared_with.len()
            invariant
                i <= self.shared_with@.len(),
                forall|j: int| 0 <= j < i ==> self.shared_with@[j].0@ != who@,
            decreases self.shared_with@.len() - i,
        {
            if self.shared_with[i].0.same_as(who) {
                return Some(i);
            }
            i = i + 1;
        }
        None
    }

    /// Whether `who` may see the note.
    pub fn can_read(&self, who: &Identity) -> (r: bool)
        requires
            self.wf(),
        ensures
            r == self@.readable_by(who@),
    {
        if self.owner.same_as(who) {
            return true;
        }
        let pos = self.grant_position(who);
        proof {
            lemma_grants_lookup(self.shared_with@, who@);
        }
        pos.is_some()
    }

    /// Whether `who` may change the note.
    pub fn can_write(&self, who: &Identity) -> (r: bool)
        requires
            self.wf(),
        ensures
            r == self@.writable_by(who@),
    {
        if self.owner.same_as(who) {
            return true;
        }
        let pos = self.grant_position(who);
        proof {
            lemma_grants_lookup(self.shared_with@, who@);
        }
        match pos {
            Some(i) => self.shared_with[i].1 == Permission::Write,
            None => false,
        }
    }

    /// Whether `who` owns the note.
    pub fn is_owned_by(&self, who: &Identity) -> (r: bool)
        ensures
            r == (self@.owner == who@),
    {
        self.owner.same_as(who)
    }

    /// Archives the current content, then sets the title and content.
    pub fn edit(&mut self, title: String, content: String, now: u64)
        requires
            old(self).wf(),
        ensures
            final(self).wf(),
            final(self)@ == old(self)@.edited(title@, content@, now),
    {
        let previous = self.content.clone();
        self.content = content;
        self.versions.push(NoteVersion { content: previous, updated_at: self.updated_at });
        self.title = title;
        self.updated_at = now;
        assert(version_views(self.versions@) =~= version_views(old(self).versions@).push(
            old(self)@.current_version(),
        ));
    }

    /// Archives the current content, then brings back that of version `k`.
    pub fn revert(&mut self, k: usize, now: u64)
        requires
            old(self).wf(),
            k < old(self).versions@.len(),
        ensures
            final(self).wf(),
            final(self)@ == old(self)@.reverted(k as int, now),
    {
        let restored = self.versions[k].content.clone();
        let previous = self.content.clone();
        self.content = restored;
        self.versions.push(NoteVersion { content: previous, updated_at: self.updated_at });
        self.updated_at = now;
        assert(version_views(self.versions@) =~= version_views(old(self).versions@).push(
            old(self)@.current_version(),
        ));
    }

    pub fn toggle_markdown(&mut self)
        requires
            old(self).wf(),
        ensures
            final(self).wf(),
            final(self)@ == old(self)@.toggled(),
    {
        self.is_markdown = !self.is_markdown;
    }

    /// Grants `permission` to `user`, replacing any earlier grant.
    pub fn share(&mut self, user: Identity, permission: Permission)
        requires
            old(self).wf(),
        ensures
            final(self).wf(),
            final(self)@ == old(self)@.shared(user@, permission),
    {
        let ghost key = user@;
        match self.grant_position(&user) {
            Some(i) => {
                proof {
                    lemma_grants_set(self.shared_with@, i as int, (user, permission));
                }
                self.shared_with.set(i, (user, permission));
            },
            None => {
                proof {
                    lemma_grants_push(self.shared_with@, (user, permission));
                }
                self.shared_with.push((user, permission));
            },
        }
    }

    /// Withdraws whatever `user` was granted; nothing changes if nothing was.
    pub fn revoke(&mut self, user: &Identity)
        requires
            old(self).wf(),
        ensures
            final(self).wf(),
            final(self)@ == old(self)@.revoked(user@),
    {
        match self.grant_position(user) {
            Some(i) => {
                proof {
                    lemma_grants_remove(self.shared_with@, i as int);
                }
                self.shared_with.remove(i);
            },
            None => {
                proof {
                    lemma_grants_absent(self.shared_with@, user@);
                    assert(grants(self.shared_with@).remove(user@) =~= grants(self.shared_with@));
                }
            },
        }
    }

    /// A copy of the version history.
    pub fn history(&self) -> (r: Vec<NoteVersion>)
        ensures
            version_views(r@) == version_views(self.versions@),
    {
        let mut r: Vec<NoteVersion> = Vec::new();
        let mut i: usize = 0;
        while i < self.versions.len()
            invariant
                i <= self.versions@.len(),
                r@.len() == i,
                forall|j: int| 0 <= j < i ==> r@[j]@ == self.versions@[j]@,
            decreases self.versions@.len() - i,
        {
            r.push(self.versions[i].clone());
            i = i + 1;
        }
        assert(version_views(r@) =~= version_views(self.versions@));
        r
    }

    fn copy_grants(&self) -> (r: Vec<(Identity, Permission)>)
        ensures
            self.wf() ==> unique_keys(r@),
            grants(r@) == grants(self.shared_with@),
    {
        let mut r: Vec<(Identity, Permission)> = Vec::new();
        let mut i: usize = 0;
        while i < self.shared_with.len()
            invariant
                i <= self.shared_with@.len(),
                r@.len() == i,
                forall|j: int|
                    0 <= j < i ==> (#[trigger] r@[j]).0@ == self.shared_with@[j].0@ && r@[j].1
                        == self.shared_with@[j].1,
                grants(r@) == grants(self.shared_with@.take(i as int)),
            decreases self.shared_with@.len() - i,
        {
            let e = (self.shared_with[i].0.clone(), self.shared_with[i].1);
            let ghost before = r@;
            r.push(e);
            proof {
                let s = self.shared_with@;
                assert(r@.drop_last() =~= before);
                assert(s.take(i + 1).drop_last() =~= s.take(i as int));
                assert(s.take(i + 1).last() == s[i as int]);
            }
            i = i + 1;
        }
        assert(self.shared_with@.take(i as int) =~= self.shared_with@);
        r
    }
}

impl Clone for Note {
    fn clone(&self) -> (r: Note)
        ensures
            r@ == self@,
            self.wf() ==> r.wf(),
    {
        Note {
            id: self.id,
            title: self.title.clone(),
            content: self.content.clone(),
            created_at: self.created_at,
            updated_at: self.updated_at,
            owner: self.owner.clone(),
            versions: self.history(),
            shared_with: self.copy_grants(),
            is_markdown: self.is_markdown,
        }
    }
}

} // verus!
