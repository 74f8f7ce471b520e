//! The server-side store of encrypted records.
//!
//! Secret records are long-lived: created once per project, then read,
//! replaced and deleted by whoever holds their access key. Share records
//! live in a namespace of their own and are destroyed by their first read.
//! The store never sees plaintext or keys: a ciphertext is opaque text.
use vstd::prelude::*;

verus! {

/// Why a store operation did not take effect.
#[derive(Clone, Copy, Debug, PartialEq, Eq, Structural)]
pub enum StoreError {
    /// A record for the project is already there (or the drawn access key is taken).
    Conflict,
    /// No record matches the credential.
    NotFound,
}

/// A stored secret: one per project, reached through its access key.
pub struct SecretRecord {
    pub project_id: String,
    pub ciphertext: String,
    pub access_key: String,
}

/// A pending share: one per project, reached through its share code, once.
pub struct ShareRecord {
    pub project_id: String,
    pub share_code: String,
    pub ciphertext: String,
}

/// What the store holds for an access key.
pub struct SecretEntry {
    pub project_id: Seq<char>,
    pub ciphertext: Seq<char>,
}

/// What the store holds for a project's pending share.
pub struct ShareEntry {
    pub share_code: Seq<char>,
    pub ciphertext: Seq<char>,
}

/// The contents of a store: secrets by access key, shares by project.
pub struct StoreView {
    pub secrets: Map<Seq<char>, SecretEntry>,
    pub shares: Map<Seq<char>, ShareEntry>,
}

impl SecretRecord {
    pub open spec fn entry(self) -> SecretEntry {
        SecretEntry { project_id: self.project_id@, ciphertext: self.ciphertext@ }
    }
}

impl ShareRecord {
    pub open spec fn entry(self) -> ShareEntry {
        ShareEntry { share_code: self.share_code@, ciphertext: self.ciphertext@ }
    }
}

impl StoreView {
    /// Whether some secret record belongs to `project_id`.
    pub open spec fn project_in_use(self, project_id: Seq<char>) -> bool {
        exists|k: Seq<char>|
            #![trigger self.secrets[k]]
            self.secrets.contains_key(k) && self.secrets[k].project_id == project_id
    }

    /// At most one secret record per project.
    pub open spec fn wf(self) -> bool {
        forall|k1: Seq<char>, k2: Seq<char>|
            #![trigger self.secrets[k1], self.secrets[k2]]
            self.secrets.contains_key(k1) && self.secrets.contains_key(k2) && k1 != k2
                ==> self.secrets[k1].project_id != self.secrets[k2].project_id
    }
}

/// The view of a `Result` whose success value is text.
pub open spec fn viewed<E>(r: Result<String, E>) -> Result<Seq<char>, E> {
    match r {
        Ok(s) => Ok(s@),
        Err(e) => Err(e),
    }
}

/// Storing `ciphertext` for `project_id` under `access_key`.
pub open spec fn create_step(
    v: StoreView,
    project_id: Seq<char>,
    ciphertext: Seq<char>,
    access_key: Seq<char>,
) -> (StoreView, Result<(), StoreError>) {
    if v.project_in_use(project_id) || v.secrets.contains_key(access_key) {
        (v, Err(StoreError::Conflict))
    } else {
        (
            StoreView {
                secrets: v.secrets.insert(
                    access_key,
                    SecretEntry { project_id: project_id, ciphertext: ciphertext },
                ),
                shares: v.shares,
            },
            Ok(()),
        )
    }
}

/// Reading the ciphertext stored under `access_key`.
pub open spec fn read_step(v: StoreView, access_key: Seq<char>) -> Result<Seq<char>, StoreError> {
    if v.secrets.contains_key(access_key) {
        Ok(v.secrets[access_key].ciphertext)
    } else {
        Err(StoreError::NotFound)
    }
}

/// Replacing the ciphertext stored under `access_key`; the key and the
/// project stay as they were.
pub open spec fn update_step(v: StoreView, access_key: Seq<char>, ciphertext: Seq<char>) -> (
    StoreView,
    Result<(), StoreError>,
) {
    if v.secrets.contains_key(access_key) {
        (
            StoreView {
                secrets: v.secrets.insert(
                    access_key,
                    SecretEntry {
                        project_id: v.secrets[access_key].project_id,
                        ciphertext: ciphertext,
                    },
                ),
                shares: v.shares,
            },
            Ok(()),
        )
    } else {
        (v, Err(StoreError::NotFound))
    }
}

/// Removing the record stored under `access_key`.
pub open spec fn delete_step(v: StoreView, access_key: Seq<char>) -> (
    StoreView,
    Result<(), StoreError>,
) {
    if v.secrets.contains_key(access_key) {
        (StoreView { secrets: v.secrets.remove(access_key), shares: v.shares }, Ok(()))
    } else {
        (v, Err(StoreError::NotFound))
    }
}

/// Publishing a share of `ciphertext` for `project_id` under `share_code`.
pub open spec fn publish_step(
    v: StoreView,
    project_id: Seq<char>,
    share_code: Seq<char>,
    ciphertext: Seq<char>,
) -> (StoreView, Result<(), StoreError>) {
    if v.shares.contains_key(project_id) {
        (v, Err(StoreError::Conflict))
    } else {
        (
            StoreView {
                secrets: v.secrets,
                shares: v.shares.insert(
                    project_id,
                    ShareEntry { share_code: share_code, ciphertext: ciphertext },
                ),
            },
            Ok(()),
        )
    }
}

/// Whether a pending share matches both `project_id` and `share_code`.
pub open spec fn share_matches(v: StoreView, project_id: Seq<char>, share_code: Seq<char>) -> bool {
    v.shares.contains_key(project_id) && v.shares[project_id].share_code == share_code
}

/// Reading a pending share, which removes it in the same step.
pub open spec fn consume_step(v: StoreView, project_id: Seq<char>, share_code: Seq<char>) -> (
    StoreView,
    Result<Seq<char>, StoreError>,
) {
    if share_matches(v, project_id, share_code) {
        (
            StoreView { secrets: v.secrets, shares: v.shares.remove(project_id) },
            Ok(v.shares[project_id].ciphertext),
        )
    } else {
        (v, Err(StoreError::NotFound))
    }
}

spec fn secrets_match(s: Seq<SecretRecord>, m: Map<Seq<char>, SecretEntry>) -> bool {
    &&& forall|i: int|
        #![trigger s[i]]
        0 <= i < s.len() ==> m.contains_key(s[i].access_key@) && m[s[i].access_key@]
            == s[i].entry()
    &&& forall|k: Seq<char>|
        #![trigger m.contains_key(k)]
        m.contains_key(k) ==> exists|i: int|
            #![trigger s[i]]
            0 <= i < s.len() && s[i].access_key@ == k
    &&& forall|i: int, j: int|
        #![trigger s[i], s[j]]
        0 <= i < s.len() && 0 <= j < s.len() && i != j ==> s[i].access_key@ != s[j].access_key@
            && s[i].project_id@ != s[j].project_id@
}

spec fn shares_match(s: Seq<ShareRecord>, m: Map<Seq<char>, ShareEntry>) -> bool {
    &&& forall|i: int|
        #![trigger s[i]]
        0 <= i < s.len() ==> m.contains_key(s[i].project_id@) && m[s[i].project_id@]
            == s[i].entry()
    &&& forall|k: Seq<char>|
        #![trigger m.contains_key(k)]
        m.contains_key(k) ==> exists|i: int|
            #![trigger s[i]]
            0 <= i < s.len() && s[i].project_id@ == k
    &&& forall|i: int, j: int|
        #![trigger s[i], s[j]]
        0 <= i < s.len() && 0 <= j < s.len() && i != j ==> s[i].project_id@ != s[j].project_id@
}

/// The store of secret and share records.
pub struct RecordStore {
    secrets: Vec<SecretRecord>,
    shares: Vec<ShareRecord>,
    contents: Ghost<StoreView>,
}

impl View for RecordStore {
    type V = StoreView;

    closed spec fn view(&self) -> StoreView {
        self.contents@
    }
}

impl RecordStore {
    #[verifier::type_invariant]
    spec fn inv(self) -> bool {
        &&& secrets_match(self.secrets@, self.contents@.secrets)
        &&& shares_match(self.shares@, self.contents@.shares)
    }

    proof fn lemma_wf(&self)
        requires
            self.inv(),
        ensures
            self@.wf(),
    {
        let s = self.secrets@;
        let m = self.contents@.secrets;
        assert forall|k1: Seq<char>, k2: Seq<char>|
            #![trigger m[k1], m[k2]]
            m.contains_key(k1) && m.contains_key(k2) && k1 != k2 implies m[k1].project_id
            != m[k2].project_id by {
            assert(m.contains_key(k1));
            assert(m.contains_key(k2));
            let i = choose|i: int| 0 <= i < s.len() && s[i].access_key@ == k1;
            let j = choose|j: int| 0 <= j < s.len() && s[j].access_key@ == k2;
        }
    }

    /// An empty store.
    pub fn new() -> (r: Self)
        ensures
            r@.secrets == Map::<Seq<char>, SecretEntry>::empty(),
            r@.shares == Map::<Seq<char>, ShareEntry>::empty(),
    {
        RecordStore {
            secrets: Vec::new(),
            shares: Vec::new(),
            contents: Ghost(StoreView { secrets: Map::empty(), shares: Map::empty() }),
        }
    }

    fn secret_by_key(&self, access_key: &String) -> (r: Option<usize>)
        ensures
            r matches Some(i) ==> i < self.secrets@.len() && self.secrets@[i as int].access_key@
                == access_key@,
            r is None ==> forall|i: int|
                #![trigger self.secrets@[i]]
                0 <= i < self.secrets@.len() ==> self.secrets@[i].access_key@ != access_key@,
    {
        let mut i: usize = 0;
        while i < self.secrets.len()
            invariant
                i <= self.secrets@.len(),
                forall|j: int|
                    #![trigger self.secrets@[j]]
                    0 <= j < i ==> self.secrets@[j].access_key@ != access_key@,
            decreases self.secrets@.len() - i,
        {
            if self.secrets[i].access_key == *access_key {
                return Some(i);
            }
            i = i + 1;
        }
        None
    }

    fn secret_by_project(&self, project_id: &String) -> (r: Option<usize>)
        ensures
            r matches Some(i) ==> i < self.secrets@.len() && self.secrets@[i as int].project_id@
                == project_id@,
            r is None ==> forall|i: int|
                #![trigger self.secrets@[i]]
                0 <= i < self.secrets@.len() ==> self.secrets@[i].project_id@ != project_id@,
    {
        let mut i: usize = 0;
        while i < self.secrets.len()
            invariant
                i <= self.secrets@.len(),
                forall|j: int|
                    #![trigger self.secrets@[j]]
                    0 <= j < i ==> self.secrets@[j].project_id@ != project_id@,
            decreases self.secrets@.len() - i,
        {
            if self.secrets[i].project_id == *project_id {
                return Some(i);
            }
            i = i + 1;
        }
        None
    }

    fn share_by_project(&self, project_id: &String) -> (r: Option<usize>)
        ensures
            r matches Some(i) ==> i < self.shares@.len() && self.shares@[i as int].project_id@
                == project_id@,
            r is None ==> forall|i: int|
                #![trigger self.shares@[i]]
                0 <= i < self.shares@.len() ==> self.shares@[i].project_id@ != project_id@,
    {
        let mut i: usize = 0;
        while i < self.shares.len()
            invariant
                i <= self.shares@.len(),
                forall|j: int|
                    #![trigger self.shares@[j]]
                    0 <= j < i ==> self.shares@[j].project_id@ != project_id@,
            decreases self.shares@.len() - i,
        {
            if self.shares[i].project_id == *project_id {
                return Some(i);
            }
            i = i + 1;
        }
        None
    }

    /// Reads the ciphertext stored under `access_key`.
    pub fn read(&self, access_key: &str) -> (r: Result<String, StoreError>)
        ensures
            viewed(r) == read_step(self@, access_key@),
    {
        proof {
            use_type_invariant(self);
        }
        let key = access_key.to_owned();
        match self.secret_by_key(&key) {
            Some(i) => {
                proof {
                    let rec = self.secrets@[i as int];
                    assert(self.contents@.secrets.contains_key(rec.access_key@));
                }
                Ok(self.secrets[i].ciphertext.clone())
            },
            None => {
                proof {
                    if self.contents@.secrets.contains_key(key@) {
                        let j = choose|j: int|
                            0 <= j < self.secrets@.len() && self.secrets@[j].access_key@ == key@;
                        assert(self.secrets@[j].access_key@ != key@);
                    }
                }
                Err(StoreError::NotFound)
            },
        }
    }

    /// Stores `ciphertext` for `project_id` under the given `access_key`;
    /// refuses with `Conflict` when the project already has a record or
    /// the key is taken.
    pub fn create_with_key(&mut self, project_id: String, ciphertext: String, access_key: String) -> (r:
        Result<(), StoreError>)
        ensures
            (final(self)@, r) == create_step(old(self)@, project_id@, ciphertext@, access_key@),
            final(self)@.wf(),
    {
        proof {
            use_type_invariant(&*self);
            self.lemma_wf();
        }
        let by_project = self.secret_by_project(&project_id);
        let by_key = self.secret_by_key(&access_key);
        if by_project.is_some() || by_key.is_some() {
            proof {
                if let Some(i) = by_project {
                    let rec = self.secrets@[i as int];
                    assert(self@.secrets.contains_key(rec.access_key@));
                    assert(self@.secrets[rec.access_key@].project_id == project_id@);
                }
                if let Some(i) = by_key {
                    assert(self@.secrets.contains_key(self.secrets@[i as int].access_key@));
                }
            }
            return Err(StoreError::Conflict);
        }
        proof {
            assert(!self@.project_in_use(project_id@)) by {
                if self@.project_in_use(project_id@) {
                    let k = choose|k: Seq<char>|
                        #![trigger self@.secrets[k]]
                        self@.secrets.contains_key(k) && self@.secrets[k].project_id == project_id@;
                    assert(self.contents@.secrets.contains_key(k));
                    let j = choose|j: int|
                        0 <= j < self.secrets@.len() && self.secrets@[j].access_key@ == k;
                    assert(self.secrets@[j].project_id@ != project_id@);
                }
            }
            if self@.secrets.contains_key(access_key@) {
                assert(self.contents@.secrets.contains_key(access_key@));
                let j = choose|j: int|
                    0 <= j < self.secrets@.len() && self.secrets@[j].access_key@ == access_key@;
                assert(self.secrets@[j].access_key@ != access_key@);
            }
        }
        let mut this = RecordStore::new();
        std::mem::swap(self, &mut this);
        proof {
            use_type_invariant(&this);
        }
        let RecordStore { mut secrets, shares, contents } = this;
        let rec = SecretRecord { project_id, ciphertext, access_key };
        let ghost new_contents = StoreView {
            secrets: contents@.secrets.insert(rec.access_key@, rec.entry()),
            shares: contents@.shares,
        };
        let ghost old_secrets = secrets@;
        secrets.push(rec);
        proof {
            let s = secrets@;
            let m = new_contents.secrets;
            assert forall|i: int| #![trigger s[i]] 0 <= i < s.len() implies m.contains_key(
                s[i].access_key@,
            ) && m[s[i].access_key@] == s[i].entry() by {
                if i < old_secrets.len() {
                    assert(s[i] == old_secrets[i]);
                }
            }
            assert forall|k: Seq<char>| #![trigger m.contains_key(k)] m.contains_key(k) implies exists|
                i: int,
            |
                #![trigger s[i]]
                0 <= i < s.len() && s[i].access_key@ == k by {
                if k == rec.access_key@ {
                    assert(s[old_secrets.len() as int] == rec);
                } else {
                    assert(contents@.secrets.contains_key(k));
                    let j = choose|j: int|
                        #![trigger old_secrets[j]]
                        0 <= j < old_secrets.len() && old_secrets[j].access_key@ == k;
                    assert(s[j] == old_secrets[j]);
                }
            }
            assert forall|i: int, j: int|
                #![trigger s[i], s[j]]
                0 <= i < s.len() && 0 <= j < s.len() && i != j implies s[i].access_key@
                != s[j].access_key@ && s[i].project_id@ != s[j].project_id@ by {
                if i < old_secrets.len() {
                    assert(s[i] == old_secrets[i]);
                }
                if j < old_secrets.len() {
                    assert(s[j] == old_secrets[j]);
                }
            }
        }
        *self = RecordStore { secrets, shares, contents: Ghost(new_contents) };
        proof {
            use_type_invariant(&*self);
            self.lemma_wf();
        }
        Ok(())
    }

    /// Stores `ciphertext` for `project_id` under a freshly drawn random
    /// access key, which it returns. Refuses with `Conflict` when the project
    /// already has a record, and otherwise only when the drawn key is
    /// already stored (a 36-character key must be, for that).
    pub fn create(&mut self, project_id: String, ciphertext: String) -> (r: Result<
        String,
        StoreError,
    >)
        ensures
            old(self)@.project_in_use(project_id@) ==> r == Err::<String, StoreError>(
                StoreError::Conflict,
            ),
            r matches Ok(k) ==> (final(self)@, Ok::<(), StoreError>(())) == create_step(
                old(self)@,
                project_id@,
                ciphertext@,
                k@,
            ),
            r matches Err(e) ==> e == StoreError::Conflict && final(self)@ == old(self)@,
            r is Err ==> old(self)@.project_in_use(project_id@) || exists|k: Seq<char>|
                k.len() == 36 && #[trigger] old(self)@.secrets.contains_key(k),
            final(self)@.wf(),
    {
        let ghost before = self@;
        let access_key = new_access_key();
        let key = access_key.clone();
        match self.create_with_key(project_id, ciphertext, access_key) {
            Ok(()) => Ok(key),
            Err(e) => {
                proof {
                    if !before.project_in_use(project_id@) {
                        assert(before.secrets.contains_key(key@));
                    }
                }
                Err(e)
            },
        }
    }

    /// Replaces the ciphertext stored under `access_key`.
    pub fn update(&mut self, access_key: &str, ciphertext: String) -> (r: Result<(), StoreError>)
        ensures
            (final(self)@, r) == update_step(old(self)@, access_key@, ciphertext@),
            final(self)@.wf(),
    {
        proof {
            use_type_invariant(&*self);
            self.lemma_wf();
        }
        let key = access_key.to_owned();
        let found = self.secret_by_key(&key);
        if found.is_none() {
            proof {
                if self.contents@.secrets.contains_key(key@) {
                    let j = choose|j: int|
                        0 <= j < self.secrets@.len() && self.secrets@[j].access_key@ == key@;
                    assert(self.secrets@[j].access_key@ != key@);
                }
            }
            return Err(StoreError::NotFound);
        }
        let i = found.unwrap();
        let mut this = RecordStore::new();
        std::mem::swap(self, &mut this);
        proof {
            use_type_invariant(&this);
        }
        let RecordStore { mut secrets, shares, contents } = this;
        let ghost old_secrets = secrets@;
        let rec = SecretRecord {
            project_id: secrets[i].project_id.clone(),
            ciphertext,
            access_key: secrets[i].access_key.clone(),
        };
        let ghost new_contents = StoreView {
            secrets: contents@.secrets.insert(rec.access_key@, rec.entry()),
            shares: contents@.shares,
        };
        secrets[i] = rec;
        proof {
            let s = secrets@;
            let m = new_contents.secrets;
            assert forall|j: int| #![trigger s[j]] 0 <= j < s.len() implies m.contains_key(
                s[j].access_key@,
            ) && m[s[j].access_key@] == s[j].entry() by {
                if j != i {
                    assert(s[j] == old_secrets[j]);
                    assert(old_secrets[j].access_key@ != old_secrets[i as int].access_key@);
                }
            }
            assert forall|k: Seq<char>| #![trigger m.contains_key(k)] m.contains_key(k) implies exists|
                j: int,
            |
                #![trigger s[j]]
                0 <= j < s.len() && s[j].access_key@ == k by {
                if k == rec.access_key@ {
                    assert(s[i as int] == rec);
                } else {
                    assert(contents@.secrets.contains_key(k));
                    let j = choose|j: int|
                        #![trigger old_secrets[j]]
                        0 <= j < old_secrets.len() && old_secrets[j].access_key@ == k;
                    assert(s[j] == old_secrets[j]);
                }
            }
            assert forall|a: int, b: int|
                #![trigger s[a], s[b]]
                0 <= a < s.len() && 0 <= b < s.len() && a != b implies s[a].access_key@
                != s[b].access_key@ && s[a].project_id@ != s[b].project_id@ by {
            }
            assert(new_contents == update_step(contents@, key@, ciphertext@).0);
        }
        *self = RecordStore { secrets, shares, contents: Ghost(new_contents) };
        proof {
            use_type_invariant(&*self);
            self.lemma_wf();
        }
        Ok(())
    }

    /// Removes the record stored under `access_key`.
    pub fn delete(&mut self, access_key: &str) -> (r: Result<(), StoreError>)
        ensures
            (final(self)@, r) == delete_step(old(self)@, access_key@),
            final(self)@.wf(),
    {
        proof {
            use_type_invariant(&*self);
            self.lemma_wf();
        }
        let key = access_key.to_owned();
        let found = self.secret_by_key(&key);
        if found.is_none() {
            proof {
                if self.contents@.secrets.contains_key(key@) {
                    let j = choose|j: int|
                        0 <= j < self.secrets@.len() && self.secrets@[j].access_key@ == key@;
                    assert(self.secrets@[j].access_key@ != key@);
                }
            }
            return Err(StoreError::NotFound);
        }
        let i = found.unwrap();
        let mut this = RecordStore::new();
        std::mem::swap(self, &mut this);
        proof {
            use_type_invariant(&this);
        }
        let RecordStore { mut secrets, shares, contents } = this;
        let ghost old_secrets = secrets@;
        let ghost new_contents = StoreView {
            secrets: contents@.secrets.remove(key@),
            shares: contents@.shares,
        };
        secrets.remove(i);
        proof {
            let s = secrets@;
            let m = new_contents.secrets;
            assert forall|j: int| #![trigger s[j]] 0 <= j < s.len() implies m.contains_key(
                s[j].access_key@,
            ) && m[s[j].access_key@] == s[j].entry() by {
                if j < i {
                    assert(s[j] == old_secrets[j]);
                    assert(old_secrets[j].access_key@ != old_secrets[i as int].access_key@);
                } else {
                    assert(s[j] == old_secrets[j + 1]);
                    assert(old_secrets[j + 1].access_key@ != old_secrets[i as int].access_key@);
                }
            }
            assert forall|k: Seq<char>| #![trigger m.contains_key(k)] m.contains_key(k) implies exists|
                j: int,
            |
                #![trigger s[j]]
                0 <= j < s.len() && s[j].access_key@ == k by {
                assert(contents@.secrets.contains_key(k));
                let j = choose|j: int|
                    #![trigger old_secrets[j]]
                    0 <= j < old_secrets.len() && old_secrets[j].access_key@ == k;
                if j < i {
                    assert(s[j] == old_secrets[j]);
                } else {
                    assert(j != i);
                    assert(s[j - 1] == old_secrets[j]);
                }
            }
            assert forall|a: int, b: int|
                #![trigger s[a], s[b]]
                0 <= a < s.len() && 0 <= b < s.len() && a != b implies s[a].access_key@
                != s[b].access_key@ && s[a].project_id@ != s[b].project_id@ by {
                let a0 = if a < i { a } else { a + 1 };
                let b0 = if b < i { b } else { b + 1 };
                assert(s[a] == old_secrets[a0]);
                assert(s[b] == old_secrets[b0]);
            }
        }
        *self = RecordStore { secrets, shares, contents: Ghost(new_contents) };
        proof {
            use_type_invariant(&*self);
            self.lemma_wf();
        }
        Ok(())
    }

    /// Publishes a share of `ciphertext` for `project_id` under
    /// `share_code`; refuses with `Conflict` while the project has a share
    /// pending.
    pub fn publish(&mut self, project_id: String, share_code: String, ciphertext: String) -> (r:
        Result<(), StoreError>)
        ensures
            (final(self)@, r) == publish_step(old(self)@, project_id@, share_code@, ciphertext@),
            final(self)@.wf(),
    {
        proof {
            use_type_invariant(&*self);
            self.lemma_wf();
        }
        if self.share_by_project(&project_id).is_some() {
            proof {
                let i = choose|i: int|
                    0 <= i < self.shares@.len() && self.shares@[i].project_id@ == project_id@;
                assert(self.contents@.shares.contains_key(self.shares@[i].project_id@));
            }
            return Err(StoreError::Conflict);
        }
        proof {
            if self.contents@.shares.contains_key(project_id@) {
                let j = choose|j: int|
                    0 <= j < self.shares@.len() && self.shares@[j].project_id@ == project_id@;
                assert(self.shares@[j].project_id@ != project_id@);
            }
        }
        let mut this = RecordStore::new();
        std::mem::swap(self, &mut this);
        proof {
            use_type_invariant(&this);
        }
        let RecordStore { secrets, mut shares, contents } = this;
        let rec = ShareRecord { project_id, share_code, ciphertext };
        let ghost new_contents = StoreView {
            secrets: contents@.secrets,
            shares: contents@.shares.insert(rec.project_id@, rec.entry()),
        };
        let ghost old_shares = shares@;
        shares.push(rec);
        proof {
            let s = shares@;
            let m = new_contents.shares;
            assert forall|i: int| #![trigger s[i]] 0 <= i < s.len() implies m.contains_key(
                s[i].project_id@,
            ) && m[s[i].project_id@] == s[i].entry() by {
                if i < old_shares.len() {
                    assert(s[i] == old_shares[i]);
                }
            }
            assert forall|k: Seq<char>| #![trigger m.contains_key(k)] m.contains_key(k) implies exists|
                i: int,
            |
                #![trigger s[i]]
                0 <= i < s.len() && s[i].project_id@ == k by {
                if k == rec.project_id@ {
                    assert(s[old_shares.len() as int] == rec);
                } else {
                    assert(contents@.shares.contains_key(k));
                    let j = choose|j: int|
                        #![trigger old_shares[j]]
                        0 <= j < old_shares.len() && old_shares[j].project_id@ == k;
                    assert(s[j] == old_shares[j]);
                }
            }
            assert forall|i: int, j: int|
                #![trigger s[i], s[j]]
                0 <= i < s.len() && 0 <= j < s.len() && i != j implies s[i].project_id@
                != s[j].project_id@ by {
                if i < old_shares.len() {
                    assert(s[i] == old_shares[i]);
                }
                if j < old_shares.len() {
                    assert(s[j] == old_shares[j]);
                }
            }
        }
        *self = RecordStore { secrets, shares, contents: Ghost(new_contents) };
        proof {
            use_type_invariant(&*self);
            self.lemma_wf();
        }
        Ok(())
    }

    /// Reads the share pending for `project_id` if its code is `share_code`,
    /// and removes it in the same step: a share is read at most once.
    pub fn consume(&mut self, project_id: &str, share_code: &str) -> (r: Result<String, StoreError>)
        ensures
            (final(self)@, viewed(r)) == consume_step(old(self)@, project_id@, share_code@),
            final(self)@.wf(),
    {
        proof {
            use_type_invariant(&*self);
            self.lemma_wf();
        }
        let pid = project_id.to_owned();
        let code = share_code.to_owned();
        let found = self.share_by_project(&pid);
        let i = match found {
            Some(i) => i,
            None => {
                proof {
                    if self.contents@.shares.contains_key(pid@) {
                        let j = choose|j: int|
                            0 <= j < self.shares@.len() && self.shares@[j].project_id@ == pid@;
                        assert(self.shares@[j].project_id@ != pid@);
                    }
                }
                return Err(StoreError::NotFound);
            },
        };
        proof {
            assert(self.contents@.shares.contains_key(self.shares@[i as int].project_id@));
        }
        if !(self.shares[i].share_code == code) {
            return Err(StoreError::NotFound);
        }
        let mut this = RecordStore::new();
        std::mem::swap(self, &mut this);
        proof {
            use_type_invariant(&this);
        }
        let RecordStore { secrets, mut shares, contents } = this;
        let ghost old_shares = shares@;
        let ghost new_contents = StoreView {
            secrets: contents@.secrets,
            shares: contents@.shares.remove(pid@),
        };
        let rec = shares.remove(i);
        proof {
            let s = shares@;
            let m = new_contents.shares;
            assert forall|j: int| #![trigger s[j]] 0 <= j < s.len() implies m.contains_key(
                s[j].project_id@,
            ) && m[s[j].project_id@] == s[j].entry() by {
                if j < i {
                    assert(s[j] == old_shares[j]);
                    assert(old_shares[j].project_id@ != old_shares[i as int].project_id@);
                } else {
                    assert(s[j] == old_shares[j + 1]);
                    assert(old_shares[j + 1].project_id@ != old_shares[i as int].project_id@);
                }
            }
            assert forall|k: Seq<char>| #![trigger m.contains_key(k)] m.contains_key(k) implies exists|
                j: int,
            |
                #![trigger s[j]]
                0 <= j < s.len() && s[j].project_id@ == k by {
                assert(contents@.shares.contains_key(k));
                let j = choose|j: int|
                    #![trigger old_shares[j]]
                    0 <= j < old_shares.len() && old_shares[j].project_id@ == k;
                if j < i {
                    assert(s[j] == old_shares[j]);
                } else {
                    assert(j != i);
                    assert(s[j - 1] == old_shares[j]);
                }
            }
            assert forall|a: int, b: int|
                #![trigger s[a], s[b]]
                0 <= a < s.len() && 0 <= b < s.len() && a != b implies s[a].project_id@
                != s[b].project_id@ by {
                let a0 = if a < i { a } else { a + 1 };
                let b0 = if b < i { b } else { b + 1 };
                assert(s[a] == old_shares[a0]);
                assert(s[b] == old_shares[b0]);
            }
        }
        *self = RecordStore { secrets, shares, contents: Ghost(new_contents) };
        proof {
            use_type_invariant(&*self);
            self.lemma_wf();
        }
        Ok(rec.ciphertext)
    }
}

/// Once a record for a project is created, creating one again for the same
/// project is refused with `Conflict`, the store stays as the first create
/// left it, and the first ciphertext stays readable.
pub proof fn lemma_second_create_conflicts(
    v: StoreView,
    project_id: Seq<char>,
    first: Seq<char>,
    second: Seq<char>,
    first_key: Seq<char>,
    second_key: Seq<char>,
)
    requires
        create_step(v, project_id, first, first_key).1 is Ok,
    ensures
        ({
            let v1 = create_step(v, project_id, first, first_key).0;
            let (v2, r2) = create_step(v1, project_id, second, second_key);
            &&& r2 == Err::<(), StoreError>(StoreError::Conflict)
            &&& v2 == v1
            &&& read_step(v2, first_key) == Ok::<Seq<char>, StoreError>(first)
        }),
{
    let v1 = create_step(v, project_id, first, first_key).0;
    assert(v1.secrets.contains_key(first_key));
    assert(v1.secrets[first_key].project_id == project_id);
    assert(v1.project_in_use(project_id));
}

/// Consuming a share twice with the same project and code succeeds at most
/// once: the second read finds nothing. The first succeeds exactly when a
/// share with that code was pending.
pub proof fn lemma_consume_once(v: StoreView, project_id: Seq<char>, share_code: Seq<char>)
    ensures
        ({
            let (v1, r1) = consume_step(v, project_id, share_code);
            let (v2, r2) = consume_step(v1, project_id, share_code);
            &&& r1 is Ok <==> share_matches(v, project_id, share_code)
            &&& r2 == Err::<Seq<char>, StoreError>(StoreError::NotFound)
            &&& v2 == v1
        }),
{
}

/// A consumed share code stays spent when the project is shared again
/// under another code.
pub proof fn lemma_spent_code_stays_spent(
    v: StoreView,
    project_id: Seq<char>,
    share_code: Seq<char>,
    new_code: Seq<char>,
    ciphertext: Seq<char>,
)
    requires
        new_code != share_code,
    ensures
        ({
            let (v1, _) = consume_step(v, project_id, share_code);
            let (v2, _) = publish_step(v1, project_id, new_code, ciphertext);
            consume_step(v2, project_id, share_code).1 == Err::<Seq<char>, StoreError>(
                StoreError::NotFound,
            )
        }),
{
}

/// After a delete, reading with the same access key finds nothing.
pub proof fn lemma_read_after_delete(v: StoreView, access_key: Seq<char>)
    ensures
        read_step(delete_step(v, access_key).0, access_key) == Err::<Seq<char>, StoreError>(
            StoreError::NotFound,
        ),
{
}

/// After an update, reading with the same access key gives the new
/// ciphertext; where no record matched, both fail with `NotFound`.
pub proof fn lemma_read_after_update(v: StoreView, access_key: Seq<char>, ciphertext: Seq<char>)
    ensures
        update_step(v, access_key, ciphertext).1 is Ok ==> read_step(
            update_step(v, access_key, ciphertext).0,
            access_key,
        ) == Ok::<Seq<char>, StoreError>(ciphertext),
        update_step(v, access_key, ciphertext).1 is Err ==> read_step(
            update_step(v, access_key, ciphertext).0,
            access_key,
        ) == Err::<Seq<char>, StoreError>(StoreError::NotFound),
{
}

/// Relies on `uuid::Uuid::new_v4` for 122 random bits, and on its `Display`,
/// which writes the hyphenated lowercase form of 36 characters.
#[verifier::external_body]
fn new_access_key() -> (r: String)
    ensures
        r@.len() == 36,
{
    uuid::Uuid::new_v4().to_string()
}

} // verus!
