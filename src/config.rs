//! The client's local state: the server address and, for each project,
//! the access key the server issued and the encryption key (base64) that
//! never leaves the client.
use vstd::prelude::*;

verus! {

/// The server address used when the configuration names none.
pub const DEFAULT_API_URL: &'static str = "http://localhost:8080";

/// The credentials the client holds for one project.
pub struct ProjectEntry {
    pub project_id: String,
    pub access_key: String,
    pub encryption_key: String,
}

/// What the client holds for a project.
pub struct EntryView {
    pub access_key: Seq<char>,
    pub encryption_key: Seq<char>,
}

/// The contents of a configuration: an optional server address and the
/// projects' credentials by project id.
pub struct ConfigView {
    pub api_url: Option<Seq<char>>,
    pub projects: Map<Seq<char>, EntryView>,
}

impl ProjectEntry {
    pub open spec fn entry(self) -> EntryView {
        EntryView { access_key: self.access_key@, encryption_key: self.encryption_key@ }
    }

    /// A copy of this entry.
    pub fn duplicate(&self) -> (r: ProjectEntry)
        ensures
            r == *self,
    {
        ProjectEntry {
            project_id: self.project_id.clone(),
            access_key: self.access_key.clone(),
            encryption_key: self.encryption_key.clone(),
        }
    }
}

spec fn entries_match(s: Seq<ProjectEntry>, m: Map<Seq<char>, EntryView>) -> bool {
    &&& forall|i: int|
        #![trigger s[i]]
        0 <= i < s.len() ==> m.contains_key(s[i].project_id@) && m[s[i].project_id@]
            == s[i].entry()
    &&& forall|k: Seq<char>|
        #![trigger m.contains_key(k)]
        m.contains_key(k) ==> exists|i: int|
            #![trigger s[i]]
            0 <= i < s.len() && s[i].project_id@ == k
    &&& forall|i: int, j: int|
        #![trigger s[i], s[j]]
        0 <= i < s.len() && 0 <= j < s.len() && i != j ==> s[i].project_id@ != s[j].project_id@
}

proof fn lemma_push_entry(s: Seq<ProjectEntry>, m: Map<Seq<char>, EntryView>, e: ProjectEntry)
    requires
        entries_match(s, m),
        !m.contains_key(e.project_id@),
    ensures
        entries_match(s.push(e), m.insert(e.project_id@, e.entry())),
{
    let t = s.push(e);
    let n = m.insert(e.project_id@, e.entry());
    assert forall|i: int| #![trigger t[i]] 0 <= i < t.len() implies n.contains_key(
        t[i].project_id@,
    ) && n[t[i].project_id@] == t[i].entry() by {
        if i < s.len() {
            assert(t[i] == s[i]);
        }
    }
    assert forall|k: Seq<char>| #![trigger n.contains_key(k)] n.contains_key(k) implies exists|
        i: int,
    |
        #![trigger t[i]]
        0 <= i < t.len() && t[i].project_id@ == k by {
        if k == e.project_id@ {
            assert(t[s.len() as int] == e);
        } else {
            assert(m.contains_key(k));
            let j = choose|j: int| #![trigger s[j]] 0 <= j < s.len() && s[j].project_id@ == k;
            assert(t[j] == s[j]);
        }
    }
    assert forall|i: int, j: int|
        #![trigger t[i], t[j]]
        0 <= i < t.len() && 0 <= j < t.len() && i != j implies t[i].project_id@
        != t[j].project_id@ by {
        if i < s.len() {
            assert(t[i] == s[i]);
            assert(m.contains_key(s[i].project_id@));
        }
        if j < s.len() {
            assert(t[j] == s[j]);
            assert(m.contains_key(s[j].project_id@));
        }
    }
}

proof fn lemma_set_entry(s: Seq<ProjectEntry>, m: Map<Seq<char>, EntryView>, i: int, e: ProjectEntry)
    requires
        entries_match(s, m),
        0 <= i < s.len(),
        s[i].project_id@ == e.project_id@,
    ensures
        entries_match(s.update(i, e), m.insert(e.project_id@, e.entry())),
{
    let t = s.update(i, e);
    let n = m.insert(e.project_id@, e.entry());
    assert forall|j: int| #![trigger t[j]] 0 <= j < t.len() implies n.contains_key(
        t[j].project_id@,
    ) && n[t[j].project_id@] == t[j].entry() by {
        if j != i {
            assert(t[j] == s[j]);
            assert(s[j].project_id@ != s[i].project_id@);
        }
    }
    assert forall|k: Seq<char>| #![trigger n.contains_key(k)] n.contains_key(k) implies exists|
        j: int,
    |
        #![trigger t[j]]
        0 <= j < t.len() && t[j].project_id@ == k by {
        if k == e.project_id@ {
            assert(t[i] == e);
        } else {
            assert(m.contains_key(k));
            let j = choose|j: int| #![trigger s[j]] 0 <= j < s.len() && s[j].project_id@ == k;
            assert(t[j] == s[j]);
        }
    }
    assert forall|a: int, b: int|
        #![trigger t[a], t[b]]
        0 <= a < t.len() && 0 <= b < t.len() && a != b implies t[a].project_id@
        != t[b].project_id@ by {
    }
}

proof fn lemma_remove_entry(s: Seq<ProjectEntry>, m: Map<Seq<char>, EntryView>, i: int)
    requires
        entries_match(s, m),
        0 <= i < s.len(),
    ensures
        entries_match(s.remove(i), m.remove(s[i].project_id@)),
{
    let t = s.remove(i);
    let n = m.remove(s[i].project_id@);
    assert forall|j: int| #![trigger t[j]] 0 <= j < t.len() implies n.contains_key(
        t[j].project_id@,
    ) && n[t[j].project_id@] == t[j].entry() by {
        if j < i {
            assert(t[j] == s[j]);
            assert(s[j].project_id@ != s[i].project_id@);
        } else {
            assert(t[j] == s[j + 1]);
            assert(s[j + 1].project_id@ != s[i].project_id@);
        }
    }
    assert forall|k: Seq<char>| #![trigger n.contains_key(k)] n.contains_key(k) implies exists|
        j: int,
    |
        #![trigger t[j]]
        0 <= j < t.len() && t[j].project_id@ == k by {
        assert(m.contains_key(k));
        let j = choose|j: int| #![trigger s[j]] 0 <= j < s.len() && s[j].project_id@ == k;
        if j < i {
            assert(t[j] == s[j]);
        } else {
            assert(j != i);
            assert(t[j - 1] == s[j]);
        }
    }
    assert forall|a: int, b: int|
        #![trigger t[a], t[b]]
        0 <= a < t.len() && 0 <= b < t.len() && a != b implies t[a].project_id@
        != t[b].project_id@ by {
        let a0 = if a < i { a } else { a + 1 };
        let b0 = if b < i { b } else { b + 1 };
        assert(t[a] == s[a0]);
        assert(t[b] == s[b0]);
    }
}

/// The client's local configuration.
pub struct LocalConfig {
    api_url: Option<String>,
    entries: Vec<ProjectEntry>,
    contents: Ghost<ConfigView>,
}

impl View for LocalConfig {
    type V = ConfigView;

    closed spec fn view(&self) -> ConfigView {
        self.contents@
    }
}

impl LocalConfig {
    /// The projects' ids in the order their entries are kept: a project is
    /// added at the end and keeps its place when its entry is replaced.
    pub closed spec fn project_order(&self) -> Seq<Seq<char>> {
        self.entries@.map_values(|e: ProjectEntry| e.project_id@)
    }

    #[verifier::type_invariant]
    spec fn inv(self) -> bool {
        &&& entries_match(self.entries@, self.contents@.projects)
        &&& self.contents@.api_url == self.api_url.deep_view()
    }

    /// A configuration with the given server address and no projects.
    pub fn new(api_url: Option<String>) -> (r: Self)
        ensures
            r@.api_url == api_url.deep_view(),
            r@.projects == Map::<Seq<char>, EntryView>::empty(),
            r.project_order() == Seq::<Seq<char>>::empty(),
    {
        let ghost url = api_url.deep_view();
        LocalConfig {
            api_url,
            entries: Vec::new(),
            contents: Ghost(ConfigView { api_url: url, projects: Map::empty() }),
        }
    }

    /// The server address this configuration names, if any.
    pub fn server(&self) -> (r: Option<String>)
        ensures
            r matches Some(u) ==> self@.api_url == Some(u@),
            r is None ==> self@.api_url is None,
    {
        proof {
            use_type_invariant(self);
        }
        match &self.api_url {
            Some(u) => Some(u.clone()),
            None => None,
        }
    }

    /// The server address to use: the one configured, else the default.
    pub fn api_url(&self) -> (r: String)
        ensures
            self@.api_url matches Some(u) ==> r@ == u,
            self@.api_url is None ==> r@ == DEFAULT_API_URL@,
    {
        proof {
            use_type_invariant(self);
        }
        match &self.api_url {
            Some(u) => u.clone(),
            None => DEFAULT_API_URL.to_owned(),
        }
    }

    /// The projects' credentials, each project once.
    pub fn entries(&self) -> (r: &[ProjectEntry])
        ensures
            forall|i: int|
                #![trigger r@[i]]
                0 <= i < r@.len() ==> self@.projects.contains_key(r@[i].project_id@)
                    && self@.projects[r@[i].project_id@] == r@[i].entry(),
            forall|k: Seq<char>|
                #![trigger self@.projects.contains_key(k)]
                self@.projects.contains_key(k) ==> exists|i: int|
                    #![trigger r@[i]]
                    0 <= i < r@.len() && r@[i].project_id@ == k,
            forall|i: int, j: int|
                #![trigger r@[i], r@[j]]
                0 <= i < r@.len() && 0 <= j < r@.len() && i != j ==> r@[i].project_id@
                    != r@[j].project_id@,
            r@.len() == self.project_order().len(),
            forall|i: int|
                #![trigger r@[i]]
                0 <= i < r@.len() ==> r@[i].project_id@ == self.project_order()[i],
    {
        proof {
            use_type_invariant(self);
        }
        self.entries.as_slice()
    }

    fn index_of(&self, project_id: &String) -> (r: Option<usize>)
        ensures
            r matches Some(i) ==> i < self.entries@.len() && self.entries@[i as int].project_id@
                == project_id@,
            r is None ==> forall|i: int|
                #![trigger self.entries@[i]]
                0 <= i < self.entries@.len() ==> self.entries@[i].project_id@ != project_id@,
    {
        let mut i: usize = 0;
        while i < self.entries.len()
            invariant
                i <= self.entries@.len(),
                forall|j: int|
                    #![trigger self.entries@[j]]
                    0 <= j < i ==> self.entries@[j].project_id@ != project_id@,
            decreases self.entries@.len() - i,
        {
            if self.entries[i].project_id == *project_id {
                return Some(i);
            }
            i = i + 1;
        }
        None
    }

    /// The credentials held for `project_id`, if any.
    pub fn get(&self, project_id: &str) -> (r: Option<&ProjectEntry>)
        ensures
            r matches Some(e) ==> self@.projects.contains_key(project_id@) && e.project_id@
                == project_id@ && self@.projects[project_id@] == e.entry(),
            r is None ==> !self@.projects.contains_key(project_id@),
    {
        proof {
            use_type_invariant(self);
        }
        let pid = project_id.to_owned();
        match self.index_of(&pid) {
            Some(i) => {
                proof {
                    assert(self.contents@.projects.contains_key(
                        self.entries@[i as int].project_id@,
                    ));
                }
                Some(&self.entries[i])
            },
            None => {
                proof {
                    if self.contents@.projects.contains_key(pid@) {
                        let j = choose|j: int|
                            0 <= j < self.entries@.len() && self.entries@[j].project_id@ == pid@;
                        assert(self.entries@[j].project_id@ != pid@);
                    }
                }
                None
            },
        }
    }

    /// Records `entry` for its project, replacing what was held for it;
    /// every other project and the server address are kept.
    pub fn insert(&mut self, entry: ProjectEntry)
        ensures
            final(self)@.api_url == old(self)@.api_url,
            final(self)@.projects == old(self)@.projects.insert(entry.project_id@, entry.entry()),
            old(self)@.projects.contains_key(entry.project_id@) ==> final(self).project_order()
                == old(self).project_order(),
            !old(self)@.projects.contains_key(entry.project_id@) ==> final(self).project_order()
                == old(self).project_order().push(entry.project_id@),
    {
        proof {
            use_type_invariant(&*self);
        }
        let found = self.index_of(&entry.project_id);
        let mut this = LocalConfig::new(None);
        std::mem::swap(self, &mut this);
        proof {
            use_type_invariant(&this);
        }
        let LocalConfig { api_url, mut entries, contents } = this;
        let ghost new_contents = ConfigView {
            api_url: contents@.api_url,
            projects: contents@.projects.insert(entry.project_id@, entry.entry()),
        };
        match found {
            Some(i) => {
                proof {
                    lemma_set_entry(entries@, contents@.projects, i as int, entry);
                    assert(contents@.projects.contains_key(entries@[i as int].project_id@));
                }
                let ghost before = entries@;
                entries[i] = entry;
                proof {
                    assert(entries@.map_values(|e: ProjectEntry| e.project_id@) =~= before.map_values(
                        |e: ProjectEntry| e.project_id@,
                    ));
                }
            },
            None => {
                proof {
                    if contents@.projects.contains_key(entry.project_id@) {
                        let j = choose|j: int|
                            0 <= j < entries@.len() && entries@[j].project_id@
                                == entry.project_id@;
                        assert(entries@[j].project_id@ != entry.project_id@);
                    }
                    lemma_push_entry(entries@, contents@.projects, entry);
                }
                let ghost before = entries@;
                let ghost pid = entry.project_id@;
                entries.push(entry);
                proof {
                    assert(entries@.map_values(|e: ProjectEntry| e.project_id@) =~= before.map_values(
                        |e: ProjectEntry| e.project_id@,
                    ).push(pid));
                }
            },
        }
        *self = LocalConfig { api_url, entries, contents: Ghost(new_contents) };
    }

    /// Drops what is held for `project_id`; says whether anything was.
    /// Every other project and the server address are kept.
    pub fn remove(&mut self, project_id: &str) -> (r: bool)
        ensures
            r == old(self)@.projects.contains_key(project_id@),
            final(self)@.api_url == old(self)@.api_url,
            final(self)@.projects == old(self)@.projects.remove(project_id@),
            !r ==> final(self).project_order() == old(self).project_order(),
            r ==> exists|i: int|
                0 <= i < old(self).project_order().len() && #[trigger] old(
                    self,
                ).project_order()[i] == project_id@ && final(self).project_order() == old(
                    self,
                ).project_order().remove(i),
    {
        proof {
            use_type_invariant(&*self);
        }
        let pid = project_id.to_owned();
        let found = self.index_of(&pid);
        let i = match found {
            Some(i) => i,
            None => {
                proof {
                    if self.contents@.projects.contains_key(pid@) {
                        let j = choose|j: int|
                            0 <= j < self.entries@.len() && self.entries@[j].project_id@ == pid@;
                        assert(self.entries@[j].project_id@ != pid@);
                    }
                    assert(self@.projects.remove(pid@) =~= self@.projects);
                }
                return false;
            },
        };
        let mut this = LocalConfig::new(None);
        std::mem::swap(self, &mut this);
        proof {
            use_type_invariant(&this);
            assert(this.contents@.projects.contains_key(this.entries@[i as int].project_id@));
            lemma_remove_entry(this.entries@, this.contents@.projects, i as int);
        }
        let LocalConfig { api_url, mut entries, contents } = this;
        let ghost new_contents = ConfigView {
            api_url: contents@.api_url,
            projects: contents@.projects.remove(pid@),
        };
        let ghost before = entries@;
        entries.remove(i);
        proof {
            assert(entries@.map_values(|e: ProjectEntry| e.project_id@) =~= before.map_values(
                |e: ProjectEntry| e.project_id@,
            ).remove(i as int));
            assert(before.map_values(|e: ProjectEntry| e.project_id@)[i as int] == pid@);
        }
        *self = LocalConfig { api_url, entries, contents: Ghost(new_contents) };
        proof {
            assert(old(self).project_order() =~= before.map_values(|e: ProjectEntry| e.project_id@));
            assert(old(self).project_order()[i as int] == project_id@);
        }
        true
    }
}

impl LocalConfig {
    /// A copy of this configuration.
    pub fn duplicate(&self) -> (r: LocalConfig)
        ensures
            r@ == self@,
    {
        let entries = self.entries();
        let mut r = LocalConfig::new(self.server());
        let mut i: usize = 0;
        while i < entries.len()
            invariant
                i <= entries@.len(),
                r@.api_url == self@.api_url,
                forall|j: int|
                    #![trigger entries@[j]]
                    0 <= j < entries@.len() ==> self@.projects.contains_key(entries@[j].project_id@)
                        && self@.projects[entries@[j].project_id@] == entries@[j].entry(),
                forall|k: Seq<char>|
                    #![trigger self@.projects.contains_key(k)]
                    self@.projects.contains_key(k) ==> exists|j: int|
                        #![trigger entries@[j]]
                        0 <= j < entries@.len() && entries@[j].project_id@ == k,
                forall|a: int, b: int|
                    #![trigger entries@[a], entries@[b]]
                    0 <= a < entries@.len() && 0 <= b < entries@.len() && a != b
                        ==> entries@[a].project_id@ != entries@[b].project_id@,
                forall|k: Seq<char>|
                    #![trigger r@.projects.contains_key(k)]
                    r@.projects.contains_key(k) <==> exists|j: int|
                        #![trigger entries@[j]]
                        0 <= j < i && entries@[j].project_id@ == k,
                forall|k: Seq<char>|
                    #![trigger r@.projects[k]]
                    r@.projects.contains_key(k) ==> r@.projects[k] == self@.projects[k],
            decreases entries@.len() - i,
        {
            let e = entries[i].duplicate();
            let ghost before = r@.projects;
            r.insert(e);
            proof {
                assert forall|k: Seq<char>|
                    #![trigger r@.projects.contains_key(k)]
                    r@.projects.contains_key(k) <==> exists|j: int|
                        #![trigger entries@[j]]
                        0 <= j < i + 1 && entries@[j].project_id@ == k by {
                    if r@.projects.contains_key(k) && k != entries@[i as int].project_id@ {
                        assert(before.contains_key(k));
                    }
                    if k == entries@[i as int].project_id@ {
                        assert(entries@[i as int].project_id@ == k);
                    }
                }
            }
            i = i + 1;
        }
        proof {
            assert(r@.projects =~= self@.projects);
        }
        r
    }

    /// A configuration that holds only `project_id`'s credentials and no
    /// server address, or `None` where this one holds none for it.
    pub fn single_project(&self, project_id: &str) -> (r: Option<LocalConfig>)
        ensures
            r is None <==> !self@.projects.contains_key(project_id@),
            r matches Some(c) ==> c@.api_url is None && c@.projects == Map::<
                Seq<char>,
                EntryView,
            >::empty().insert(project_id@, self@.projects[project_id@]),
    {
        match self.get(project_id) {
            Some(e) => {
                let mut c = LocalConfig::new(None);
                c.insert(e.duplicate());
                Some(c)
            },
            None => None,
        }
    }
}

/// A fresh configuration naming the default server and no projects.
pub fn default_config() -> (r: LocalConfig)
    ensures
        r@.api_url == Some(DEFAULT_API_URL@),
        r@.projects == Map::<Seq<char>, EntryView>::empty(),
{
    LocalConfig::new(Some(DEFAULT_API_URL.to_owned()))
}

/// Records the credentials of `project_name`, replacing what was held for
/// it; every other project and the server address are kept.
pub fn update_config(
    config: &mut LocalConfig,
    project_name: &str,
    access_key: &str,
    encryption_key: &str,
)
    ensures
        final(config)@.api_url == old(config)@.api_url,
        final(config)@.projects == old(config)@.projects.insert(
            project_name@,
            EntryView { access_key: access_key@, encryption_key: encryption_key@ },
        ),
{
    config.insert(
        ProjectEntry {
            project_id: project_name.to_owned(),
            access_key: access_key.to_owned(),
            encryption_key: encryption_key.to_owned(),
        },
    );
}

/// The ids of the projects the configuration holds, each once, in the
/// order the configuration keeps them.
pub fn list_projects(config: &LocalConfig) -> (r: Vec<String>)
    ensures
        forall|i: int|
            #![trigger r@[i]]
            0 <= i < r@.len() ==> config@.projects.contains_key(r@[i]@),
        forall|k: Seq<char>|
            #![trigger config@.projects.contains_key(k)]
            config@.projects.contains_key(k) ==> exists|i: int|
                #![trigger r@[i]]
                0 <= i < r@.len() && r@[i]@ == k,
        forall|i: int, j: int|
            #![trigger r@[i], r@[j]]
            0 <= i < r@.len() && 0 <= j < r@.len() && i != j ==> r@[i]@ != r@[j]@,
        r@.len() == config.project_order().len(),
        forall|i: int| #![trigger r@[i]] 0 <= i < r@.len() ==> r@[i]@ == config.project_order()[i],
{
    let entries = config.entries();
    let mut r: Vec<String> = Vec::new();
    let mut i: usize = 0;
    while i < entries.len()
        invariant
            i <= entries@.len(),
            r@.len() == i,
            forall|j: int| #![trigger r@[j]] 0 <= j < i ==> r@[j]@ == entries@[j].project_id@,
            forall|j: int|
                #![trigger entries@[j]]
                0 <= j < entries@.len() ==> config@.projects.contains_key(
                    entries@[j].project_id@,
                ),
            forall|a: int, b: int|
                #![trigger entries@[a], entries@[b]]
                0 <= a < entries@.len() && 0 <= b < entries@.len() && a != b
                    ==> entries@[a].project_id@ != entries@[b].project_id@,
        decreases entries@.len() - i,
    {
        r.push(entries[i].project_id.clone());
        i = i + 1;
    }
    proof {
        assert forall|k: Seq<char>|
            #![trigger config@.projects.contains_key(k)]
            config@.projects.contains_key(k) implies exists|i: int|
                #![trigger r@[i]]
                0 <= i < r@.len() && r@[i]@ == k by {
            let j = choose|j: int|
                #![trigger entries@[j]]
                0 <= j < entries@.len() && entries@[j].project_id@ == k;
            assert(r@[j]@ == k);
        }
        assert forall|a: int, b: int|
            #![trigger r@[a], r@[b]]
            0 <= a < r@.len() && 0 <= b < r@.len() && a != b implies r@[a]@ != r@[b]@ by {
        }
        assert forall|i: int|
            #![trigger r@[i]]
            0 <= i < r@.len() implies config@.projects.contains_key(r@[i]@) by {
        }
    }
    r
}

} // verus!
