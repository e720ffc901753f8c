use vstd::prelude::*;
use vstd::string::StringExecFns;

verus! {

/// What a note is, mathematically: its title and its body.
pub type NoteView = (Seq<char>, Seq<char>);

/// One note: a single-line title and a free-form body.
#[derive(Clone, Debug)]
pub struct Note {
    pub title: String,
    pub body: String,
}

impl View for Note {
    type V = NoteView;

    open spec fn view(&self) -> NoteView {
        (self.title@, self.body@)
    }
}

/// The note with an empty title and an empty body.
pub open spec fn empty_note() -> NoteView {
    (Seq::empty(), Seq::empty())
}

impl Note {
    /// An empty note.
    pub fn new() -> (r: Note)
        ensures
            r@ == empty_note(),
    {
        Note { title: String::new(), body: String::new() }
    }

    /// A note with the given title and body.
    pub fn from_parts(title: &str, body: &str) -> (r: Note)
        ensures
            r@ == (title@, body@),
    {
        Note { title: title.to_owned(), body: body.to_owned() }
    }

    /// An independent copy of this note.
    pub fn duplicate(&self) -> (r: Note)
        ensures
            r@ == self@,
    {
        Note { title: self.title.clone(), body: self.body.clone() }
    }
}

/// The map that a list of (key, note) entries denotes; a later entry wins.
pub open spec fn map_of(s: Seq<(Seq<char>, NoteView)>) -> Map<Seq<char>, NoteView>
    decreases s.len(),
{
    if s.len() == 0 {
        Map::empty()
    } else {
        map_of(s.drop_last()).insert(s.last().0, s.last().1)
    }
}

/// No key occurs twice.
pub open spec fn keys_unique(s: Seq<(Seq<char>, NoteView)>) -> bool {
    forall|i: int, j: int| 0 <= i < s.len() && 0 <= j < s.len() && i != j ==> s[i].0 != s[j].0
}

/// A map of notes after a `Created` intent: an empty note is added under
/// the key where none is, and the map is left alone otherwise.
pub open spec fn created(m: Map<Seq<char>, NoteView>, k: Seq<char>) -> Map<Seq<char>, NoteView> {
    if m.contains_key(k) {
        m
    } else {
        m.insert(k, empty_note())
    }
}

/// A map of notes after a `BodyChanged` intent: the note at the key is replaced.
pub open spec fn body_changed(
    m: Map<Seq<char>, NoteView>,
    k: Seq<char>,
    n: NoteView,
) -> Map<Seq<char>, NoteView> {
    m.insert(k, n)
}

/// A `Created` intent for a key that is already held changes nothing.
pub proof fn lemma_created_idempotent(m: Map<Seq<char>, NoteView>, k: Seq<char>)
    requires
        m.contains_key(k),
    ensures
        created(m, k) == m,
{
}

proof fn lemma_map_of_dom(s: Seq<(Seq<char>, NoteView)>, k: Seq<char>)
    ensures
        map_of(s).contains_key(k) <==> exists|i: int| 0 <= i < s.len() && s[i].0 == k,
    decreases s.len(),
{
    if s.len() > 0 {
        lemma_map_of_dom(s.drop_last(), k);
        if map_of(s.drop_last()).contains_key(k) {
            let i = choose|i: int| 0 <= i < s.drop_last().len() && s.drop_last()[i].0 == k;
            assert(s[i].0 == k);
        }
        if exists|i: int| 0 <= i < s.len() && s[i].0 == k {
            let i = choose|i: int| 0 <= i < s.len() && s[i].0 == k;
            if i < s.len() - 1 {
                assert(s.drop_last()[i].0 == k);
            }
        }
    }
}

proof fn lemma_map_of_index(s: Seq<(Seq<char>, NoteView)>, i: int)
    requires
        keys_unique(s),
        0 <= i < s.len(),
    ensures
        map_of(s).contains_key(s[i].0),
        map_of(s)[s[i].0] == s[i].1,
    decreases s.len(),
{
    if i < s.len() - 1 {
        assert(keys_unique(s.drop_last()));
        assert(s.drop_last()[i] == s[i]);
        lemma_map_of_index(s.drop_last(), i);
    }
}

proof fn lemma_map_of_update(s: Seq<(Seq<char>, NoteView)>, i: int, v: NoteView)
    requires
        keys_unique(s),
        0 <= i < s.len(),
    ensures
        map_of(s.update(i, (s[i].0, v))) == map_of(s).insert(s[i].0, v),
        keys_unique(s.update(i, (s[i].0, v))),
    decreases s.len(),
{
    let t = s.update(i, (s[i].0, v));
    if i == s.len() - 1 {
        assert(t.drop_last() == s.drop_last());
        assert(map_of(t) =~= map_of(s).insert(s[i].0, v));
    } else {
        assert(keys_unique(s.drop_last()));
        assert(t.drop_last() == s.drop_last().update(i, (s[i].0, v)));
        lemma_map_of_update(s.drop_last(), i, v);
        assert(s.last().0 != s[i].0);
        assert(map_of(t) =~= map_of(s).insert(s[i].0, v));
    }
}

/// All notes of a workspace, keyed by their path relative to its root.
#[derive(Clone, Debug)]
pub struct Model {
    entries: Vec<(String, Note)>,
}

impl View for Model {
    type V = Map<Seq<char>, NoteView>;

    closed spec fn view(&self) -> Map<Seq<char>, NoteView> {
        map_of(self.entry_views())
    }
}

/// The notes a fresh origin workspace starts with.
pub open spec fn seed_notes() -> Map<Seq<char>, NoteView> {
    map![
        "note_1.txt"@ => ("Example note 1"@, "Some text"@),
        "note_2.txt"@ => ("Example note 2"@, "Some text\nwith multiple lines"@),
    ]
}

impl Model {
    /// The model an origin starts with: the two example notes.
    pub fn new() -> (r: Model)
        ensures
            r.wf(),
            r@ == seed_notes(),
    {
        let mut m = Model::empty();
        m.set(String::from_str("note_1.txt"), Note::from_parts("Example note 1", "Some text"));
        m.set(
            String::from_str("note_2.txt"),
            Note::from_parts("Example note 2", "Some text\nwith multiple lines"),
        );
        proof {
            reveal_strlit("note_1.txt");
            reveal_strlit("note_2.txt");
        }
        assert(m@ =~= seed_notes());
        m
    }

    /// A key is held exactly when some entry carries it.
    pub proof fn lemma_dom(&self, k: Seq<char>)
        ensures
            self@.contains_key(k) <==> exists|i: int|
                0 <= i < self.entry_views().len() && self.entry_views()[i].0 == k,
    {
        lemma_map_of_dom(self.entry_views(), k);
    }

    /// The entries as mathematical values, in the order they are held.
    pub closed spec fn entry_views(&self) -> Seq<(Seq<char>, NoteView)> {
        self.entries@.map_values(|e: (String, Note)| (e.0@, e.1@))
    }

    /// Each key is held once.
    pub closed spec fn wf(&self) -> bool {
        keys_unique(self.entry_views())
    }

    /// A model without notes.
    pub fn empty() -> (r: Model)
        ensures
            r.wf(),
            r@ == Map::<Seq<char>, NoteView>::empty(),
            r.entry_views().len() == 0,
    {
        let r = Model { entries: Vec::new() };
        assert(r.entry_views() =~= Seq::empty());
        r
    }

    /// The number of notes.
    pub fn len(&self) -> (r: usize)
        requires
            self.wf(),
        ensures
            r == self.entry_views().len(),
            r == self@.len(),
    {
        proof {
            self.lemma_len();
        }
        self.entries.len()
    }

    proof fn lemma_len(&self)
        requires
            self.wf(),
        ensures
            self@.len() == self.entry_views().len(),
            self@.dom().finite(),
    {
        lemma_map_of_len(self.entry_views());
    }

    /// Where the key is held, if it is.
    fn find(&self, key: &String) -> (r: Option<usize>)
        ensures
            match r {
                Some(i) => i < self.entry_views().len() && self.entry_views()[i as int].0 == key@,
                None => forall|i: int|
                    0 <= i < self.entry_views().len() ==> self.entry_views()[i].0 != key@,
            },
    {
        let mut i: usize = 0;
        while i < self.entries.len()
            invariant
                i <= self.entries.len(),
                forall|j: int| 0 <= j < i ==> self.entry_views()[j].0 != key@,
            decreases self.entries.len() - i,
        {
            if self.entries[i].0 == *key {
                return Some(i);
            }
            i = i + 1;
        }
        None
    }

    /// Whether a note is held under the key.
    pub fn contains(&self, key: &String) -> (r: bool)
        requires
            self.wf(),
        ensures
            r == self@.contains_key(key@),
    {
        proof {
            lemma_map_of_dom(self.entry_views(), key@);
        }
        self.find(key).is_some()
    }

    /// The note held under the key, if any.
    pub fn get(&self, key: &String) -> (r: Option<&Note>)
        requires
            self.wf(),
        ensures
            match r {
                Some(n) => self@.contains_key(key@) && self@[key@] == n@,
                None => !self@.contains_key(key@),
            },
    {
        proof {
            lemma_map_of_dom(self.entry_views(), key@);
        }
        match self.find(key) {
            Some(i) => {
                proof {
                    lemma_map_of_index(self.entry_views(), i as int);
                }
                Some(&self.entries[i].1)
            },
            None => None,
        }
    }

    /// The key of the `i`-th entry.
    pub fn key_at(&self, i: usize) -> (r: &String)
        requires
            i < self.entry_views().len(),
        ensures
            r@ == self.entry_views()[i as int].0,
    {
        &self.entries[i].0
    }

    /// The note of the `i`-th entry.
    pub fn note_at(&self, i: usize) -> (r: &Note)
        requires
            self.wf(),
            i < self.entry_views().len(),
        ensures
            r@ == self.entry_views()[i as int].1,
            self@.contains_key(self.entry_views()[i as int].0),
            self@[self.entry_views()[i as int].0] == r@,
    {
        proof {
            lemma_map_of_index(self.entry_views(), i as int);
        }
        &self.entries[i].1
    }

    /// Puts the note under the key, replacing what was there.
    pub fn set(&mut self, key: String, note: Note)
        requires
            old(self).wf(),
        ensures
            final(self).wf(),
            final(self)@ == body_changed(old(self)@, key@, note@),
    {
        let ghost kv = key@;
        let ghost nv = note@;
        match self.find(&key) {
            Some(i) => {
                proof {
                    lemma_map_of_update(self.entry_views(), i as int, nv);
                }
                let ghost before = self.entry_views();
                self.entries.set(i, (key, note));
                assert(self.entry_views() =~= before.update(i as int, (before[i as int].0, nv)));
            },
            None => {
                let ghost before = self.entry_views();
                self.entries.push((key, note));
                assert(self.entry_views() =~= before.push((kv, nv)));
                assert(self.entry_views().drop_last() =~= before);
            },
        }
    }

    /// Makes sure a note is held under the key: an empty one is added when
    /// none is, and the model is left as it is otherwise.
    pub fn insert_default(&mut self, key: String)
        requires
            old(self).wf(),
        ensures
            final(self).wf(),
            final(self)@ == created(old(self)@, key@),
    {
        if !self.contains(&key) {
            self.set(key, Note::new());
        }
    }

    /// An independent copy of this model.
    pub fn duplicate(&self) -> (r: Model)
        requires
            self.wf(),
        ensures
            r.wf(),
            r@ == self@,
            r.entry_views() == self.entry_views(),
    {
        let mut entries: Vec<(String, Note)> = Vec::new();
        let mut i: usize = 0;
        while i < self.entries.len()
            invariant
                i <= self.entries.len(),
                entries@.len() == i,
                forall|j: int| 0 <= j < i ==> (#[trigger] entries@[j]).0@ == self.entries@[j].0@
                    && entries@[j].1@ == self.entries@[j].1@,
            decreases self.entries.len() - i,
        {
            let e = &self.entries[i];
            entries.push((e.0.clone(), e.1.duplicate()));
            i = i + 1;
        }
        let r = Model { entries };
        assert(r.entry_views() =~= self.entry_views());
        r
    }
}

proof fn lemma_map_of_len(s: Seq<(Seq<char>, NoteView)>)
    requires
        keys_unique(s),
    ensures
        map_of(s).dom().finite(),
        map_of(s).len() == s.len(),
    decreases s.len(),
{
    if s.len() > 0 {
        assert(keys_unique(s.drop_last()));
        lemma_map_of_len(s.drop_last());
        lemma_map_of_dom(s.drop_last(), s.last().0);
        if map_of(s.drop_last()).contains_key(s.last().0) {
            let i = choose|i: int| 0 <= i < s.drop_last().len() && s.drop_last()[i].0 == s.last().0;
            assert(s[i].0 == s[s.len() - 1].0);
        }
    }
}

} // verus!
