use vstd::prelude::*;
use crate::codec::{decode, encode, encoded, decoded, DecodeError};
use crate::model::{body_changed, created, Model, Note, NoteView};
use vstd::utf8::{decode_utf8, valid_utf8};

verus! {

/// Which side of the link a process plays.
#[derive(Clone, Copy, Debug, PartialEq, Eq, Structural)]
pub enum Role {
    /// Its directory is authoritative; every change is pushed to the peer.
    Origin,
    /// Its directory is overwritten from the snapshots the origin pushes.
    Mirror,
}

/// A filesystem change notification, by kind, as the directory watcher
/// reports it.
#[derive(Clone, Copy, Debug, PartialEq, Eq, Structural)]
pub enum FsEventKind {
    /// A file was read.
    Access,
    /// Something happened; the watcher does not say what.
    Any,
    /// A file was created.
    Create,
    /// A file was modified in an unspecified way.
    ModifyAny,
    /// A file's contents were modified.
    ModifyData,
    /// A file's metadata alone was modified.
    ModifyMetadata,
    /// A file was renamed.
    ModifyName,
    /// A file was modified in some other way.
    ModifyOther,
    /// An event of no known kind.
    Other,
    /// A file was removed.
    Remove,
}

/// What the watcher does with a notification.
#[derive(Clone, Copy, Debug, PartialEq, Eq, Structural)]
pub enum EventRoute {
    /// No intent comes of it.
    Ignore,
    /// A `Created` intent for each path.
    Created,
    /// Each path is read again and decoded into a `BodyChanged` intent.
    BodyChanged,
    /// Renames, removals and events of unknown kind are not supported.
    Unsupported,
}

/// How each kind of notification is routed.
pub open spec fn route_of(k: FsEventKind) -> EventRoute {
    match k {
        FsEventKind::Create => EventRoute::Created,
        FsEventKind::ModifyData => EventRoute::BodyChanged,
        FsEventKind::Access | FsEventKind::ModifyAny | FsEventKind::ModifyMetadata
        | FsEventKind::ModifyOther => EventRoute::Ignore,
        FsEventKind::Any | FsEventKind::ModifyName | FsEventKind::Other
        | FsEventKind::Remove => EventRoute::Unsupported,
    }
}

/// A normalized change in the watched directory.
#[derive(Clone, Debug)]
pub enum Intent {
    /// A file appeared under this relative path.
    Created(String),
    /// The file under this relative path now holds this note.
    BodyChanged(String, Note),
}

/// The relative path an intent is about.
pub open spec fn intent_key(i: Intent) -> Seq<char> {
    match i {
        Intent::Created(k) => k@,
        Intent::BodyChanged(k, _) => k@,
    }
}

/// A map of notes after an intent.
pub open spec fn after_intent(m: Map<Seq<char>, NoteView>, i: Intent) -> Map<Seq<char>, NoteView> {
    match i {
        Intent::Created(k) => created(m, k@),
        Intent::BodyChanged(k, n) => body_changed(m, k@, n@),
    }
}

/// Of two intents for one key, the later decides: a later `BodyChanged`
/// leaves its note under the key, and a later `Created` changes nothing.
pub proof fn lemma_last_write_wins(m: Map<Seq<char>, NoteView>, first: Intent, second: Intent)
    requires
        intent_key(first) == intent_key(second),
    ensures
        second matches Intent::BodyChanged(k, n) ==> after_intent(after_intent(m, first), second).contains_key(k@)
            && after_intent(after_intent(m, first), second)[k@] == n@,
        second is Created ==> after_intent(after_intent(m, first), second) == after_intent(m, first),
{
    let m1 = after_intent(m, first);
    assert(m1.contains_key(intent_key(first)));
}

/// Rewriting one workspace file with the given contents.
#[derive(Clone, Debug)]
pub struct FileWrite {
    /// The file's path relative to the workspace root.
    pub key: String,
    /// The full new contents.
    pub contents: String,
}

/// The writes that make a workspace show a map of notes: one per note,
/// each with the note's file text, each key once.
pub open spec fn writes_for(w: Seq<FileWrite>, m: Map<Seq<char>, NoteView>) -> bool {
    &&& w.len() == m.len()
    &&& forall|i: int|
        0 <= i < w.len() ==> m.contains_key(#[trigger] w[i].key@) && w[i].contents@ == encoded(
            m[w[i].key@],
        )
    &&& forall|k: Seq<char>| m.contains_key(k) ==> exists|i: int| 0 <= i < w.len() && #[trigger] w[i].key@ == k
}

/// The file writes that bring a workspace in line with a model: every note
/// of the model, encoded, under its key. Files the model does not name are
/// left alone.
pub fn update_workspace(model: &Model) -> (r: Vec<FileWrite>)
    requires
        model.wf(),
    ensures
        writes_for(r@, model@),
{
    let n = model.len();
    let mut writes: Vec<FileWrite> = Vec::new();
    let mut i: usize = 0;
    while i < n
        invariant
            model.wf(),
            n == model.entry_views().len(),
            n == model@.len(),
            i <= n,
            writes@.len() == i,
            forall|j: int|
                0 <= j < i ==> (#[trigger] writes@[j]).key@ == model.entry_views()[j].0
                    && model@.contains_key(writes@[j].key@) && writes@[j].contents@ == encoded(
                    model@[writes@[j].key@],
                ),
        decreases n - i,
    {
        let key = model.key_at(i);
        let note = model.note_at(i);
        writes.push(FileWrite { key: key.clone(), contents: encode(note) });
        i = i + 1;
    }
    assert forall|k: Seq<char>| model@.contains_key(k) implies exists|i: int|
        0 <= i < writes@.len() && #[trigger] writes@[i].key@ == k by {
        model.lemma_dom(k);
        let j = choose|j: int| 0 <= j < model.entry_views().len() && model.entry_views()[j].0 == k;
        assert(writes@[j].key@ == k);
    }
    writes
}

/// The replication engine of one side: the model it owns and, on a mirror,
/// the copy that reflects local edits.
pub struct Application {
    /// Which side this is.
    pub role: Role,
    /// The authoritative model: the origin's own, or the mirror's last snapshot.
    pub model: Model,
    /// On a mirror, the model as local edits left it; never sent anywhere.
    /// On an origin it stays empty.
    pub local: Model,
}

impl Application {
    /// Both models are well formed.
    pub open spec fn wf(&self) -> bool {
        self.model.wf() && self.local.wf()
    }

    /// An origin holding the example notes, ready to push them.
    pub fn new_origin() -> (r: Application)
        ensures
            r.wf(),
            r.role == Role::Origin,
            r.model@ == crate::model::seed_notes(),
            r.local@.len() == 0,
    {
        Application { role: Role::Origin, model: Model::new(), local: Model::empty() }
    }

    /// A mirror whose models are the snapshot its bootstrap pulled.
    pub fn new_mirror(snapshot: Model) -> (r: Application)
        requires
            snapshot.wf(),
        ensures
            r.wf(),
            r.role == Role::Mirror,
            r.model@ == snapshot@,
            r.local@ == snapshot@,
    {
        let local = snapshot.duplicate();
        Application { role: Role::Mirror, model: snapshot, local }
    }

    /// How a notification of the given kind is handled.
    pub fn route_notify_event(kind: FsEventKind) -> (r: EventRoute)
        ensures
            r == route_of(kind),
    {
        match kind {
            FsEventKind::Create => EventRoute::Created,
            FsEventKind::ModifyData => EventRoute::BodyChanged,
            FsEventKind::Access => EventRoute::Ignore,
            FsEventKind::ModifyAny => EventRoute::Ignore,
            FsEventKind::ModifyMetadata => EventRoute::Ignore,
            FsEventKind::ModifyOther => EventRoute::Ignore,
            FsEventKind::Any => EventRoute::Unsupported,
            FsEventKind::ModifyName => EventRoute::Unsupported,
            FsEventKind::Other => EventRoute::Unsupported,
            FsEventKind::Remove => EventRoute::Unsupported,
        }
    }

    /// Applies a watcher intent. An origin changes its model and hands back
    /// the snapshot to push; a mirror changes only its local copy and pushes
    /// nothing.
    pub fn apply_intent(&mut self, intent: Intent) -> (r: Option<Model>)
        requires
            old(self).wf(),
        ensures
            final(self).wf(),
            final(self).role == old(self).role,
            old(self).role == Role::Origin ==> {
                &&& final(self).model@ == after_intent(old(self).model@, intent)
                &&& final(self).local@ == old(self).local@
                &&& r matches Some(s) && s.wf() && s@ == final(self).model@
            },
            old(self).role == Role::Mirror ==> {
                &&& final(self).model@ == old(self).model@
                &&& final(self).local@ == after_intent(old(self).local@, intent)
                &&& r is None
            },
    {
        match self.role {
            Role::Origin => {
                match intent {
                    Intent::Created(k) => self.model.insert_default(k),
                    Intent::BodyChanged(k, n) => self.model.set(k, n),
                }
                Some(self.model.duplicate())
            },
            Role::Mirror => {
                match intent {
                    Intent::Created(k) => self.local.insert_default(k),
                    Intent::BodyChanged(k, n) => self.local.set(k, n),
                }
                None
            },
        }
    }

    /// A file appeared under the relative path `key`.
    pub fn on_create_file(&mut self, key: String) -> (r: Option<Model>)
        requires
            old(self).wf(),
        ensures
            final(self).wf(),
            final(self).role == old(self).role,
            old(self).role == Role::Origin ==> {
                &&& final(self).model@ == created(old(self).model@, key@)
                &&& final(self).local@ == old(self).local@
                &&& r matches Some(s) && s.wf() && s@ == final(self).model@
            },
            old(self).role == Role::Mirror ==> {
                &&& final(self).model@ == old(self).model@
                &&& final(self).local@ == created(old(self).local@, key@)
                &&& r is None
            },
    {
        self.apply_intent(Intent::Created(key))
    }

    /// The file under the relative path `key` was written and now holds
    /// `bytes`. Where they are not text the change is dropped and the error
    /// returned; otherwise the decoded note is applied as a `BodyChanged`.
    pub fn on_modify_file_data(&mut self, key: String, bytes: &Vec<u8>) -> (r: Result<
        Option<Model>,
        DecodeError,
    >)
        requires
            old(self).wf(),
        ensures
            final(self).wf(),
            final(self).role == old(self).role,
            r is Err <==> !valid_utf8(bytes@),
            r is Err ==> final(self).model@ == old(self).model@ && final(self).local@ == old(
                self,
            ).local@,
            r is Ok && old(self).role == Role::Origin ==> {
                &&& final(self).model@ == body_changed(
                    old(self).model@,
                    key@,
                    decoded(decode_utf8(bytes@)),
                )
                &&& final(self).local@ == old(self).local@
                &&& r matches Ok(Some(s)) && s.wf() && s@ == final(self).model@
            },
            r is Ok && old(self).role == Role::Mirror ==> {
                &&& final(self).model@ == old(self).model@
                &&& final(self).local@ == body_changed(
                    old(self).local@,
                    key@,
                    decoded(decode_utf8(bytes@)),
                )
                &&& r matches Ok(None)
            },
    {
        match decode(bytes) {
            Ok(note) => Ok(self.apply_intent(Intent::BodyChanged(key, note))),
            Err(e) => Err(e),
        }
    }

    /// One step of the mirror's pull sequence: `doc` is the snapshot read
    /// from the link, or `None` where the document was malformed. A snapshot
    /// replaces the mirror's model and yields the file writes that bring the
    /// workspace in line; a malformed document yields nothing and changes
    /// nothing. An origin does not consume pulled snapshots.
    pub fn on_pulled(&mut self, doc: Option<Model>) -> (r: Option<Vec<FileWrite>>)
        requires
            old(self).wf(),
            doc matches Some(m) ==> m.wf(),
        ensures
            final(self).wf(),
            final(self).role == old(self).role,
            final(self).local@ == old(self).local@,
            (old(self).role == Role::Mirror && doc is Some) <==> r is Some,
            r is None ==> final(self).model@ == old(self).model@,
            r matches Some(w) ==> doc matches Some(m) && final(self).model@ == m@ && writes_for(
                w@,
                m@,
            ),
    {
        match self.role {
            Role::Origin => None,
            Role::Mirror => match doc {
                Some(m) => {
                    let writes = update_workspace(&m);
                    self.model = m;
                    Some(writes)
                },
                None => None,
            },
        }
    }

    /// The file writes that lay the workspace out from the model at start-up.
    pub fn init_workspace(&self) -> (r: Vec<FileWrite>)
        requires
            self.wf(),
        ensures
            writes_for(r@, self.model@),
    {
        update_workspace(&self.model)
    }
}

} // verus!
