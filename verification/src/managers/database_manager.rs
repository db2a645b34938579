use vstd::prelude::*;
use vstd::string::StringExecFns;
use crate::managers::assoc::{find_key, lemma_sorted_unique, pairs_map, pairs_sorted};
use crate::managers::error::ServerError;
use crate::managers::json::{
    compatible, field_pairs, lemma_field_absent, lemma_field_at, lemma_field_changed,
    lemma_field_pairs, lemma_field_push, lemma_field_remove, lemma_field_update,
    lemma_fields_len, Document,
    DocumentView,
};
use crate::managers::json_text::{json_parse, json_text, to_value_from_str};
use crate::managers::service_manager::Transport;
use crate::managers::text::{
    contains, equal, lemma_split_flat, occurs_in, split, split_spec, text_before, texts,
};

verus! {

/// What inserting `value` at `path` below `d` gives: the new value of `d`,
/// or the reason why nothing is inserted.
///
/// Every segment but the last names a field that exists in an object; the
/// last names the field that receives `value`, which it may replace only a
/// value of the same tag.
pub open spec fn insert_at(d: DocumentView, path: Seq<Seq<char>>, value: DocumentView) -> Result<
    DocumentView,
    ServerError,
>
    decreases path.len(),
{
    if path.len() == 0 {
        Err(ServerError::FAILED_READ)
    } else {
        match d {
            DocumentView::Object(fields) => {
                let key = path[0];
                if path.len() == 1 {
                    if fields.contains_key(key) && !compatible(fields[key], value) {
                        Err(ServerError::INCOMPATIBLE_DATA_TYPES)
                    } else {
                        Ok(DocumentView::Object(fields.insert(key, value)))
                    }
                } else if !fields.contains_key(key) {
                    Err(ServerError::INVALID_ARG)
                } else {
                    match insert_at(fields[key], path.drop_first(), value) {
                        Ok(child) => Ok(DocumentView::Object(fields.insert(key, child))),
                        Err(e) => Err(e),
                    }
                }
            },
            _ => Err(ServerError::INVALID_JSON),
        }
    }
}

/// Inserts `val` at `path` below `map`, which is changed only on success.
pub fn rec_ins(path: &[String], map: &mut Document, val: Document) -> (r: Result<(), ServerError>)
    requires
        old(map).wf(),
        val.wf(),
    ensures
        final(map).wf(),
        match insert_at(old(map)@, texts(path@), val@) {
            Ok(after) => r is Ok && final(map)@ == after,
            Err(e) => r == Err::<(), ServerError>(e) && final(map)@ == old(map)@,
        },
    decreases path@.len(),
{
    if path.len() == 0 {
        return Err(ServerError::FAILED_READ);
    }
    match map {
        Document::Object(fields) => {
            let ghost before = fields@;
            match find_key(fields, &path[0]) {
                Some(i) => {
                    proof {
                        lemma_field_at(before, i as int);
                    }
                    if path.len() > 1 {
                        let rest = &path[1..path.len()];
                        assert(texts(rest@) =~= texts(path@).drop_first());
                        let child = &mut fields[i].1;
                        let r = rec_ins(rest, child, val);
                        proof {
                            lemma_field_changed(before, fields@, i as int);
                        }
                        r
                    } else {
                        if fields[i].1.accepts(&val) {
                            proof {
                                lemma_field_update(before, i as int, val);
                            }
                            fields[i].1 = val;
                            Ok(())
                        } else {
                            Err(ServerError::INCOMPATIBLE_DATA_TYPES)
                        }
                    }
                },
                None => {
                    proof {
                        lemma_field_absent(before, path@[0]@);
                    }
                    if path.len() > 1 {
                        Err(ServerError::INVALID_ARG)
                    } else {
                        let key = path[0].clone();
                        proof {
                            lemma_field_push(before, key, val);
                        }
                        fields.push((key, val));
                        Ok(())
                    }
                },
            }
        },
        _ => Err(ServerError::INVALID_JSON),
    }
}

/// What a lookup of `path` below `d` finds: the value at the end of the
/// path, `None` where the last segment names no field, or the reason why the
/// path cannot be followed.
///
/// Every segment but the last must name a field of an object.
pub open spec fn lookup_at(d: DocumentView, path: Seq<Seq<char>>) -> Result<
    Option<DocumentView>,
    ServerError,
>
    decreases path.len(),
{
    if path.len() == 0 {
        Err(ServerError::INVALID_ARG)
    } else if path.len() == 1 {
        Ok(d.field(path[0]))
    } else {
        match d.field(path[0]) {
            Some(child) => lookup_at(child, path.drop_first()),
            None => Err(ServerError::INVALID_JSON),
        }
    }
}

/// What removing the field at the end of `path` below `d` gives: the new
/// value of `d` and the value removed, `None` where the last segment names no
/// field, or the reason why the path cannot be followed.
pub open spec fn remove_at(d: DocumentView, path: Seq<Seq<char>>) -> Result<
    (DocumentView, Option<DocumentView>),
    ServerError,
>
    decreases path.len(),
{
    if path.len() == 0 {
        Err(ServerError::INVALID_ARG)
    } else if path.len() == 1 {
        match d.field(path[0]) {
            Some(value) => Ok((DocumentView::Object(d->Object_0.remove(path[0])), Some(value))),
            None => Ok((d, None)),
        }
    } else {
        match d.field(path[0]) {
            Some(child) => match remove_at(child, path.drop_first()) {
                Ok((after, removed)) => Ok(
                    (DocumentView::Object(d->Object_0.insert(path[0], after)), removed),
                ),
                Err(e) => Err(e),
            },
            None => Err(ServerError::INVALID_JSON),
        }
    }
}

/// The text that answers a lookup: the value as JSON, `null` where nothing
/// was found.
pub open spec fn found_text(found: Option<DocumentView>) -> Seq<char> {
    match found {
        Some(value) => json_text(value),
        None => json_text(DocumentView::Null),
    }
}

/// The text that answers a removal: the removed value as JSON, or the words
/// `NOT_FOUND` where there was nothing to remove.
pub open spec fn removed_text(removed: Option<DocumentView>) -> Seq<char> {
    match removed {
        Some(value) => json_text(value),
        None => "NOT_FOUND"@,
    }
}

/// Looks `path` up below `map` and returns what it finds as JSON text.
pub fn rec_get(path: &[String], map: &Document) -> (r: Result<String, ServerError>)
    requires
        map.wf(),
    ensures
        match lookup_at(map@, texts(path@)) {
            Ok(found) => r is Ok && r->Ok_0@ == found_text(found),
            Err(e) => r == Err::<String, ServerError>(e),
        },
    decreases path@.len(),
{
    if path.len() == 0 {
        return Err(ServerError::INVALID_ARG);
    }
    let found = map.get(&path[0]);
    if path.len() > 1 {
        match found {
            Some(child) => {
                let rest = &path[1..path.len()];
                assert(texts(rest@) =~= texts(path@).drop_first());
                rec_get(rest, child)
            },
            None => Err(ServerError::INVALID_JSON),
        }
    } else {
        match found {
            Some(value) => Ok(value.to_string()),
            None => Ok(Document::Null.to_string()),
        }
    }
}

/// Removes the field at the end of `path` below `map` and returns the removed
/// value as JSON text, or `NOT_FOUND` where the field does not exist. `map` is
/// changed only where a field is removed.
pub fn rec_del(path: &[String], map: &mut Document) -> (r: Result<String, ServerError>)
    requires
        old(map).wf(),
    ensures
        final(map).wf(),
        match remove_at(old(map)@, texts(path@)) {
            Ok((after, removed)) => r is Ok && r->Ok_0@ == removed_text(removed) && final(map)@
                == after,
            Err(e) => r == Err::<String, ServerError>(e) && final(map)@ == old(map)@,
        },
    decreases path@.len(),
{
    if path.len() == 0 {
        return Err(ServerError::INVALID_ARG);
    }
    match map {
        Document::Object(fields) => {
            let ghost before = fields@;
            match find_key(fields, &path[0]) {
                Some(i) => {
                    proof {
                        lemma_field_at(before, i as int);
                    }
                    if path.len() > 1 {
                        let rest = &path[1..path.len()];
                        assert(texts(rest@) =~= texts(path@).drop_first());
                        let child = &mut fields[i].1;
                        let r = rec_del(rest, child);
                        proof {
                            lemma_field_changed(before, fields@, i as int);
                        }
                        r
                    } else {
                        proof {
                            lemma_field_remove(before, i as int);
                        }
                        let removed = fields.remove(i);
                        assert forall|j: int| 0 <= j < fields@.len() implies (
                        #[trigger] fields@[j]).1.wf() by {
                            assert(fields@[j] == before[if j < i {
                                j
                            } else {
                                j + 1
                            }]);
                        }
                        Ok(removed.1.to_string())
                    }
                },
                None => {
                    proof {
                        lemma_field_absent(before, path@[0]@);
                    }
                    if path.len() > 1 {
                        Err(ServerError::INVALID_JSON)
                    } else {
                        Ok(String::from_str("NOT_FOUND"))
                    }
                },
            }
        },
        _ => {
            if path.len() > 1 {
                Err(ServerError::INVALID_JSON)
            } else {
                Ok(String::from_str("NOT_FOUND"))
            }
        },
    }
}

/// The state of the store's file binding: no file, or the file at a path.
#[derive(Debug)]
pub enum FileManager {
    Closed,
    Open(String),
}

/// The document store: a map from top-level keys to documents, and the file
/// it is bound to, if any.
#[derive(Debug)]
pub struct DataBaseManager {
    file: FileManager,
    store: Document,
}

/// What a store holds: its documents by top-level key.
pub type StoreView = Map<Seq<char>, DocumentView>;

/// The mathematical state of a [`DataBaseManager`].
pub struct DataBaseView {
    /// The documents by top-level key.
    pub store: StoreView,
    /// The path of the bound file, if a file is bound.
    pub file: Option<Seq<char>>,
}

/// The store after `value` is inserted under `key`, or the reason why the
/// store stays as it is.
///
/// A key without a `.` names a top-level entry: a new entry is added, an
/// existing one is replaced only by a value of the same tag. A key with a `.`
/// is a path: its first segment names an existing top-level entry, and the
/// rest is followed below it as [`insert_at`] says.
pub open spec fn store_insert(store: StoreView, key: Seq<char>, value: DocumentView) -> Result<
    StoreView,
    ServerError,
> {
    if key.contains('.') {
        let path = split_spec(key, '.');
        if !store.contains_key(path[0]) {
            Err(ServerError::MISSING_DATA)
        } else {
            match insert_at(store[path[0]], path.drop_first(), value) {
                Ok(child) => Ok(store.insert(path[0], child)),
                Err(e) => Err(e),
            }
        }
    } else if store.contains_key(key) && !compatible(store[key], value) {
        Err(ServerError::INCOMPATIBLE_DATA_TYPES)
    } else {
        Ok(store.insert(key, value))
    }
}

/// The answer to a fetch of `key`: the value as JSON text, `null` where a
/// top-level key or the last field of a path is absent, or the reason why a
/// path cannot be followed.
pub open spec fn store_fetch(store: StoreView, key: Seq<char>) -> Result<Seq<char>, ServerError> {
    if key.contains('.') {
        let path = split_spec(key, '.');
        if !store.contains_key(path[0]) {
            Err(ServerError::MISSING_DATA)
        } else {
            match lookup_at(store[path[0]], path.drop_first()) {
                Ok(found) => Ok(found_text(found)),
                Err(e) => Err(e),
            }
        }
    } else if store.contains_key(key) {
        Ok(json_text(store[key]))
    } else {
        Ok(json_text(DocumentView::Null))
    }
}

/// The store after the entry or field that `key` names is deleted, with the
/// answer: the deleted value as JSON text, or `NOT_FOUND` where the last
/// field of a path is absent. An absent top-level key, and a path that cannot
/// be followed, are errors.
pub open spec fn store_delete(store: StoreView, key: Seq<char>) -> Result<
    (StoreView, Seq<char>),
    ServerError,
> {
    if key.contains('.') {
        let path = split_spec(key, '.');
        if !store.contains_key(path[0]) {
            Err(ServerError::MISSING_DATA)
        } else {
            match remove_at(store[path[0]], path.drop_first()) {
                Ok((child, removed)) => Ok((store.insert(path[0], child), removed_text(removed))),
                Err(e) => Err(e),
            }
        }
    } else if store.contains_key(key) {
        Ok((store.remove(key), json_text(store[key])))
    } else {
        Err(ServerError::INVALID_DATA)
    }
}

/// The store after the entries are inserted one after the other, in order,
/// each as [`store_insert`] says. An entry that cannot be inserted is passed
/// over.
pub open spec fn store_merge(store: StoreView, entries: Seq<(Seq<char>, DocumentView)>) -> StoreView
    decreases entries.len(),
{
    if entries.len() == 0 {
        store
    } else {
        let before = store_merge(store, entries.drop_last());
        match store_insert(before, entries.last().0, entries.last().1) {
            Ok(after) => after,
            Err(_) => before,
        }
    }
}

/// The members of an object in the order of their keys.
pub open spec fn members_of(object: Map<Seq<char>, DocumentView>) -> Seq<
    (Seq<char>, DocumentView),
> {
    choose|members: Seq<(Seq<char>, DocumentView)>|
        pairs_sorted(members) && pairs_map(members) == object
}

/// What loading a file's content leaves in the store, or the reason why the
/// load fails. `contents` is `None` where the file could not be read as text.
///
/// A file has to be bound (`INVALID_FILE`) and its content has to be a JSON
/// object (`INVALID_JSON`). The members of the object are merged into the
/// store in the order of their keys, as [`store_merge`] says.
pub open spec fn store_load(state: DataBaseView, contents: Option<Seq<char>>) -> Result<
    StoreView,
    ServerError,
> {
    if state.file is None {
        Err(ServerError::INVALID_FILE)
    } else if contents is None {
        Err(ServerError::INVALID_JSON)
    } else {
        match json_parse(contents->Some_0) {
            Some(DocumentView::Object(object)) => Ok(
                store_merge(state.store, members_of(object)),
            ),
            _ => Err(ServerError::INVALID_JSON),
        }
    }
}

/// The directory part of a path that was split at `/`: every piece that does
/// not hold `.json`, each followed by `/`.
pub open spec fn directory_of(pieces: Seq<Seq<char>>) -> Seq<char>
    decreases pieces.len(),
{
    if pieces.len() == 0 {
        Seq::empty()
    } else if occurs_in(".json"@, pieces.last()) {
        directory_of(pieces.drop_last())
    } else {
        directory_of(pieces.drop_last()) + pieces.last() + "/"@
    }
}

/// How a file is to be bound: the path to open, and the directory to create
/// first if the file has to be created.
#[derive(Debug)]
pub struct OpenPlan {
    pub path: String,
    pub directory: Option<String>,
}

/// What binding the file at `path` takes: the directory to create before the
/// file, if any, or `INVALID_FILE` where the path does not hold `.json`.
pub open spec fn open_plan(path: Seq<char>) -> Result<Option<Seq<char>>, ServerError> {
    if !occurs_in(".json"@, path) {
        Err(ServerError::INVALID_FILE)
    } else {
        let directory = directory_of(split_spec(path, '/'));
        if directory.len() == 0 || directory == "./"@ {
            Ok(None)
        } else {
            Ok(Some(directory))
        }
    }
}

/// What the store asks of its caller in answer to a message.
#[derive(Debug)]
pub enum Request {
    /// Nothing: this is the answer to the message.
    Answer(Result<String, ServerError>),
    /// To open the file at `path` for reading and writing or, where it does
    /// not exist, to create `directory` if one is given and then the file; and
    /// to report the outcome to [`DataBaseManager::opened`].
    Open { path: String, directory: Option<String> },
    /// To read the bound file and hand its text to
    /// [`DataBaseManager::loaded`].
    Load,
    /// To replace the content of the bound file by this text and report the
    /// outcome to [`DataBaseManager::saved`].
    Save(String),
}

/// The mathematical value of a [`Request`].
pub enum RequestView {
    Answer(Result<Seq<char>, ServerError>),
    Open { path: Seq<char>, directory: Option<Seq<char>> },
    Load,
    Save(Seq<char>),
}

impl Request {
    pub open spec fn view(&self) -> RequestView {
        match self {
            Request::Answer(Ok(text)) => RequestView::Answer(Ok(text@)),
            Request::Answer(Err(e)) => RequestView::Answer(Err(*e)),
            Request::Open { path, directory } => RequestView::Open {
                path: path@,
                directory: match directory {
                    Some(d) => Some(d@),
                    None => None,
                },
            },
            Request::Load => RequestView::Load,
            Request::Save(text) => RequestView::Save(text@),
        }
    }
}

/// Argument `i` of a command, or the word `Error` where the command has no
/// such argument.
pub open spec fn argument(tokens: Seq<Seq<char>>, i: int) -> Seq<char> {
    if 0 <= i < tokens.len() {
        tokens[i]
    } else {
        "Error"@
    }
}

/// The store's protocol: what a message, split at its blanks into a verb and
/// its arguments, does to the store, and what the store asks or answers.
pub open spec fn respond(state: DataBaseView, message: Seq<char>) -> (DataBaseView, RequestView) {
    let tokens = split_spec(message, ' ');
    let verb = tokens[0];
    let first = argument(tokens, 1);
    let second = argument(tokens, 2);
    if verb == "NEW"@ {
        (state, RequestView::Answer(Ok("New connection to this db"@)))
    } else if verb == "OPEN"@ {
        match open_plan(first) {
            Ok(directory) => (state, RequestView::Open { path: first, directory }),
            Err(e) => (state, RequestView::Answer(Err(e))),
        }
    } else if verb == "LOAD"@ {
        if state.file is Some {
            (state, RequestView::Load)
        } else {
            (
                state,
                RequestView::Answer(
                    Ok("There is no file to load from, please open one with OPEN"@),
                ),
            )
        }
    } else if verb == "FND"@ {
        (state, RequestView::Answer(store_fetch(state.store, first)))
    } else if verb == "INS"@ {
        match json_parse(second) {
            Some(value) => match store_insert(state.store, first, value) {
                Ok(after) => (
                    DataBaseView { store: after, file: state.file },
                    RequestView::Answer(Ok(second)),
                ),
                Err(e) => (state, RequestView::Answer(Err(e))),
            },
            None => (state, RequestView::Answer(Err(ServerError::FAILED_READ))),
        }
    } else if verb == "DEL"@ {
        match store_delete(state.store, first) {
            Ok((after, text)) => (
                DataBaseView { store: after, file: state.file },
                RequestView::Answer(Ok(text)),
            ),
            Err(e) => (state, RequestView::Answer(Err(e))),
        }
    } else if verb == "SAVE"@ {
        if state.file is Some {
            (state, RequestView::Save(json_text(DocumentView::Object(state.store))))
        } else {
            (state, RequestView::Answer(Ok("No file open to save to"@)))
        }
    } else {
        (state, RequestView::Answer(Err(ServerError::INVALID_ARG)))
    }
}

/// Returns argument `i` of a command, or the word `Error` where the command
/// has no such argument.
pub fn argument_of(tokens: &Vec<String>, i: usize) -> (word: &str)
    ensures
        word@ == argument(texts(tokens@), i as int),
{
    if i < tokens.len() {
        tokens[i].as_str()
    } else {
        "Error"
    }
}

impl DataBaseManager {
    /// The store holds an object in which, at any depth, no key occurs twice.
    pub closed spec fn wf(&self) -> bool {
        self.store is Object && self.store.wf()
    }

    pub closed spec fn view(&self) -> DataBaseView {
        DataBaseView {
            store: self.store@->Object_0,
            file: match self.file {
                FileManager::Closed => None,
                FileManager::Open(path) => Some(path@),
            },
        }
    }

    /// Returns an empty store with no file bound.
    pub fn new() -> (manager: DataBaseManager)
        ensures
            manager.wf(),
            manager@.store == Map::<Seq<char>, DocumentView>::empty(),
            manager@.file is None,
    {
        DataBaseManager { file: FileManager::Closed, store: Document::Object(Vec::new()) }
    }

    /// Returns the number of top-level entries.
    pub fn store_size(&self) -> (n: usize)
        requires
            self.wf(),
        ensures
            n == self@.store.len(),
    {
        match &self.store {
            Document::Object(fields) => {
                proof {
                    lemma_fields_len(fields@);
                }
                fields.len()
            },
            _ => 0,
        }
    }

    /// Inserts `v` under `k`. The store changes only on success.
    pub fn insert_to_store(&mut self, k: String, v: Document) -> (r: Result<(), ServerError>)
        requires
            old(self).wf(),
            v.wf(),
        ensures
            final(self).wf(),
            final(self)@.file == old(self)@.file,
            match store_insert(old(self)@.store, k@, v@) {
                Ok(after) => r is Ok && final(self)@.store == after,
                Err(e) => r == Err::<(), ServerError>(e) && final(self)@.store == old(self)@.store,
            },
    {
        let path = split(k.as_str(), '.');
        proof {
            lemma_split_flat(k@, '.');
        }
        if path.len() > 1 && self.store.get(&path[0]).is_none() {
            return Err(ServerError::MISSING_DATA);
        }
        rec_ins(path.as_slice(), &mut self.store, v)
    }

    /// Answers a fetch of `key`.
    pub fn fetch(&self, key: &str) -> (r: Result<String, ServerError>)
        requires
            self.wf(),
        ensures
            match store_fetch(self@.store, key@) {
                Ok(text) => r is Ok && r->Ok_0@ == text,
                Err(e) => r == Err::<String, ServerError>(e),
            },
    {
        let path = split(key, '.');
        proof {
            lemma_split_flat(key@, '.');
        }
        if path.len() > 1 && self.store.get(&path[0]).is_none() {
            return Err(ServerError::MISSING_DATA);
        }
        rec_get(path.as_slice(), &self.store)
    }

    /// Deletes what `key` names and answers with the deleted value. The store
    /// changes only where something is deleted.
    pub fn delete(&mut self, key: &str) -> (r: Result<String, ServerError>)
        requires
            old(self).wf(),
        ensures
            final(self).wf(),
            final(self)@.file == old(self)@.file,
            match store_delete(old(self)@.store, key@) {
                Ok((after, text)) => r is Ok && r->Ok_0@ == text && final(self)@.store == after,
                Err(e) => r == Err::<String, ServerError>(e) && final(self)@.store == old(
                    self,
                )@.store,
            },
    {
        let path = split(key, '.');
        proof {
            lemma_split_flat(key@, '.');
        }
        if self.store.get(&path[0]).is_none() {
            return if path.len() > 1 {
                Err(ServerError::MISSING_DATA)
            } else {
                Err(ServerError::INVALID_DATA)
            };
        }
        rec_del(path.as_slice(), &mut self.store)
    }

    /// Plans the binding of the file at `path`: checks the path and works out
    /// the directory that has to exist before the file can be created.
    pub fn open(&self, path: &str) -> (r: Result<OpenPlan, ServerError>)
        ensures
            match open_plan(path@) {
                Ok(directory) => r is Ok && r->Ok_0.path@ == path@ && (match directory {
                    Some(d) => r->Ok_0.directory is Some && r->Ok_0.directory->Some_0@ == d,
                    None => r->Ok_0.directory is None,
                }),
                Err(e) => r is Err && r->Err_0 == e,
            },
    {
        if !contains(path, ".json") {
            return Err(ServerError::INVALID_FILE);
        }
        let pieces = split(path, '/');
        let mut directory = String::new();
        let mut i: usize = 0;
        while i < pieces.len()
            invariant
                i <= pieces@.len(),
                directory@ == directory_of(texts(pieces@).take(i as int)),
            decreases pieces@.len() - i,
        {
            let ghost done = texts(pieces@).take(i as int);
            let ghost next = texts(pieces@).take(i + 1);
            assert(next.drop_last() =~= done);
            if !contains(pieces[i].as_str(), ".json") {
                directory.append(pieces[i].as_str());
                directory.append("/");
            }
            i += 1;
        }
        assert(texts(pieces@).take(pieces@.len() as int) =~= texts(pieces@));
        let directory = if directory.as_str().is_empty() || equal(directory.as_str(), "./") {
            None
        } else {
            Some(directory)
        };
        Ok(OpenPlan { path: path.to_owned(), directory })
    }

    /// Takes the outcome of opening or creating the file at `path`: binds
    /// the file where that worked, and answers the `OPEN` command.
    pub fn opened(&mut self, path: &str, success: bool) -> (r: Result<String, ServerError>)
        requires
            old(self).wf(),
        ensures
            final(self).wf(),
            final(self)@.store == old(self)@.store,
            success ==> r is Ok && r->Ok_0@ == "opened file "@ + path@ && final(self)@.file
                == Some(path@),
            !success ==> r == Err::<String, ServerError>(ServerError::INVALID_FILE),
            !success ==> final(self)@.file == old(self)@.file,
    {
        if success {
            self.file = FileManager::Open(path.to_owned());
            Ok(String::from_str("opened file ").concat(path))
        } else {
            Err(ServerError::INVALID_FILE)
        }
    }

    /// Inserts the fields into the store one after the other, passing over
    /// those that cannot be inserted, and returns how many fields it has
    /// not looked at: none.
    pub fn merge(&mut self, fields: Vec<(String, Document)>) -> (left: usize)
        requires
            old(self).wf(),
            forall|i: int| 0 <= i < fields@.len() ==> (#[trigger] fields@[i]).1.wf(),
        ensures
            final(self).wf(),
            final(self)@.file == old(self)@.file,
            final(self)@.store == store_merge(old(self)@.store, field_pairs(fields@)),
            left == 0,
    {
        let ghost all = fields@;
        let ghost start = self@;
        let total = fields.len();
        let mut seen: usize = 0;
        proof {
            lemma_field_pairs(all);
        }
        for field in it: fields
            invariant
                it.seq() == all,
                total == all.len(),
                seen == it.index(),
                forall|i: int| 0 <= i < all.len() ==> (#[trigger] all[i]).1.wf(),
                self.wf(),
                self@.file == start.file,
                self@.store == store_merge(start.store, field_pairs(all).take(it.index() as int)),
        {
            let ghost done = field_pairs(all).take(it.index() as int);
            let ghost next = field_pairs(all).take(it.index() + 1);
            proof {
                lemma_field_pairs(all);
                assert(next.drop_last() =~= done);
            }
            let (key, value) = field;
            let _ = self.insert_to_store(key, value);
            seen += 1;
        }
        proof {
            lemma_field_pairs(all);
            assert(field_pairs(all).take(all.len() as int) =~= field_pairs(all));
        }
        total - seen
    }

    /// Merges the content of the bound file, given as text, into the store,
    /// as [`store_load`] says. `contents` is `None` where the file could not
    /// be read as text. A member that cannot be inserted is passed over and
    /// does not fail the load; the store changes only where the load
    /// succeeds.
    pub fn load_from_file(&mut self, contents: Option<&str>) -> (r: Result<(), ServerError>)
        requires
            old(self).wf(),
        ensures
            final(self).wf(),
            final(self)@.file == old(self)@.file,
            match store_load(
                old(self)@,
                match contents {
                    Some(text) => Some(text@),
                    None => None,
                },
            ) {
                Ok(after) => r is Ok && final(self)@.store == after,
                Err(e) => r == Err::<(), ServerError>(e) && final(self)@.store == old(self)@.store,
            },
    {
        match self.file {
            FileManager::Closed => { return Err(ServerError::INVALID_FILE); },
            FileManager::Open(_) => {},
        }
        let text = match contents {
            Some(text) => text,
            None => { return Err(ServerError::INVALID_JSON); },
        };
        match to_value_from_str(text) {
            Some(Document::Object(fields)) => {
                proof {
                    let members = field_pairs(fields@);
                    let object = json_parse(text@)->Some_0->Object_0;
                    lemma_field_pairs(fields@);
                    assert(pairs_sorted(members)) by {
                        assert forall|i: int, j: int|
                            0 <= i < j < members.len() implies text_before(
                            members[i].0,
                            members[j].0,
                        ) by {
                            assert(text_before(fields@[i].0@, fields@[j].0@));
                        }
                    }
                    lemma_sorted_unique(members_of(object), members);
                }
                let left = self.merge(fields);
                if left != 0 {
                    return Err(ServerError::INCOMPLETE_OPERATION);
                }
                Ok(())
            },
            _ => Err(ServerError::INVALID_JSON),
        }
    }

    /// Takes the text of the bound file, or `None` where it could not be
    /// read, merges it into the store as [`store_load`] says, and answers
    /// the `LOAD` command.
    pub fn loaded(&mut self, contents: Option<&str>) -> (r: Result<String, ServerError>)
        requires
            old(self).wf(),
        ensures
            final(self).wf(),
            final(self)@.file == old(self)@.file,
            match store_load(
                old(self)@,
                match contents {
                    Some(text) => Some(text@),
                    None => None,
                },
            ) {
                Ok(after) => {
                    &&& r is Ok
                    &&& r->Ok_0@ == "loaded file successfully"@
                    &&& final(self)@.store == after
                },
                Err(e) => {
                    &&& r == Err::<String, ServerError>(e)
                    &&& final(self)@.store == old(self)@.store
                },
            },
    {
        match self.load_from_file(contents) {
            Ok(()) => Ok(String::from_str("loaded file successfully")),
            Err(e) => Err(e),
        }
    }

    /// Returns the whole store as one JSON object, to be written to the
    /// bound file, or `None` where no file is bound.
    pub fn save_store(&self) -> (r: Option<String>)
        requires
            self.wf(),
        ensures
            match r {
                Some(text) => self@.file is Some && text@ == json_text(
                    DocumentView::Object(self@.store),
                ),
                None => self@.file is None,
            },
    {
        match self.file {
            FileManager::Closed => None,
            FileManager::Open(_) => Some(self.store.to_string()),
        }
    }

    /// Takes the outcome of writing the store to the bound file and answers
    /// the `SAVE` command.
    pub fn saved(written: bool) -> (r: Result<String, ServerError>)
        ensures
            written ==> r is Ok && r->Ok_0@ == "Saved to file"@,
            !written ==> r == Err::<String, ServerError>(ServerError::INVALID_JSON),
    {
        if written {
            Ok(String::from_str("Saved to file"))
        } else {
            Err(ServerError::INVALID_JSON)
        }
    }

    /// What sending an answer to a client comes to, given whether the text
    /// could be written to the client's channel. The store answers over TCP
    /// alone: any other transport gives `INVALID_ARG`, and a TCP client that
    /// could not be written to gives `NO_VALUE`.
    pub fn send(transport: Transport, written: bool) -> (r: Result<(), ServerError>)
        ensures
            r == (if transport != Transport::Tcp {
                Err::<(), ServerError>(ServerError::INVALID_ARG)
            } else if !written {
                Err::<(), ServerError>(ServerError::NO_VALUE)
            } else {
                Ok::<(), ServerError>(())
            }),
    {
        match transport {
            Transport::Tcp => if written {
                Ok(())
            } else {
                Err(ServerError::NO_VALUE)
            },
            Transport::WebSocket => Err(ServerError::INVALID_ARG),
        }
    }

    /// Handles one message of the store's protocol, as [`respond`] says.
    /// `_id` names the connection that sent the message; no command reads it.
    pub fn process_message(&mut self, message: &str, _id: &str) -> (r: Request)
        requires
            old(self).wf(),
        ensures
            final(self).wf(),
            final(self)@ == respond(old(self)@, message@).0,
            r@ == respond(old(self)@, message@).1,
    {
        let tokens = split(message, ' ');
        let verb = tokens[0].as_str();
        let first = argument_of(&tokens, 1);
        let second = argument_of(&tokens, 2);
        if equal(verb, "NEW") {
            Request::Answer(Ok(String::from_str("New connection to this db")))
        } else if equal(verb, "OPEN") {
            match self.open(first) {
                Ok(plan) => Request::Open { path: plan.path, directory: plan.directory },
                Err(e) => Request::Answer(Err(e)),
            }
        } else if equal(verb, "LOAD") {
            match self.file {
                FileManager::Open(_) => Request::Load,
                FileManager::Closed => Request::Answer(
                    Ok(
                        String::from_str(
                            "There is no file to load from, please open one with OPEN",
                        ),
                    ),
                ),
            }
        } else if equal(verb, "FND") {
            Request::Answer(self.fetch(first))
        } else if equal(verb, "INS") {
            match to_value_from_str(second) {
                Some(value) => match self.insert_to_store(first.to_owned(), value) {
                    Ok(()) => Request::Answer(Ok(second.to_owned())),
                    Err(e) => Request::Answer(Err(e)),
                },
                None => Request::Answer(Err(ServerError::FAILED_READ)),
            }
        } else if equal(verb, "DEL") {
            Request::Answer(self.delete(first))
        } else if equal(verb, "SAVE") {
            match self.save_store() {
                Some(text) => Request::Save(text),
                None => Request::Answer(Ok(String::from_str("No file open to save to"))),
            }
        } else {
            Request::Answer(Err(ServerError::INVALID_ARG))
        }
    }
}

} // verus!
