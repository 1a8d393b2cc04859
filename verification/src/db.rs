//! The store: a root directory, the index, and the decisions of every
//! operation.
//!
//! An operation comes in two halves. The first says which requests the file
//! system has to serve; the second takes the answers and says what the
//! operation returns and how the index changes. Nothing here reads or writes
//! a file.

use vstd::prelude::*;
use crate::document::{decode, decoding, document_keys, encode, encoding, field_names};
pub use crate::error::DatabaseError;
use crate::exchange::{refusal, served, settle, IoFailure, Request, RequestView, Response};
use crate::exchange::{lemma_refusal_stays, lemma_served_all};
use crate::identifier::{fresh_identifier, is_identifier, lemma_identifier_is_safe};
use crate::index::{with_all_forgotten, with_declared, with_forgotten, with_recorded, narrowed};
use crate::index::{with_rebuilt, FieldIndexView, Index, Stored, StoredView};
use crate::path::{collection_path, document_id, document_path, entry_path, is_safe_name};
use crate::path::{file_name, id_of_file, join, safe_name};
use crate::query::{decode_fault, document_of, doomed, found_in, gather, pick_doomed};
use crate::query::lemma_decode_fault_stays;
use crate::exchange::{contents_of, DirEntry};

verus! {

/// A document store below one root directory.
#[derive(Debug)]
pub struct Database {
    folder_path: String,
    index: Index,
}

/// An insertion that has been prepared and waits for its file to be written.
#[derive(Debug)]
pub struct Insertion {
    /// The collection that the document goes to.
    pub collection: String,
    /// The identifier that the document will have.
    pub id: String,
    /// The names of the document's fields.
    pub fields: Vec<String>,
    /// What the file system has to do.
    pub requests: Vec<Request>,
}

/// A deletion that has chosen its files and waits for them to be removed.
#[derive(Debug)]
pub struct Deletion {
    /// The collection that the documents leave.
    pub collection: String,
    /// The names of the files to remove, within the collection's directory.
    pub names: Vec<String>,
    /// What the file system has to do.
    pub requests: Vec<Request>,
}

/// The request that reads the document with a given identifier.
pub open spec fn read_of(root: Seq<char>, collection: Seq<char>) -> spec_fn(Seq<char>) -> RequestView
{
    |id: Seq<char>| RequestView::ReadFile { path: document_path(root, collection, id) }
}

/// The request that removes the file with a given name from a directory.
pub open spec fn removal_of(directory: Seq<char>) -> spec_fn(Seq<char>) -> RequestView {
    |name: Seq<char>| RequestView::RemoveFile { path: entry_path(directory, name) }
}

/// The identifiers that the given file names stand for.
pub open spec fn ids_of(names: Seq<Seq<char>>) -> Seq<Seq<char>> {
    names.map_values(|name: Seq<char>| document_id(name))
}

/// What opening a store asks of the file system: the root directory.
pub open spec fn init_plan(folder_path: Seq<char>) -> Seq<RequestView> {
    seq![RequestView::CreateDirAll { path: folder_path }]
}

/// What clearing a store asks: the root directory removed with all that is
/// below it, and made anew.
pub open spec fn clear_plan(root: Seq<char>) -> Seq<RequestView> {
    seq![RequestView::RemoveDirAll { path: root }, RequestView::CreateDirAll { path: root }]
}

/// What an insertion asks: the collection's directory, and the document's
/// file with the encoded document in it.
pub open spec fn insertion_plan(
    root: Seq<char>,
    collection: Seq<char>,
    id: Seq<char>,
    bytes: Seq<u8>,
) -> Seq<RequestView> {
    seq![
        RequestView::CreateDirAll { path: collection_path(root, collection) },
        RequestView::WriteFile { path: document_path(root, collection, id), bytes },
    ]
}

/// What looking up or deleting one document asks: nothing where a name is
/// unsafe, and else the one request on the document's file.
pub open spec fn single_plan(
    collection: Seq<char>,
    id: Seq<char>,
    request: RequestView,
) -> Seq<RequestView> {
    if is_safe_name(collection) && is_safe_name(id) {
        seq![request]
    } else {
        Seq::empty()
    }
}

/// What a query asks: nothing where the collection's name is unsafe; the
/// files of the identifiers that the index narrows the query to, where one of
/// the query's fields is indexed; and else the whole directory.
pub open spec fn find_plan(
    root: Seq<char>,
    entries: Seq<FieldIndexView>,
    collection: Seq<char>,
    fields: Seq<Seq<char>>,
) -> Seq<RequestView> {
    if !is_safe_name(collection) {
        Seq::empty()
    } else {
        match narrowed(entries, collection, fields) {
            Some(ids) => ids.map_values(read_of(root, collection)),
            None => seq![RequestView::ReadDir { path: collection_path(root, collection) }],
        }
    }
}

/// What a deletion by query asks first: nothing where the collection's name
/// is unsafe, and else the whole directory.
pub open spec fn scan_plan(root: Seq<char>, collection: Seq<char>) -> Seq<RequestView> {
    if is_safe_name(collection) {
        seq![RequestView::ReadDir { path: collection_path(root, collection) }]
    } else {
        Seq::empty()
    }
}

/// What a lookup of one document returns: the document that the file's
/// content decodes to; nothing where the file does not exist; and the failure
/// otherwise.
pub open spec fn find_one_outcome(
    collection: Seq<char>,
    id: Seq<char>,
    answers: Seq<Response>,
) -> Result<
    Option<bson::Document>,
    DatabaseError,
> {
    if !(is_safe_name(collection) && is_safe_name(id)) {
        Err(DatabaseError::IoError(IoFailure::UnsafeName))
    } else if answers.len() == 0 {
        Err(DatabaseError::IoError(IoFailure::BrokenExchange))
    } else {
        match answers[0] {
            Response::Content(bytes) => match decoding(bytes@) {
                Ok(doc) => Ok(Some(doc)),
                Err(e) => Err(DatabaseError::BsonDeError(e)),
            },
            Response::Failed(failure) => if failure is NotFound {
                Ok(None)
            } else {
                Err(DatabaseError::IoError(failure))
            },
            _ => Err(DatabaseError::IoError(IoFailure::BrokenExchange)),
        }
    }
}

/// What a query returns: the first failure met among the answers; a broken
/// exchange where the answers are not as many as the requests; and else the
/// documents found.
pub open spec fn find_outcome(
    root: Seq<char>,
    entries: Seq<FieldIndexView>,
    collection: Seq<char>,
    query: bson::Document,
    answers: Seq<Response>,
) -> Result<Seq<bson::Document>, DatabaseError> {
    if !is_safe_name(collection) {
        Err(DatabaseError::IoError(IoFailure::UnsafeName))
    } else {
        match found_in(answers, query) {
            Err(e) => Err(e),
            Ok(docs) => if answers.len() == find_plan(
                root,
                entries,
                collection,
                document_keys(query),
            ).len() {
                Ok(docs)
            } else {
                Err(DatabaseError::IoError(IoFailure::BrokenExchange))
            },
        }
    }
}

/// Why an insertion fails, if it fails: an unsafe name, or what is held
/// against the answers to its two requests.
pub open spec fn insert_failure(collection: Seq<char>, id: Seq<char>, answers: Seq<Response>) -> Option<
    IoFailure,
> {
    if !(is_safe_name(collection) && is_safe_name(id)) {
        Some(IoFailure::UnsafeName)
    } else {
        refusal(answers, 2)
    }
}

/// Every one of the names is safe.
pub open spec fn all_safe(names: Seq<Seq<char>>) -> bool {
    forall|k: int| 0 <= k < names.len() ==> is_safe_name(#[trigger] names[k])
}

/// Every one of the stored documents has a safe identifier.
pub open spec fn ids_are_safe(stored: Seq<StoredView>) -> bool {
    forall|k: int| 0 <= k < stored.len() ==> is_safe_name((#[trigger] stored[k]).id)
}

/// Why the deletion of one document fails, if it fails. That the file did
/// not exist is no failure.
pub open spec fn delete_one_failure(
    collection: Seq<char>,
    id: Seq<char>,
    answers: Seq<Response>,
) -> Option<
    IoFailure,
> {
    if !(is_safe_name(collection) && is_safe_name(id)) {
        Some(IoFailure::UnsafeName)
    } else if answers.len() == 0 {
        Some(IoFailure::BrokenExchange)
    } else {
        match answers[0] {
            Response::Done => None,
            Response::Failed(failure) => if failure is NotFound {
                None
            } else {
                Some(failure)
            },
            _ => Some(IoFailure::BrokenExchange),
        }
    }
}

/// The names of the files that a deletion by query chooses: those of the
/// directory whose documents meet the query; none where the directory does
/// not exist. A chosen file whose name is unsafe is refused.
pub open spec fn deletion_choice(
    collection: Seq<char>,
    query: bson::Document,
    answers: Seq<Response>,
) -> Result<
    Seq<Seq<char>>,
    DatabaseError,
> {
    if !is_safe_name(collection) {
        Err(DatabaseError::IoError(IoFailure::UnsafeName))
    } else if answers.len() == 0 {
        Err(DatabaseError::IoError(IoFailure::BrokenExchange))
    } else {
        match answers[0] {
            Response::Entries(entries) => match doomed(entries@, query) {
                Err(e) => Err(e),
                Ok(names) => if all_safe(names) {
                    Ok(names)
                } else {
                    Err(DatabaseError::IoError(IoFailure::UnsafeName))
                },
            },
            Response::Failed(failure) => if failure is NotFound {
                Ok(Seq::empty())
            } else {
                Err(DatabaseError::IoError(failure))
            },
            _ => Err(DatabaseError::IoError(IoFailure::BrokenExchange)),
        }
    }
}

/// What the index needs to know of the listed files: for each, the
/// identifier that its name stands for and the fields of its document.
pub open spec fn described(listing: Seq<DirEntry>) -> Seq<StoredView> {
    listing.map_values(
        |entry: DirEntry|
            StoredView {
                id: document_id(entry.name@),
                fields: document_keys(document_of(entry.content@)),
            },
    )
}

/// The files from which an index of a collection is built: those of the
/// collection's directory; none where the directory does not exist. A file
/// that does not decode is refused, and so is one whose name stands for an
/// unsafe identifier.
pub open spec fn rebuild_listing(collection: Seq<char>, answers: Seq<Response>) -> Result<
    Seq<DirEntry>,
    DatabaseError,
> {
    if !is_safe_name(collection) {
        Err(DatabaseError::IoError(IoFailure::UnsafeName))
    } else if answers.len() == 0 {
        Err(DatabaseError::IoError(IoFailure::BrokenExchange))
    } else {
        match answers[0] {
            Response::Entries(entries) => match decode_fault(contents_of(entries@)) {
                Some(e) => Err(DatabaseError::BsonDeError(e)),
                None => if ids_are_safe(described(entries@)) {
                    Ok(entries@)
                } else {
                    Err(DatabaseError::IoError(IoFailure::UnsafeName))
                },
            },
            Response::Failed(failure) => if failure is NotFound {
                Ok(Seq::empty())
            } else {
                Err(DatabaseError::IoError(failure))
            },
            _ => Err(DatabaseError::IoError(IoFailure::BrokenExchange)),
        }
    }
}

/// The requests that read the documents with the given identifiers, all of
/// them safe names.
fn reads(root: &String, collection: &String, ids: &Vec<String>) -> (requests: Vec<Request>)
    requires
        is_safe_name(collection@),
        all_safe(ids.deep_view()),
    ensures
        requests.deep_view() == ids.deep_view().map_values(read_of(root@, collection@)),
{
    let directory = join(root, collection);
    let mut requests: Vec<Request> = Vec::new();
    let mut i: usize = 0;
    while i < ids.len()
        invariant
            i <= ids.len(),
            directory@ == collection_path(root@, collection@),
            requests.len() == i,
            forall|k: int|
                0 <= k < i ==> #[trigger] requests@[k].deep_view() == read_of(root@, collection@)(
                    ids@[k]@,
                ),
        decreases ids.len() - i,
    {
        let name = file_name(&ids[i]);
        requests.push(Request::ReadFile { path: join(&directory, &name) });
        i = i + 1;
    }
    assert(requests.deep_view() =~= ids.deep_view().map_values(read_of(root@, collection@)));
    requests
}

/// The requests that remove the files with the given names, all of them
/// safe, from a directory.
fn removals(directory: &String, names: &Vec<String>) -> (requests: Vec<Request>)
    requires
        all_safe(names.deep_view()),
    ensures
        requests.deep_view() == names.deep_view().map_values(removal_of(directory@)),
{
    let mut requests: Vec<Request> = Vec::new();
    let mut i: usize = 0;
    while i < names.len()
        invariant
            i <= names.len(),
            requests.len() == i,
            forall|k: int|
                0 <= k < i ==> #[trigger] requests@[k].deep_view() == removal_of(directory@)(
                    names@[k]@,
                ),
        decreases names.len() - i,
    {
        requests.push(Request::RemoveFile { path: join(directory, &names[i]) });
        i = i + 1;
    }
    assert(requests.deep_view() =~= names.deep_view().map_values(removal_of(directory@)));
    requests
}

/// Decodes the listed files and says, of each, what the index needs to
/// know. Stops at the first file that does not decode, and refuses a listing
/// in which a file's name stands for an unsafe identifier.
fn describe(entries: &Vec<DirEntry>) -> (result: Result<Vec<Stored>, DatabaseError>)
    ensures
        match decode_fault(contents_of(entries@)) {
            Some(e) => result matches Err(failure) && failure == DatabaseError::BsonDeError(e),
            None => if ids_are_safe(described(entries@)) {
                result matches Ok(stored) && stored.deep_view() == described(entries@)
            } else {
                result matches Err(failure) && failure == DatabaseError::IoError(
                    IoFailure::UnsafeName,
                )
            },
        },
{
    let ghost contents = contents_of(entries@);
    let mut stored: Vec<Stored> = Vec::new();
    let mut safe = true;
    let mut i: usize = 0;
    assert(contents.take(0) =~= Seq::<Seq<u8>>::empty());
    while i < entries.len()
        invariant
            i <= entries.len(),
            contents == contents_of(entries@),
            decode_fault(contents.take(i as int)) is None,
            stored.len() == i,
            forall|k: int|
                0 <= k < i ==> #[trigger] stored@[k].deep_view() == described(entries@)[k],
            safe == (forall|k: int| 0 <= k < i ==> is_safe_name((#[trigger] described(entries@)[k]).id)),
        decreases entries.len() - i,
    {
        proof {
            assert(contents.take(i + 1).drop_last() =~= contents.take(i as int));
            assert(contents.take(i + 1).last() == entries@[i as int].content@);
        }
        match decode(&entries[i].content) {
            Ok(doc) => {
                let id = id_of_file(&entries[i].name);
                assert(described(entries@)[i as int].id == id@);
                if !safe_name(&id) {
                    safe = false;
                }
                stored.push(Stored { id, fields: field_names(&doc) });
            },
            Err(e) => {
                proof {
                    lemma_decode_fault_stays(contents, i + 1);
                }
                return Err(DatabaseError::BsonDeError(e));
            },
        }
        i = i + 1;
    }
    assert(contents.take(entries.len() as int) =~= contents);
    assert(stored.deep_view() =~= described(entries@));
    if safe {
        Ok(stored)
    } else {
        Err(DatabaseError::IoError(IoFailure::UnsafeName))
    }
}

/// Says whether every one of the names is safe.
fn safe_names(names: &Vec<String>) -> (safe: bool)
    ensures
        safe == all_safe(names.deep_view()),
{
    let mut i: usize = 0;
    while i < names.len()
        invariant
            i <= names.len(),
            forall|k: int| 0 <= k < i ==> is_safe_name(#[trigger] names.deep_view()[k]),
        decreases names.len() - i,
    {
        assert(names.deep_view()[i as int] == names@[i as int]@);
        if !safe_name(&names[i]) {
            return false;
        }
        i = i + 1;
    }
    true
}

impl Database {
    /// The root directory of the store.
    pub closed spec fn root(&self) -> Seq<char> {
        self.folder_path@
    }

    /// The entries of the store's index.
    pub closed spec fn entries(&self) -> Seq<FieldIndexView> {
        self.index.entries()
    }

    /// What has to be done before `init`: the root directory is made.
    pub fn init_requests(folder_path: &String) -> (requests: Vec<Request>)
        ensures
            requests.deep_view() == init_plan(folder_path@),
    {
        let mut requests: Vec<Request> = Vec::new();
        requests.push(Request::CreateDirAll { path: folder_path.clone() });
        assert(requests.deep_view() =~= init_plan(folder_path@));
        requests
    }

    /// Opens the store below `folder_path`, with an empty index, where the
    /// root directory could be made.
    pub fn init(folder_path: String, answers: &Vec<Response>) -> (result: Result<
        Database,
        DatabaseError,
    >)
        ensures
            match refusal(answers@, 1) {
                None => {
                    &&& result matches Ok(db)
                    &&& db.root() == folder_path@
                    &&& db.entries() == Seq::<FieldIndexView>::empty()
                },
                Some(failure) => result matches Err(e) && e == DatabaseError::IoError(failure),
            },
    {
        match settle(answers, 1) {
            Some(failure) => Err(DatabaseError::IoError(failure)),
            None => Ok(Database { folder_path, index: Index::new() }),
        }
    }

    /// What has to be done before `clear`: the root directory is removed with
    /// all that is below it, and made anew.
    pub fn clear_requests(&self) -> (requests: Vec<Request>)
        ensures
            requests.deep_view() == clear_plan(self.root()),
    {
        let mut requests: Vec<Request> = Vec::new();
        requests.push(Request::RemoveDirAll { path: self.folder_path.clone() });
        requests.push(Request::CreateDirAll { path: self.folder_path.clone() });
        assert(requests.deep_view() =~= clear_plan(self.root()));
        requests
    }

    /// Forgets every index. Fails where the root directory could not be
    /// removed or made anew; the index is empty then too.
    pub fn clear(&mut self, answers: &Vec<Response>) -> (result: Result<(), DatabaseError>)
        ensures
            final(self).root() == old(self).root(),
            final(self).entries() == Seq::<FieldIndexView>::empty(),
            match refusal(answers@, 2) {
                None => result is Ok,
                Some(failure) => result matches Err(e) && e == DatabaseError::IoError(failure),
            },
    {
        self.index.clear();
        match settle(answers, 2) {
            Some(failure) => Err(DatabaseError::IoError(failure)),
            None => Ok(()),
        }
    }

    /// What has to be done before `add_index`: every file of the collection
    /// is read.
    pub fn add_index_requests(&self, collection: &String) -> (requests: Vec<Request>)
        ensures
            requests.deep_view() == scan_plan(self.root(), collection@),
    {
        self.delete_requests(collection)
    }

    /// Declares an index on a field of a collection. The new index holds the
    /// stored documents of the collection that have the field, and the
    /// documents that are inserted from now on are recorded under the field
    /// where they have it. Declaring the same index again changes nothing.
    /// Where the collection's name is unsafe or its files cannot be read,
    /// nothing is declared.
    pub fn add_index(&mut self, collection: String, field: String, answers: &Vec<Response>) -> (result:
        Result<(), DatabaseError>)
        ensures
            final(self).root() == old(self).root(),
            match rebuild_listing(collection@, answers@) {
                Ok(listing) => result is Ok && final(self).entries() == with_declared(
                    old(self).entries(),
                    collection@,
                    field@,
                    described(listing),
                ),
                Err(failure) => {
                    &&& result matches Err(e)
                    &&& e == failure
                    &&& final(self).entries() == old(self).entries()
                },
            },
    {
        let stored = match self.stored_in(&collection, answers) {
            Ok(stored) => stored,
            Err(e) => {
                return Err(e);
            },
        };
        self.index.declare(collection, field, &stored);
        Ok(())
    }

    /// What the index needs to know of the files that were listed for a
    /// collection.
    fn stored_in(&self, collection: &String, answers: &Vec<Response>) -> (result: Result<
        Vec<Stored>,
        DatabaseError,
    >)
        ensures
            match rebuild_listing(collection@, answers@) {
                Ok(listing) => result matches Ok(stored) && stored.deep_view() == described(
                    listing,
                ),
                Err(failure) => result matches Err(e) && e == failure,
            },
    {
        if !safe_name(collection) {
            return Err(DatabaseError::IoError(IoFailure::UnsafeName));
        }
        if answers.len() == 0 {
            return Err(DatabaseError::IoError(IoFailure::BrokenExchange));
        }
        match &answers[0] {
            Response::Entries(entries) => describe(entries),
            Response::Failed(failure) => match failure {
                IoFailure::NotFound { .. } => {
                    let none: Vec<Stored> = Vec::new();
                    assert(none.deep_view() =~= described(Seq::empty()));
                    Ok(none)
                },
                _ => Err(DatabaseError::IoError(failure.clone())),
            },
            _ => Err(DatabaseError::IoError(IoFailure::BrokenExchange)),
        }
    }

    /// Prepares the insertion of a document under the given identifier:
    /// encodes the document and says what has to be written where. Fails,
    /// with nothing to be done, where the collection's name or the identifier
    /// is unsafe or the document cannot be encoded.
    pub fn prepare_insert(&self, collection: &String, doc: &bson::Document, id: String) -> (result:
        Result<Insertion, DatabaseError>)
        ensures
            if !(is_safe_name(collection@) && is_safe_name(id@)) {
                result matches Err(e) && e == DatabaseError::IoError(IoFailure::UnsafeName)
            } else {
                match encoding(*doc) {
                    Err(failure) => result matches Err(e) && e == DatabaseError::BsonSerError(
                        failure,
                    ),
                    Ok(bytes) => {
                        &&& result matches Ok(insertion)
                        &&& insertion.collection@ == collection@
                        &&& insertion.id == id
                        &&& insertion.fields.deep_view() == document_keys(*doc)
                        &&& insertion.requests.deep_view() == insertion_plan(
                            self.root(),
                            collection@,
                            id@,
                            bytes,
                        )
                    },
                }
            },
    {
        if !(safe_name(collection) && safe_name(&id)) {
            return Err(DatabaseError::IoError(IoFailure::UnsafeName));
        }
        let bytes = match encode(doc) {
            Ok(bytes) => bytes,
            Err(e) => {
                return Err(DatabaseError::BsonSerError(e));
            },
        };
        let directory = join(&self.folder_path, collection);
        let name = file_name(&id);
        let path = join(&directory, &name);
        let mut requests: Vec<Request> = Vec::new();
        requests.push(Request::CreateDirAll { path: directory });
        requests.push(Request::WriteFile { path, bytes });
        assert(requests.deep_view() =~= insertion_plan(self.root(), collection@, id@, bytes@));
        Ok(Insertion { collection: collection.clone(), id, fields: field_names(doc), requests })
    }

    /// Prepares the insertion of a document: draws a fresh identifier and
    /// prepares the insertion under it. Fails, with nothing to be done, where
    /// the collection's name is unsafe or the document cannot be encoded.
    /// Panics where the clock of the machine reads a time before 1970 or after
    /// 2106, of which no identifier can be made.
    pub fn begin_insert(&self, collection: &String, doc: &bson::Document) -> (result: Result<
        Insertion,
        DatabaseError,
    >)
        ensures
            if !is_safe_name(collection@) {
                result matches Err(e) && e == DatabaseError::IoError(IoFailure::UnsafeName)
            } else {
                match encoding(*doc) {
                    Err(failure) => result matches Err(e) && e == DatabaseError::BsonSerError(
                        failure,
                    ),
                    Ok(bytes) => {
                        &&& result matches Ok(insertion)
                        &&& insertion.collection@ == collection@
                        &&& is_identifier(insertion.id@)
                        &&& insertion.fields.deep_view() == document_keys(*doc)
                        &&& insertion.requests.deep_view() == insertion_plan(
                            self.root(),
                            collection@,
                            insertion.id@,
                            bytes,
                        )
                    },
                }
            },
    {
        let id = fresh_identifier();
        proof {
            lemma_identifier_is_safe(id@);
        }
        self.prepare_insert(collection, doc, id)
    }

    /// Completes an insertion. Where the directory was made and the file
    /// written, the document is recorded under every indexed field that it
    /// has, and its identifier is returned. Otherwise, and where the
    /// insertion names an unsafe collection or identifier, the index stays as
    /// it was.
    pub fn insert_one(&mut self, insertion: Insertion, answers: &Vec<Response>) -> (result: Result<
        String,
        DatabaseError,
    >)
        ensures
            final(self).root() == old(self).root(),
            match insert_failure(insertion.collection@, insertion.id@, answers@) {
                None => {
                    &&& result matches Ok(id)
                    &&& id == insertion.id
                    &&& final(self).entries() == with_recorded(
                        old(self).entries(),
                        insertion.collection@,
                        insertion.fields.deep_view(),
                        insertion.id@,
                    )
                },
                Some(failure) => {
                    &&& result matches Err(e)
                    &&& e == DatabaseError::IoError(failure)
                    &&& final(self).entries() == old(self).entries()
                },
            },
    {
        if !(safe_name(&insertion.collection) && safe_name(&insertion.id)) {
            return Err(DatabaseError::IoError(IoFailure::UnsafeName));
        }
        match settle(answers, 2) {
            Some(failure) => Err(DatabaseError::IoError(failure)),
            None => {
                self.index.record(&insertion.collection, &insertion.fields, &insertion.id);
                Ok(insertion.id)
            },
        }
    }

    /// What has to be done before `find_one`: the document's file is read.
    pub fn find_one_requests(&self, collection: &String, id: &String) -> (requests: Vec<Request>)
        ensures
            requests.deep_view() == single_plan(
                collection@,
                id@,
                RequestView::ReadFile { path: document_path(self.root(), collection@, id@) },
            ),
    {
        let mut requests: Vec<Request> = Vec::new();
        if safe_name(collection) && safe_name(id) {
            requests.push(Request::ReadFile { path: self.document_file(collection, id) });
        }
        assert(requests.deep_view() =~= single_plan(
            collection@,
            id@,
            RequestView::ReadFile { path: document_path(self.root(), collection@, id@) },
        ));
        requests
    }

    /// The document with the given identifier, or `None` where the
    /// collection holds none.
    pub fn find_one(
        &self,
        collection: String,
        id: String,
        answers: &Vec<Response>,
    ) -> (result: Result<
        Option<bson::Document>,
        DatabaseError,
    >)
        ensures
            result == find_one_outcome(collection@, id@, answers@),
    {
        if !(safe_name(&collection) && safe_name(&id)) {
            return Err(DatabaseError::IoError(IoFailure::UnsafeName));
        }
        if answers.len() == 0 {
            return Err(DatabaseError::IoError(IoFailure::BrokenExchange));
        }
        match &answers[0] {
            Response::Content(bytes) => match decode(bytes) {
                Ok(doc) => Ok(Some(doc)),
                Err(e) => Err(DatabaseError::BsonDeError(e)),
            },
            Response::Failed(failure) => match failure {
                IoFailure::NotFound { .. } => Ok(None),
                _ => Err(DatabaseError::IoError(failure.clone())),
            },
            _ => Err(DatabaseError::IoError(IoFailure::BrokenExchange)),
        }
    }

    /// What has to be done before `find`: where the index narrows the query,
    /// the files of the documents that it leaves are read; else every file of
    /// the collection.
    pub fn find_requests(&self, collection: &String, query: &bson::Document) -> (requests: Vec<Request>)
        ensures
            requests.deep_view() == find_plan(
                self.root(),
                self.entries(),
                collection@,
                document_keys(*query),
            ),
    {
        let mut requests: Vec<Request> = Vec::new();
        if !safe_name(collection) {
            assert(requests.deep_view() =~= Seq::<RequestView>::empty());
            return requests;
        }
        let fields = field_names(query);
        match self.index.narrow(collection, &fields) {
            Some(ids) => reads(&self.folder_path, collection, &ids),
            None => {
                requests.push(Request::ReadDir { path: self.collection_dir(collection) });
                assert(requests.deep_view() =~= seq![
                    RequestView::ReadDir { path: collection_path(self.root(), collection@) },
                ]);
                requests
            },
        }
    }

    /// The documents of the collection that meet every constraint of the
    /// query, among those that were read, in the order in which they were
    /// read.
    pub fn find(
        &self,
        collection: String,
        query: bson::Document,
        answers: &Vec<Response>,
    ) -> (result: Result<
        Vec<bson::Document>,
        DatabaseError,
    >)
        ensures
            match find_outcome(self.root(), self.entries(), collection@, query, answers@) {
                Ok(docs) => result matches Ok(found) && found@ == docs,
                Err(failure) => result matches Err(e) && e == failure,
            },
    {
        if !safe_name(&collection) {
            return Err(DatabaseError::IoError(IoFailure::UnsafeName));
        }
        let found = match gather(answers, &query) {
            Ok(found) => found,
            Err(e) => {
                return Err(e);
            },
        };
        if answers.len() != self.requests_of(&collection, &query) {
            return Err(DatabaseError::IoError(IoFailure::BrokenExchange));
        }
        Ok(found)
    }

    /// How many requests a query makes.
    fn requests_of(&self, collection: &String, query: &bson::Document) -> (count: usize)
        requires
            is_safe_name(collection@),
        ensures
            count == find_plan(
                self.root(),
                self.entries(),
                collection@,
                document_keys(*query),
            ).len(),
    {
        let fields = field_names(query);
        match self.index.narrow(collection, &fields) {
            Some(ids) => {
                assert(ids.deep_view().len() == ids.len());
                ids.len()
            },
            None => 1,
        }
    }

    /// What has to be done before `delete_one`: the document's file is
    /// removed.
    pub fn delete_one_requests(&self, collection: &String, id: &String) -> (requests: Vec<Request>)
        ensures
            requests.deep_view() == single_plan(
                collection@,
                id@,
                RequestView::RemoveFile { path: document_path(self.root(), collection@, id@) },
            ),
    {
        let mut requests: Vec<Request> = Vec::new();
        if safe_name(collection) && safe_name(id) {
            requests.push(Request::RemoveFile { path: self.document_file(collection, id) });
        }
        assert(requests.deep_view() =~= single_plan(
            collection@,
            id@,
            RequestView::RemoveFile { path: document_path(self.root(), collection@, id@) },
        ));
        requests
    }

    /// Deletes the document with the given identifier. Where its file was
    /// removed or did not exist, the identifier leaves every index of the
    /// collection, and `None` is returned. Otherwise the index stays as it
    /// was.
    pub fn delete_one(
        &mut self,
        collection: String,
        id: String,
        answers: &Vec<Response>,
    ) -> (result: Result<
        Option<bson::Document>,
        DatabaseError,
    >)
        ensures
            final(self).root() == old(self).root(),
            match delete_one_failure(collection@, id@, answers@) {
                None => {
                    &&& result matches Ok(gone)
                    &&& gone is None
                    &&& final(self).entries() == with_forgotten(
                        old(self).entries(),
                        collection@,
                        id@,
                    )
                },
                Some(failure) => {
                    &&& result matches Err(e)
                    &&& e == DatabaseError::IoError(failure)
                    &&& final(self).entries() == old(self).entries()
                },
            },
    {
        if !(safe_name(&collection) && safe_name(&id)) {
            return Err(DatabaseError::IoError(IoFailure::UnsafeName));
        }
        if answers.len() == 0 {
            return Err(DatabaseError::IoError(IoFailure::BrokenExchange));
        }
        match &answers[0] {
            Response::Done => {},
            Response::Failed(failure) => match failure {
                IoFailure::NotFound { .. } => {},
                _ => {
                    return Err(DatabaseError::IoError(failure.clone()));
                },
            },
            _ => {
                return Err(DatabaseError::IoError(IoFailure::BrokenExchange));
            },
        }
        self.index.forget(&collection, &id);
        Ok(None)
    }

    /// What has to be done before `begin_delete`: every file of the
    /// collection is read.
    pub fn delete_requests(&self, collection: &String) -> (requests: Vec<Request>)
        ensures
            requests.deep_view() == scan_plan(self.root(), collection@),
    {
        let mut requests: Vec<Request> = Vec::new();
        if safe_name(collection) {
            requests.push(Request::ReadDir { path: self.collection_dir(collection) });
        }
        assert(requests.deep_view() =~= scan_plan(self.root(), collection@));
        requests
    }

    /// Chooses the files that a deletion by query removes: those whose
    /// documents meet every constraint of the query.
    pub fn begin_delete(
        &self,
        collection: &String,
        query: &bson::Document,
        answers: &Vec<Response>,
    ) -> (result: Result<Deletion, DatabaseError>)
        ensures
            match deletion_choice(collection@, *query, answers@) {
                Err(failure) => result matches Err(e) && e == failure,
                Ok(names) => {
                    &&& result matches Ok(deletion)
                    &&& deletion.collection@ == collection@
                    &&& deletion.names.deep_view() == names
                    &&& deletion.requests.deep_view() == names.map_values(
                        removal_of(collection_path(self.root(), collection@)),
                    )
                },
            },
    {
        if !safe_name(collection) {
            return Err(DatabaseError::IoError(IoFailure::UnsafeName));
        }
        if answers.len() == 0 {
            return Err(DatabaseError::IoError(IoFailure::BrokenExchange));
        }
        let names = match &answers[0] {
            Response::Entries(entries) => match pick_doomed(entries, query) {
                Ok(names) => names,
                Err(e) => {
                    return Err(e);
                },
            },
            Response::Failed(failure) => match failure {
                IoFailure::NotFound { .. } => {
                    let none: Vec<String> = Vec::new();
                    assert(none.deep_view() =~= Seq::<Seq<char>>::empty());
                    none
                },
                _ => {
                    return Err(DatabaseError::IoError(failure.clone()));
                },
            },
            _ => {
                return Err(DatabaseError::IoError(IoFailure::BrokenExchange));
            },
        };
        if !safe_names(&names) {
            return Err(DatabaseError::IoError(IoFailure::UnsafeName));
        }
        let directory = self.collection_dir(collection);
        let requests = removals(&directory, &names);
        Ok(Deletion { collection: collection.clone(), names, requests })
    }

    /// Completes a deletion by query. The documents whose files were removed
    /// leave every index of the collection; their identifiers are returned
    /// where every chosen file was removed, and else the first failure.
    pub fn delete(&mut self, deletion: Deletion, answers: &Vec<Response>) -> (result: Result<
        Vec<String>,
        DatabaseError,
    >)
        ensures
            final(self).root() == old(self).root(),
            final(self).entries() == with_all_forgotten(
                old(self).entries(),
                deletion.collection@,
                ids_of(deletion.names.deep_view()).take(
                    served(answers@, deletion.names.len() as nat) as int,
                ),
            ),
            match refusal(answers@, deletion.names.len() as nat) {
                None => result matches Ok(ids) && ids.deep_view() == ids_of(
                    deletion.names.deep_view(),
                ),
                Some(failure) => result matches Err(e) && e == DatabaseError::IoError(failure),
            },
    {
        let ghost all = ids_of(deletion.names.deep_view());
        let count = deletion.names.len();
        let mut ids: Vec<String> = Vec::new();
        let mut i: usize = 0;
        assert(all.take(0) =~= Seq::<Seq<char>>::empty());
        assert(ids.deep_view() =~= Seq::<Seq<char>>::empty());
        while i < count
            invariant
                i <= count,
                count == deletion.names.len(),
                all == ids_of(deletion.names.deep_view()),
                self.root() == old(self).root(),
                served(answers@, i as nat) == i,
                refusal(answers@, i as nat) is None,
                ids.deep_view() == all.take(i as int),
                self.entries() == with_all_forgotten(
                    old(self).entries(),
                    deletion.collection@,
                    all.take(i as int),
                ),
            decreases count - i,
        {
            let failure = if i < answers.len() {
                match &answers[i] {
                    Response::Done => None,
                    Response::Failed(failure) => Some(failure.clone()),
                    _ => Some(IoFailure::BrokenExchange),
                }
            } else {
                Some(IoFailure::BrokenExchange)
            };
            match failure {
                Some(failure) => {
                    proof {
                        lemma_refusal_stays(answers@, (i + 1) as nat, count as nat);
                    }
                    return Err(DatabaseError::IoError(failure));
                },
                None => {},
            }
            let ghost so_far = ids.deep_view();
            let id = id_of_file(&deletion.names[i]);
            self.index.forget(&deletion.collection, &id);
            ids.push(id);
            proof {
                assert(deletion.names.deep_view()[i as int] == deletion.names@[i as int]@);
                assert(all.take(i + 1) =~= all.take(i as int).push(id@));
                assert(all.take(i + 1).drop_last() =~= all.take(i as int));
                assert(ids.deep_view() =~= so_far.push(id@));
            }
            i = i + 1;
        }
        proof {
            assert(all.take(count as int) =~= all);
            lemma_served_all(answers@, count as nat);
        }
        Ok(ids)
    }

    /// What has to be done before `rebuild_index`: every file of the
    /// collection is read.
    pub fn rebuild_requests(&self, collection: &String) -> (requests: Vec<Request>)
        ensures
            requests.deep_view() == scan_plan(self.root(), collection@),
    {
        self.delete_requests(collection)
    }

    /// Builds the index of a collection anew from the files that the
    /// collection holds: afterwards every index of the collection holds the
    /// identifiers of the stored documents that have its field, and no other.
    /// Where the files cannot be read or do not all decode, the index stays
    /// as it was.
    pub fn rebuild_index(
        &mut self,
        collection: &String,
        answers: &Vec<Response>,
    ) -> (result: Result<
        (),
        DatabaseError,
    >)
        ensures
            final(self).root() == old(self).root(),
            match rebuild_listing(collection@, answers@) {
                Ok(listing) => result is Ok && final(self).entries() == with_rebuilt(
                    old(self).entries(),
                    collection@,
                    described(listing),
                ),
                Err(failure) => {
                    &&& result matches Err(e)
                    &&& e == failure
                    &&& final(self).entries() == old(self).entries()
                },
            },
    {
        let stored = match self.stored_in(collection, answers) {
            Ok(stored) => stored,
            Err(e) => {
                return Err(e);
            },
        };
        self.index.rebuild(collection, &stored);
        Ok(())
    }

    /// The directory of a collection, or a refusal where the collection's
    /// name is unsafe.
    pub fn get_collection_path(&self, collection: &String) -> (result: Result<String, DatabaseError>)
        ensures
            if is_safe_name(collection@) {
                result matches Ok(path) && path@ == collection_path(self.root(), collection@)
            } else {
                result matches Err(e) && e == DatabaseError::IoError(IoFailure::UnsafeName)
            },
    {
        if !safe_name(collection) {
            return Err(DatabaseError::IoError(IoFailure::UnsafeName));
        }
        Ok(self.collection_dir(collection))
    }

    /// The file of a document, or a refusal where the collection's name or
    /// the identifier is unsafe.
    pub fn get_document_path(&self, collection: &String, id: &String) -> (result: Result<
        String,
        DatabaseError,
    >)
        ensures
            if is_safe_name(collection@) && is_safe_name(id@) {
                result matches Ok(path) && path@ == document_path(self.root(), collection@, id@)
            } else {
                result matches Err(e) && e == DatabaseError::IoError(IoFailure::UnsafeName)
            },
    {
        if !(safe_name(collection) && safe_name(id)) {
            return Err(DatabaseError::IoError(IoFailure::UnsafeName));
        }
        Ok(self.document_file(collection, id))
    }

    /// The directory of a collection with a safe name.
    fn collection_dir(&self, collection: &String) -> (path: String)
        requires
            is_safe_name(collection@),
        ensures
            path@ == collection_path(self.root(), collection@),
    {
        join(&self.folder_path, collection)
    }

    /// The file of a document, for safe names.
    fn document_file(&self, collection: &String, id: &String) -> (path: String)
        requires
            is_safe_name(collection@),
            is_safe_name(id@),
        ensures
            path@ == document_path(self.root(), collection@, id@),
    {
        let directory = join(&self.folder_path, collection);
        let name = file_name(id);
        join(&directory, &name)
    }
}

} // verus!
