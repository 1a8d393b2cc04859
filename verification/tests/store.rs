//! The store, driven against a disk that lives in memory.

use std::collections::BTreeMap;

use bson::{Bson, Document};
use owldb::db::{Database, DatabaseError};
use owldb::exchange::{continues_after, DirEntry, IoFailure, Request, Response};

type Disk = BTreeMap<String, Vec<u8>>;

fn not_found() -> Response {
    Response::Failed(IoFailure::NotFound { message: "no such file or directory".to_string() })
}

fn perform(disk: &mut Disk, request: &Request) -> Response {
    match request {
        Request::CreateDirAll { .. } => Response::Done,
        Request::RemoveDirAll { path } => {
            let below = format!("{}/", path);
            disk.retain(|file, _| !file.starts_with(&below));
            Response::Done
        }
        Request::WriteFile { path, bytes } => {
            disk.insert(path.clone(), bytes.clone());
            Response::Done
        }
        Request::ReadFile { path } => match disk.get(path) {
            Some(bytes) => Response::Content(bytes.clone()),
            None => not_found(),
        },
        Request::ReadDir { path } => {
            let below = format!("{}/", path);
            let mut entries = Vec::new();
            for (file, bytes) in disk.iter() {
                if let Some(name) = file.strip_prefix(&below) {
                    if !name.contains('/') {
                        entries.push(DirEntry { name: name.to_string(), content: bytes.clone() });
                    }
                }
            }
            if entries.is_empty() {
                not_found()
            } else {
                Response::Entries(entries)
            }
        }
        Request::RemoveFile { path } => match disk.remove(path) {
            Some(_) => Response::Done,
            None => not_found(),
        },
    }
}

fn perform_all(disk: &mut Disk, requests: &Vec<Request>) -> Vec<Response> {
    let mut answers = Vec::new();
    for request in requests {
        let answer = perform(disk, request);
        let go_on = continues_after(request, &answer);
        answers.push(answer);
        if !go_on {
            break;
        }
    }
    answers
}

fn open(disk: &mut Disk, folder: &str) -> Database {
    let folder = folder.to_string();
    let answers = perform_all(disk, &Database::init_requests(&folder));
    Database::init(folder, &answers).unwrap()
}

fn init_test(disk: &mut Disk, folder: &str, id: &str) -> Database {
    open(disk, &format!("{}/{}", folder, id))
}

fn clear(db: &mut Database, disk: &mut Disk) -> Result<(), DatabaseError> {
    let answers = perform_all(disk, &db.clear_requests());
    db.clear(&answers)
}

fn insert_one(db: &mut Database, disk: &mut Disk, collection: &str, doc: Document) -> Result<String, DatabaseError> {
    let insertion = db.begin_insert(&collection.to_string(), &doc)?;
    let answers = perform_all(disk, &insertion.requests);
    db.insert_one(insertion, &answers)
}

fn find_one(db: &Database, disk: &mut Disk, collection: &str, id: &str) -> Result<Option<Document>, DatabaseError> {
    let requests = db.find_one_requests(&collection.to_string(), &id.to_string());
    let answers = perform_all(disk, &requests);
    db.find_one(collection.to_string(), id.to_string(), &answers)
}

fn find(db: &Database, disk: &mut Disk, collection: &str, query: Document) -> Result<Vec<Document>, DatabaseError> {
    let requests = db.find_requests(&collection.to_string(), &query);
    let answers = perform_all(disk, &requests);
    db.find(collection.to_string(), query, &answers)
}

fn delete_one(db: &mut Database, disk: &mut Disk, collection: &str, id: &str) -> Result<Option<Document>, DatabaseError> {
    let requests = db.delete_one_requests(&collection.to_string(), &id.to_string());
    let answers = perform_all(disk, &requests);
    db.delete_one(collection.to_string(), id.to_string(), &answers)
}

fn delete(db: &mut Database, disk: &mut Disk, collection: &str, query: Document) -> Result<Vec<String>, DatabaseError> {
    let collection = collection.to_string();
    let listing = perform_all(disk, &db.delete_requests(&collection));
    let deletion = db.begin_delete(&collection, &query, &listing)?;
    let answers = perform_all(disk, &deletion.requests);
    db.delete(deletion, &answers)
}

fn add_index(db: &mut Database, disk: &mut Disk, collection: &str, field: &str) -> Result<(), DatabaseError> {
    let collection = collection.to_string();
    let answers = perform_all(disk, &db.add_index_requests(&collection));
    db.add_index(collection, field.to_string(), &answers)
}

fn rebuild_index(db: &mut Database, disk: &mut Disk, collection: &str) -> Result<(), DatabaseError> {
    let collection = collection.to_string();
    let answers = perform_all(disk, &db.rebuild_requests(&collection));
    db.rebuild_index(&collection, &answers)
}

fn person(name: &str, age: i32) -> Document {
    let mut doc = Document::new();
    doc.insert("name", name);
    doc.insert("age", age);
    doc
}

fn by_name(name: &str) -> Document {
    let mut query = Document::new();
    query.insert("name", name);
    query
}

fn test_documents() -> Vec<Document> {
    vec![person("John", 30), person("Jane", 25), person("John", 25)]
}

fn filled(disk: &mut Disk, folder: &str) -> (Database, Vec<String>) {
    let mut db = init_test(disk, "data_tests", folder);
    clear(&mut db, disk).unwrap();
    let mut ids = Vec::new();
    for doc in test_documents() {
        ids.push(insert_one(&mut db, disk, "users", doc).expect("Failed to insert document"));
    }
    (db, ids)
}

#[test]
fn test_insert_one() {
    let mut disk = Disk::new();
    let mut db = open(&mut disk, "data_tests");
    let res = insert_one(&mut db, &mut disk, "users", person("John", 30));
    assert!(res.is_ok());
}

#[test]
fn test_find_one() {
    let mut disk = Disk::new();
    let mut db = open(&mut disk, "data_tests");
    let doc = person("John", 30);
    let id = insert_one(&mut db, &mut disk, "users", doc.clone()).unwrap();
    let found_doc = find_one(&db, &mut disk, "users", &id);
    assert!(found_doc.is_ok());
    let found_doc = found_doc.unwrap();
    assert!(found_doc.is_some());
    let found_doc = found_doc.unwrap();
    assert_eq!(found_doc, doc);
}

#[test]
fn test_find() {
    let mut disk = Disk::new();
    let (db, _) = filled(&mut disk, "test_find");
    let documents = test_documents();
    let found_docs = find(&db, &mut disk, "users", by_name("John")).expect("Failed to find documents");
    assert_eq!(found_docs.len(), 2);
    for doc in found_docs {
        assert!(documents.contains(&doc));
    }
}

#[test]
fn test_find_filtered() {
    let mut disk = Disk::new();
    let (db, _) = filled(&mut disk, "test_find_filtered");
    let documents = test_documents();
    let found_docs = find(&db, &mut disk, "users", person("John", 25)).expect("Failed to find documents");
    assert_eq!(found_docs.len(), 1);
    for doc in found_docs {
        assert!(documents.contains(&doc));
    }
}

#[test]
fn test_delete_one() {
    let mut disk = Disk::new();
    let mut db = init_test(&mut disk, "data_tests", "test_delete_one");
    clear(&mut db, &mut disk).unwrap();
    let documents = test_documents();
    let id = insert_one(&mut db, &mut disk, "users", documents[0].clone()).expect("Failed to insert document");
    let deleted_doc = delete_one(&mut db, &mut disk, "users", &id).expect("Failed to delete document");
    assert!(deleted_doc.is_none());
    let found_doc = find_one(&db, &mut disk, "users", &id).expect("Failed to find document");
    assert!(found_doc.is_none());
}

#[test]
fn test_delete() {
    let mut disk = Disk::new();
    let (mut db, _) = filled(&mut disk, "test_delete");
    let deleted_ids = delete(&mut db, &mut disk, "users", by_name("John")).expect("Failed to delete documents");
    assert_eq!(deleted_ids.len(), 2);
    for id in deleted_ids {
        let found_doc = find_one(&db, &mut disk, "users", &id).expect("Failed to find document");
        assert!(found_doc.is_none());
    }
}

#[test]
fn scenario_of_three_people() {
    let mut disk = Disk::new();
    let (mut db, ids) = filled(&mut disk, "scenario");
    let johns = find(&db, &mut disk, "users", by_name("John")).unwrap();
    assert_eq!(johns.len(), 2);
    let third = find(&db, &mut disk, "users", person("John", 25)).unwrap();
    assert_eq!(third, vec![person("John", 25)]);
    let mut removed = delete(&mut db, &mut disk, "users", by_name("John")).unwrap();
    removed.sort();
    let mut expected = vec![ids[0].clone(), ids[2].clone()];
    expected.sort();
    assert_eq!(removed, expected);
    let rest = find(&db, &mut disk, "users", Document::new()).unwrap();
    assert_eq!(rest, vec![person("Jane", 25)]);
}

#[test]
fn inserted_document_is_found_again() {
    let mut disk = Disk::new();
    let mut db = open(&mut disk, "data");
    let mut nested = Document::new();
    nested.insert("city", "Lima");
    nested.insert("zip", 15001_i64);
    let mut doc = Document::new();
    doc.insert("name", "Ana");
    doc.insert("tags", vec![Bson::String("a".to_string()), Bson::Int32(2), Bson::Null]);
    doc.insert("home", nested);
    doc.insert("active", true);
    let id = insert_one(&mut db, &mut disk, "people", doc.clone()).unwrap();
    assert_eq!(find_one(&db, &mut disk, "people", &id).unwrap(), Some(doc));
}

#[test]
fn inserted_documents_get_distinct_identifiers() {
    let mut disk = Disk::new();
    let mut db = open(&mut disk, "data");
    let mut ids = Vec::new();
    for i in 0..50 {
        ids.push(insert_one(&mut db, &mut disk, "users", person("John", i)).unwrap());
    }
    for id in &ids {
        assert_eq!(id.len(), 24);
        assert!(id.chars().all(|c| c.is_ascii_digit() || ('a'..='f').contains(&c)));
    }
    let mut distinct = ids.clone();
    distinct.sort();
    distinct.dedup();
    assert_eq!(distinct.len(), 50);
    assert_eq!(disk.len(), 50);
}

#[test]
fn empty_query_finds_every_document() {
    let mut disk = Disk::new();
    let (mut db, _) = filled(&mut disk, "find_all");
    let all = find(&db, &mut disk, "users", Document::new()).unwrap();
    assert_eq!(all.len(), 3);
    for doc in test_documents() {
        assert!(all.contains(&doc));
    }
    add_index(&mut db, &mut disk, "users", "name").unwrap();
    let requests = db.find_requests(&"users".to_string(), &Document::new());
    assert_eq!(requests.len(), 1);
    assert!(matches!(&requests[0], Request::ReadDir { path } if path == "data_tests/find_all/users"));
    let again = find(&db, &mut disk, "users", Document::new()).unwrap();
    assert_eq!(again.len(), 3);
}

#[test]
fn index_changes_no_result() {
    let mut plain_disk = Disk::new();
    let mut plain = open(&mut plain_disk, "data");
    let mut indexed_disk = Disk::new();
    let mut indexed = open(&mut indexed_disk, "data");
    add_index(&mut indexed, &mut indexed_disk, "users", "name").unwrap();
    add_index(&mut indexed, &mut indexed_disk, "users", "age").unwrap();
    let mut lonely = Document::new();
    lonely.insert("name", "John");
    let mut docs = test_documents();
    docs.push(lonely);
    for doc in docs {
        insert_one(&mut plain, &mut plain_disk, "users", doc.clone()).unwrap();
        insert_one(&mut indexed, &mut indexed_disk, "users", doc).unwrap();
    }
    let mut by_age = Document::new();
    by_age.insert("age", 25);
    let mut other = Document::new();
    other.insert("city", "Lima");
    for query in [by_name("John"), by_name("Nobody"), person("John", 25), by_age, other, Document::new()] {
        let mut a = find(&plain, &mut plain_disk, "users", query.clone()).unwrap();
        let mut b = find(&indexed, &mut indexed_disk, "users", query).unwrap();
        a.sort_by_key(|d| d.to_string());
        b.sort_by_key(|d| d.to_string());
        assert_eq!(a, b);
    }
    let a = delete(&mut plain, &mut plain_disk, "users", by_name("John")).unwrap();
    let b = delete(&mut indexed, &mut indexed_disk, "users", by_name("John")).unwrap();
    assert_eq!(a.len(), 3);
    assert_eq!(b.len(), 3);
    assert_eq!(find(&plain, &mut plain_disk, "users", Document::new()).unwrap(), vec![person("Jane", 25)]);
    assert_eq!(find(&indexed, &mut indexed_disk, "users", Document::new()).unwrap(), vec![person("Jane", 25)]);
}

#[test]
fn index_narrows_the_files_that_are_read() {
    let mut disk = Disk::new();
    let mut db = open(&mut disk, "data");
    add_index(&mut db, &mut disk, "users", "name").unwrap();
    add_index(&mut db, &mut disk, "users", "name").unwrap();
    add_index(&mut db, &mut disk, "users", "email").unwrap();
    let mut mailed = person("Jane", 25);
    mailed.insert("email", "jane@example.org");
    let first = insert_one(&mut db, &mut disk, "users", person("John", 30)).unwrap();
    let second = insert_one(&mut db, &mut disk, "users", mailed.clone()).unwrap();
    let requests = db.find_requests(&"users".to_string(), &by_name("Jane"));
    assert_eq!(requests.len(), 2);
    assert!(matches!(&requests[0], Request::ReadFile { path } if *path == format!("data/users/{}.bson", first)));
    assert!(matches!(&requests[1], Request::ReadFile { path } if *path == format!("data/users/{}.bson", second)));
    let mut both = by_name("Jane");
    both.insert("email", "jane@example.org");
    let requests = db.find_requests(&"users".to_string(), &both);
    assert_eq!(requests.len(), 1);
    assert!(matches!(&requests[0], Request::ReadFile { path } if *path == format!("data/users/{}.bson", second)));
    assert_eq!(find(&db, &mut disk, "users", both).unwrap(), vec![mailed]);
    assert_eq!(find(&db, &mut disk, "users", by_name("John")).unwrap(), vec![person("John", 30)]);
    let mut wrong_mail = Document::new();
    wrong_mail.insert("email", "john@example.org");
    assert_eq!(find(&db, &mut disk, "users", wrong_mail).unwrap(), Vec::<Document>::new());
}

#[test]
fn deleted_document_is_gone() {
    let mut disk = Disk::new();
    let mut db = open(&mut disk, "data");
    add_index(&mut db, &mut disk, "users", "name").unwrap();
    let kept = insert_one(&mut db, &mut disk, "users", person("John", 30)).unwrap();
    let gone = insert_one(&mut db, &mut disk, "users", person("John", 25)).unwrap();
    assert_eq!(delete_one(&mut db, &mut disk, "users", &gone).unwrap(), None);
    assert_eq!(find_one(&db, &mut disk, "users", &gone).unwrap(), None);
    let requests = db.find_requests(&"users".to_string(), &by_name("John"));
    assert_eq!(requests.len(), 1);
    assert!(matches!(&requests[0], Request::ReadFile { path } if *path == format!("data/users/{}.bson", kept)));
    assert_eq!(find(&db, &mut disk, "users", by_name("John")).unwrap(), vec![person("John", 30)]);
    assert_eq!(find(&db, &mut disk, "users", Document::new()).unwrap(), vec![person("John", 30)]);
    assert_eq!(delete(&mut db, &mut disk, "users", by_name("John")).unwrap(), vec![kept]);
    assert_eq!(delete_one(&mut db, &mut disk, "users", &gone).unwrap(), None);
}

#[test]
fn cleared_store_holds_nothing() {
    let mut disk = Disk::new();
    let (mut db, ids) = filled(&mut disk, "cleared");
    add_index(&mut db, &mut disk, "users", "name").unwrap();
    insert_one(&mut db, &mut disk, "users", person("Joan", 41)).unwrap();
    insert_one(&mut db, &mut disk, "pets", by_name("Rex")).unwrap();
    clear(&mut db, &mut disk).unwrap();
    assert!(disk.is_empty());
    assert_eq!(find(&db, &mut disk, "users", Document::new()).unwrap(), Vec::<Document>::new());
    assert_eq!(find(&db, &mut disk, "pets", Document::new()).unwrap(), Vec::<Document>::new());
    assert_eq!(find(&db, &mut disk, "users", by_name("Joan")).unwrap(), Vec::<Document>::new());
    let requests = db.find_requests(&"users".to_string(), &by_name("Joan"));
    assert!(matches!(&requests[0], Request::ReadDir { .. }));
    assert_eq!(find_one(&db, &mut disk, "users", &ids[0]).unwrap(), None);
    assert_eq!(delete(&mut db, &mut disk, "users", Document::new()).unwrap(), Vec::<String>::new());
}

#[test]
fn requests_name_the_expected_paths() {
    let mut disk = Disk::new();
    let db = open(&mut disk, "root");
    assert_eq!(db.get_collection_path(&"users".to_string()).unwrap(), "root/users");
    assert_eq!(db.get_document_path(&"users".to_string(), &"abc".to_string()).unwrap(), "root/users/abc.bson");
    assert_eq!(db.get_document_path(&"us.ers".to_string(), &"a b".to_string()).unwrap(), "root/us.ers/a b.bson");
    for name in ["", ".", "..", "../outside", "a/b", "a\\b"] {
        assert!(matches!(
            db.get_collection_path(&name.to_string()),
            Err(DatabaseError::IoError(IoFailure::UnsafeName))
        ));
        assert!(matches!(
            db.get_document_path(&name.to_string(), &"abc".to_string()),
            Err(DatabaseError::IoError(IoFailure::UnsafeName))
        ));
        assert!(matches!(
            db.get_document_path(&"users".to_string(), &name.to_string()),
            Err(DatabaseError::IoError(IoFailure::UnsafeName))
        ));
    }
    let requests = db.add_index_requests(&"users".to_string());
    assert!(matches!(&requests[0], Request::ReadDir { path } if path == "root/users"));
    assert!(db.add_index_requests(&"../users".to_string()).is_empty());
    let requests = Database::init_requests(&"root".to_string());
    assert_eq!(requests.len(), 1);
    assert!(matches!(&requests[0], Request::CreateDirAll { path } if path == "root"));
    let requests = db.clear_requests();
    assert_eq!(requests.len(), 2);
    assert!(matches!(&requests[0], Request::RemoveDirAll { path } if path == "root"));
    assert!(matches!(&requests[1], Request::CreateDirAll { path } if path == "root"));
    let requests = db.delete_one_requests(&"users".to_string(), &"abc".to_string());
    assert!(matches!(&requests[0], Request::RemoveFile { path } if path == "root/users/abc.bson"));
    let requests = db.delete_requests(&"users".to_string());
    assert!(matches!(&requests[0], Request::ReadDir { path } if path == "root/users"));
}

#[test]
fn insertion_writes_the_encoded_document() {
    let mut disk = Disk::new();
    let db = open(&mut disk, "root");
    let mut doc = Document::new();
    doc.insert("a", 1_i32);
    let insertion = db.begin_insert(&"numbers".to_string(), &doc).unwrap();
    assert_eq!(insertion.collection, "numbers");
    assert_eq!(insertion.fields, vec!["a".to_string()]);
    assert_eq!(insertion.requests.len(), 2);
    assert!(matches!(&insertion.requests[0], Request::CreateDirAll { path } if path == "root/numbers"));
    match &insertion.requests[1] {
        Request::WriteFile { path, bytes } => {
            assert_eq!(*path, format!("root/numbers/{}.bson", insertion.id));
            assert_eq!(*bytes, vec![12, 0, 0, 0, 0x10, b'a', 0, 1, 0, 0, 0, 0]);
        }
        _ => panic!("the second request writes the file"),
    }
}

#[test]
fn lookup_decodes_what_the_file_holds() {
    let mut disk = Disk::new();
    let db = open(&mut disk, "root");
    let answers = vec![Response::Content(vec![12, 0, 0, 0, 0x10, b'a', 0, 1, 0, 0, 0, 0])];
    let mut doc = Document::new();
    doc.insert("a", 1_i32);
    assert_eq!(db.find_one("numbers".to_string(), "abc".to_string(), &answers).unwrap(), Some(doc));
}

#[test]
fn unsafe_names_are_refused() {
    let mut disk = Disk::new();
    let mut db = open(&mut disk, "root");
    for name in ["", ".", "..", "../x", "a/b", "a\\b", "a\0b"] {
        assert!(db.find_requests(&name.to_string(), &Document::new()).is_empty());
        assert!(db.delete_requests(&name.to_string()).is_empty());
        assert!(db.find_one_requests(&name.to_string(), &"abc".to_string()).is_empty());
        assert!(db.find_one_requests(&"users".to_string(), &name.to_string()).is_empty());
        assert!(db.delete_one_requests(&"users".to_string(), &name.to_string()).is_empty());
        assert!(matches!(
            insert_one(&mut db, &mut disk, name, person("John", 30)),
            Err(DatabaseError::IoError(IoFailure::UnsafeName))
        ));
        assert!(matches!(find(&db, &mut disk, name, Document::new()), Err(DatabaseError::IoError(IoFailure::UnsafeName))));
        assert!(matches!(find_one(&db, &mut disk, "users", name), Err(DatabaseError::IoError(IoFailure::UnsafeName))));
        assert!(matches!(
            delete_one(&mut db, &mut disk, name, "abc"),
            Err(DatabaseError::IoError(IoFailure::UnsafeName))
        ));
        assert!(matches!(
            delete(&mut db, &mut disk, name, Document::new()),
            Err(DatabaseError::IoError(IoFailure::UnsafeName))
        ));
    }
    assert!(disk.is_empty());
    assert!(insert_one(&mut db, &mut disk, "..users", person("John", 30)).is_ok());
    assert!(insert_one(&mut db, &mut disk, "us.ers", person("John", 30)).is_ok());
}

#[test]
fn failures_of_the_file_system_are_reported() {
    let mut disk = Disk::new();
    let mut db = open(&mut disk, "root");
    let denied = || Response::Failed(IoFailure::Other { message: "permission denied".to_string() });
    let is_denied = |e: &DatabaseError| matches!(e, DatabaseError::IoError(IoFailure::Other { message }) if message == "permission denied");

    assert!(is_denied(&Database::init("root".to_string(), &vec![denied()]).unwrap_err()));
    assert!(matches!(
        Database::init("root".to_string(), &vec![not_found()]).unwrap_err(),
        DatabaseError::IoError(IoFailure::NotFound { .. })
    ));
    assert!(is_denied(&db.clear(&vec![denied()]).unwrap_err()));
    assert!(is_denied(&db.clear(&vec![Response::Done, denied()]).unwrap_err()));

    add_index(&mut db, &mut disk, "users", "name").unwrap();
    let insertion = db.begin_insert(&"users".to_string(), &person("John", 30)).unwrap();
    assert!(is_denied(&db.insert_one(insertion, &vec![Response::Done, denied()]).unwrap_err()));
    let insertion = db.begin_insert(&"users".to_string(), &person("John", 30)).unwrap();
    assert!(is_denied(&db.insert_one(insertion, &vec![denied()]).unwrap_err()));
    assert!(db.find_requests(&"users".to_string(), &by_name("John")).is_empty());

    assert!(is_denied(&db.find_one("users".to_string(), "abc".to_string(), &vec![denied()]).unwrap_err()));
    assert!(is_denied(&db.find("users".to_string(), Document::new(), &vec![denied()]).unwrap_err()));
    assert!(is_denied(&db.delete_one("users".to_string(), "abc".to_string(), &vec![denied()]).unwrap_err()));
    assert!(is_denied(&db.begin_delete(&"users".to_string(), &Document::new(), &vec![denied()]).unwrap_err()));
}

#[test]
fn broken_exchanges_are_reported() {
    let mut disk = Disk::new();
    let mut db = open(&mut disk, "root");
    let broken = |e: DatabaseError| matches!(e, DatabaseError::IoError(IoFailure::BrokenExchange));
    assert!(broken(Database::init("root".to_string(), &vec![]).unwrap_err()));
    assert!(broken(Database::init("root".to_string(), &vec![Response::Content(vec![])]).unwrap_err()));
    assert!(broken(db.clear(&vec![Response::Done]).unwrap_err()));
    let insertion = db.begin_insert(&"users".to_string(), &person("John", 30)).unwrap();
    assert!(broken(db.insert_one(insertion, &vec![Response::Done]).unwrap_err()));
    assert!(broken(db.find_one("users".to_string(), "abc".to_string(), &vec![]).unwrap_err()));
    assert!(broken(db.find_one("users".to_string(), "abc".to_string(), &vec![Response::Done]).unwrap_err()));
    assert!(broken(db.find("users".to_string(), Document::new(), &vec![Response::Done]).unwrap_err()));
    assert!(broken(db.delete_one("users".to_string(), "abc".to_string(), &vec![]).unwrap_err()));
    assert!(broken(db.delete_one("users".to_string(), "abc".to_string(), &vec![Response::Entries(vec![])]).unwrap_err()));
    assert!(broken(db.begin_delete(&"users".to_string(), &Document::new(), &vec![]).unwrap_err()));
    assert!(broken(db.begin_delete(&"users".to_string(), &Document::new(), &vec![Response::Done]).unwrap_err()));
}

#[test]
fn corrupt_files_are_reported() {
    let mut disk = Disk::new();
    let (mut db, _) = filled(&mut disk, "corrupt");
    disk.insert("data_tests/corrupt/users/zzz.bson".to_string(), vec![1, 2, 3]);
    assert!(matches!(find_one(&db, &mut disk, "users", "zzz"), Err(DatabaseError::BsonDeError(_))));
    assert!(matches!(find(&db, &mut disk, "users", Document::new()), Err(DatabaseError::BsonDeError(_))));
    assert!(matches!(delete(&mut db, &mut disk, "users", by_name("Nobody")), Err(DatabaseError::BsonDeError(_))));
    assert_eq!(disk.len(), 4);
}

#[test]
fn documents_that_cannot_be_encoded_are_reported() {
    let mut disk = Disk::new();
    let mut db = open(&mut disk, "root");
    let mut doc = Document::new();
    doc.insert("bad\0key", 1_i32);
    assert!(matches!(insert_one(&mut db, &mut disk, "users", doc), Err(DatabaseError::BsonSerError(_))));
    assert!(disk.is_empty());
}

#[test]
fn failed_insertion_leaves_the_index_alone() {
    let mut disk = Disk::new();
    let mut db = open(&mut disk, "root");
    add_index(&mut db, &mut disk, "users", "name").unwrap();
    let kept = insert_one(&mut db, &mut disk, "users", person("John", 30)).unwrap();
    let insertion = db.begin_insert(&"users".to_string(), &person("John", 25)).unwrap();
    let failed = vec![Response::Done, Response::Failed(IoFailure::Other { message: "disk full".to_string() })];
    assert!(db.insert_one(insertion, &failed).is_err());
    let requests = db.find_requests(&"users".to_string(), &by_name("John"));
    assert_eq!(requests.len(), 1);
    assert!(matches!(&requests[0], Request::ReadFile { path } if *path == format!("root/users/{}.bson", kept)));
}

#[test]
fn deletion_by_query_stops_at_the_first_failure() {
    let mut disk = Disk::new();
    let mut db = open(&mut disk, "root");
    add_index(&mut db, &mut disk, "users", "name").unwrap();
    let mut ids = Vec::new();
    for doc in test_documents() {
        ids.push(insert_one(&mut db, &mut disk, "users", doc).unwrap());
    }
    let entries = vec![
        DirEntry { name: format!("{}.bson", ids[0]), content: disk[&format!("root/users/{}.bson", ids[0])].clone() },
        DirEntry { name: format!("{}.bson", ids[1]), content: disk[&format!("root/users/{}.bson", ids[1])].clone() },
        DirEntry { name: format!("{}.bson", ids[2]), content: disk[&format!("root/users/{}.bson", ids[2])].clone() },
    ];
    let deletion = db.begin_delete(&"users".to_string(), &by_name("John"), &vec![Response::Entries(entries)]).unwrap();
    assert_eq!(deletion.names, vec![format!("{}.bson", ids[0]), format!("{}.bson", ids[2])]);
    assert_eq!(deletion.requests.len(), 2);
    assert!(matches!(&deletion.requests[0], Request::RemoveFile { path } if *path == format!("root/users/{}.bson", ids[0])));
    assert!(matches!(&deletion.requests[1], Request::RemoveFile { path } if *path == format!("root/users/{}.bson", ids[2])));
    let answers = vec![Response::Done, Response::Failed(IoFailure::Other { message: "busy".to_string() })];
    assert!(matches!(db.delete(deletion, &answers), Err(DatabaseError::IoError(IoFailure::Other { .. }))));
    let requests = db.find_requests(&"users".to_string(), &by_name("John"));
    assert_eq!(requests.len(), 2);
    assert!(matches!(&requests[0], Request::ReadFile { path } if *path == format!("root/users/{}.bson", ids[1])));
    assert!(matches!(&requests[1], Request::ReadFile { path } if *path == format!("root/users/{}.bson", ids[2])));
}

#[test]
fn missing_file_fails_a_deletion_by_query() {
    let mut disk = Disk::new();
    let (db, ids) = filled(&mut disk, "vanished");
    let mut db = db;
    let listing = perform_all(&mut disk, &db.delete_requests(&"users".to_string()));
    let deletion = db.begin_delete(&"users".to_string(), &by_name("John"), &listing).unwrap();
    disk.remove(&format!("data_tests/vanished/users/{}.bson", ids[0]));
    disk.remove(&format!("data_tests/vanished/users/{}.bson", ids[2]));
    let answers = perform_all(&mut disk, &deletion.requests);
    assert_eq!(answers.len(), 1);
    assert!(matches!(db.delete(deletion, &answers), Err(DatabaseError::IoError(IoFailure::NotFound { .. }))));
}

#[test]
fn stale_index_entries_are_skipped() {
    let mut disk = Disk::new();
    let mut db = open(&mut disk, "root");
    add_index(&mut db, &mut disk, "users", "name").unwrap();
    let first = insert_one(&mut db, &mut disk, "users", person("John", 30)).unwrap();
    insert_one(&mut db, &mut disk, "users", person("John", 25)).unwrap();
    disk.remove(&format!("root/users/{}.bson", first));
    assert_eq!(find(&db, &mut disk, "users", by_name("John")).unwrap(), vec![person("John", 25)]);
}

#[test]
fn values_are_compared_without_coercion() {
    let mut disk = Disk::new();
    let mut db = open(&mut disk, "root");
    let mut doc = Document::new();
    doc.insert("n", 1_i32);
    doc.insert("inner", by_name("x"));
    insert_one(&mut db, &mut disk, "things", doc.clone()).unwrap();
    let mut wide = Document::new();
    wide.insert("n", 1_i64);
    assert_eq!(find(&db, &mut disk, "things", wide).unwrap(), Vec::<Document>::new());
    let mut text = Document::new();
    text.insert("n", "1");
    assert_eq!(find(&db, &mut disk, "things", text).unwrap(), Vec::<Document>::new());
    let mut inner = Document::new();
    inner.insert("inner", by_name("x"));
    assert_eq!(find(&db, &mut disk, "things", inner).unwrap(), vec![doc.clone()]);
    let mut other_inner = Document::new();
    other_inner.insert("inner", by_name("y"));
    assert_eq!(find(&db, &mut disk, "things", other_inner).unwrap(), Vec::<Document>::new());
    let mut absent = Document::new();
    absent.insert("missing", Bson::Null);
    assert_eq!(find(&db, &mut disk, "things", absent).unwrap(), Vec::<Document>::new());
}

#[test]
fn index_declared_late_holds_what_is_stored() {
    let mut disk = Disk::new();
    let (mut db, ids) = filled(&mut disk, "late");
    let mut mailed = person("Joan", 41);
    mailed.insert("email", "joan@example.org");
    let joan = insert_one(&mut db, &mut disk, "users", mailed.clone()).unwrap();
    add_index(&mut db, &mut disk, "users", "name").unwrap();
    add_index(&mut db, &mut disk, "users", "email").unwrap();
    let requests = db.find_requests(&"users".to_string(), &by_name("John"));
    let mut read: Vec<String> = Vec::new();
    for request in &requests {
        match request {
            Request::ReadFile { path } => read.push(path.clone()),
            _ => panic!("the index narrows the query"),
        }
    }
    read.sort();
    let mut expected: Vec<String> = ids.iter().map(|id| format!("data_tests/late/users/{}.bson", id)).collect();
    expected.push(format!("data_tests/late/users/{}.bson", joan));
    expected.sort();
    assert_eq!(read, expected);
    let mut johns = find(&db, &mut disk, "users", by_name("John")).unwrap();
    johns.sort_by_key(|d| d.to_string());
    assert_eq!(johns, vec![person("John", 25), person("John", 30)]);
    let mut mail = Document::new();
    mail.insert("email", "joan@example.org");
    let requests = db.find_requests(&"users".to_string(), &mail);
    assert_eq!(requests.len(), 1);
    assert!(matches!(&requests[0], Request::ReadFile { path } if *path == format!("data_tests/late/users/{}.bson", joan)));
    assert_eq!(find(&db, &mut disk, "users", mail).unwrap(), vec![mailed]);
}

#[test]
fn index_is_not_declared_where_the_collection_cannot_be_read() {
    let mut disk = Disk::new();
    let (mut db, _) = filled(&mut disk, "unread");
    assert!(matches!(add_index(&mut db, &mut disk, "../users", "name"), Err(DatabaseError::IoError(IoFailure::UnsafeName))));
    assert!(matches!(
        db.add_index("users".to_string(), "name".to_string(), &vec![]),
        Err(DatabaseError::IoError(IoFailure::BrokenExchange))
    ));
    assert!(matches!(
        db.add_index("users".to_string(), "name".to_string(), &vec![Response::Done]),
        Err(DatabaseError::IoError(IoFailure::BrokenExchange))
    ));
    assert!(matches!(
        db.add_index("users".to_string(), "name".to_string(), &vec![Response::Failed(IoFailure::Other { message: "no".to_string() })]),
        Err(DatabaseError::IoError(IoFailure::Other { .. }))
    ));
    disk.insert("data_tests/unread/users/broken.bson".to_string(), vec![7]);
    assert!(matches!(add_index(&mut db, &mut disk, "users", "name"), Err(DatabaseError::BsonDeError(_))));
    disk.remove("data_tests/unread/users/broken.bson");
    disk.insert("data_tests/unread/users/..bson".to_string(), disk.values().next().unwrap().clone());
    assert!(matches!(add_index(&mut db, &mut disk, "users", "name"), Err(DatabaseError::IoError(IoFailure::UnsafeName))));
    assert!(matches!(rebuild_index(&mut db, &mut disk, "users"), Err(DatabaseError::IoError(IoFailure::UnsafeName))));
    let requests = db.find_requests(&"users".to_string(), &by_name("John"));
    assert!(matches!(&requests[0], Request::ReadDir { .. }));
    add_index(&mut db, &mut disk, "cars", "name").unwrap();
    assert!(db.find_requests(&"cars".to_string(), &by_name("John")).is_empty());
}

#[test]
fn insertion_under_a_given_identifier() {
    let mut disk = Disk::new();
    let mut db = open(&mut disk, "root");
    add_index(&mut db, &mut disk, "users", "name").unwrap();
    let users = "users".to_string();
    let insertion = db.prepare_insert(&users, &person("John", 30), "abc".to_string()).unwrap();
    assert_eq!(insertion.id, "abc");
    assert_eq!(insertion.collection, "users");
    assert_eq!(insertion.fields, vec!["name".to_string(), "age".to_string()]);
    assert!(matches!(&insertion.requests[0], Request::CreateDirAll { path } if path == "root/users"));
    assert!(matches!(&insertion.requests[1], Request::WriteFile { path, .. } if path == "root/users/abc.bson"));
    let answers = perform_all(&mut disk, &insertion.requests);
    assert_eq!(db.insert_one(insertion, &answers).unwrap(), "abc");
    assert_eq!(find_one(&db, &mut disk, "users", "abc").unwrap(), Some(person("John", 30)));
    for id in ["", "..", "a/b", "../../abc"] {
        assert!(matches!(
            db.prepare_insert(&users, &person("John", 30), id.to_string()),
            Err(DatabaseError::IoError(IoFailure::UnsafeName))
        ));
    }
    assert!(matches!(
        db.prepare_insert(&"a/b".to_string(), &person("John", 30), "abc".to_string()),
        Err(DatabaseError::IoError(IoFailure::UnsafeName))
    ));
    let mut doc = Document::new();
    doc.insert("bad\0key", 1_i32);
    assert!(matches!(db.prepare_insert(&users, &doc, "abc".to_string()), Err(DatabaseError::BsonSerError(_))));
}

#[test]
fn forged_insertion_is_refused() {
    let mut disk = Disk::new();
    let mut db = open(&mut disk, "root");
    add_index(&mut db, &mut disk, "users", "name").unwrap();
    let mut insertion = db.begin_insert(&"users".to_string(), &person("John", 30)).unwrap();
    insertion.id = "../../elsewhere".to_string();
    assert!(matches!(
        db.insert_one(insertion, &vec![Response::Done, Response::Done]),
        Err(DatabaseError::IoError(IoFailure::UnsafeName))
    ));
    let mut insertion = db.begin_insert(&"users".to_string(), &person("John", 30)).unwrap();
    insertion.collection = "..".to_string();
    assert!(matches!(
        db.insert_one(insertion, &vec![Response::Done, Response::Done]),
        Err(DatabaseError::IoError(IoFailure::UnsafeName))
    ));
    assert!(db.find_requests(&"users".to_string(), &by_name("John")).is_empty());
}

#[test]
fn query_with_too_few_or_too_many_answers_is_a_broken_exchange() {
    let mut disk = Disk::new();
    let (mut db, _) = filled(&mut disk, "counted");
    let broken = |r: Result<Vec<Document>, DatabaseError>| matches!(r, Err(DatabaseError::IoError(IoFailure::BrokenExchange)));
    assert!(broken(db.find("users".to_string(), by_name("John"), &vec![])));
    let listing = perform_all(&mut disk, &db.find_requests(&"users".to_string(), &by_name("John")));
    let mut twice = perform_all(&mut disk, &db.find_requests(&"users".to_string(), &by_name("John")));
    twice.extend(perform_all(&mut disk, &db.find_requests(&"users".to_string(), &by_name("John"))));
    assert!(broken(db.find("users".to_string(), by_name("John"), &twice)));
    assert_eq!(db.find("users".to_string(), by_name("John"), &listing).unwrap().len(), 2);
    add_index(&mut db, &mut disk, "users", "name").unwrap();
    let mut reads = perform_all(&mut disk, &db.find_requests(&"users".to_string(), &by_name("John")));
    assert_eq!(reads.len(), 3);
    reads.pop();
    assert!(broken(db.find("users".to_string(), by_name("John"), &reads)));
    assert!(broken(db.find("users".to_string(), by_name("John"), &listing)));
}

#[test]
fn deletion_refuses_a_file_with_an_unsafe_name() {
    let mut disk = Disk::new();
    let (db, _) = filled(&mut disk, "names");
    let content = disk.values().next().unwrap().clone();
    let listing = vec![Response::Entries(vec![DirEntry { name: "../elsewhere.bson".to_string(), content }])];
    assert!(matches!(
        db.begin_delete(&"users".to_string(), &Document::new(), &listing),
        Err(DatabaseError::IoError(IoFailure::UnsafeName))
    ));
    assert!(db.begin_delete(&"users".to_string(), &by_name("Nobody"), &listing).unwrap().requests.is_empty());
}

#[test]
fn rebuilding_drops_what_is_not_stored() {
    let mut disk = Disk::new();
    let mut db = open(&mut disk, "root");
    add_index(&mut db, &mut disk, "users", "name").unwrap();
    add_index(&mut db, &mut disk, "users", "email").unwrap();
    add_index(&mut db, &mut disk, "pets", "name").unwrap();
    let john = insert_one(&mut db, &mut disk, "users", person("John", 30)).unwrap();
    let jane = insert_one(&mut db, &mut disk, "users", person("Jane", 25)).unwrap();
    let rex = insert_one(&mut db, &mut disk, "pets", by_name("Rex")).unwrap();
    disk.remove(&format!("root/users/{}.bson", john));
    rebuild_index(&mut db, &mut disk, "users").unwrap();
    let requests = db.find_requests(&"users".to_string(), &by_name("x"));
    assert_eq!(requests.len(), 1);
    assert!(matches!(&requests[0], Request::ReadFile { path } if *path == format!("root/users/{}.bson", jane)));
    let mut mail = Document::new();
    mail.insert("email", "x");
    assert!(db.find_requests(&"users".to_string(), &mail).is_empty());
    let requests = db.find_requests(&"pets".to_string(), &by_name("x"));
    assert!(matches!(&requests[0], Request::ReadFile { path } if *path == format!("root/pets/{}.bson", rex)));
    rebuild_index(&mut db, &mut disk, "cars").unwrap();
    assert!(matches!(rebuild_index(&mut db, &mut disk, ".."), Err(DatabaseError::IoError(IoFailure::UnsafeName))));
    disk.insert("root/pets/broken.bson".to_string(), vec![7]);
    assert!(matches!(rebuild_index(&mut db, &mut disk, "pets"), Err(DatabaseError::BsonDeError(_))));
    let requests = db.find_requests(&"pets".to_string(), &by_name("x"));
    assert_eq!(requests.len(), 1);
    assert!(matches!(
        db.rebuild_index(&"pets".to_string(), &vec![]),
        Err(DatabaseError::IoError(IoFailure::BrokenExchange))
    ));
    assert!(matches!(
        db.rebuild_index(&"pets".to_string(), &vec![Response::Failed(IoFailure::Other { message: "no".to_string() })]),
        Err(DatabaseError::IoError(IoFailure::Other { .. }))
    ));
}
