//! What holds of the store as a whole, proved from the contracts of its
//! operations and the model of a healthy disk.

use vstd::prelude::*;
use crate::db::{clear_plan, delete_one_failure, deletion_choice, described, find_one_outcome};
use crate::db::{find_outcome, find_plan, ids_of, insertion_plan, read_of, rebuild_listing};
use crate::db::{scan_plan, single_plan, Database};
use crate::disk::{all_below, answers_to, effects, holds_nothing, is_entry_name};
use crate::disk::{lemma_reads_change_nothing, listed, lists, only_reads, serves};
use crate::document::{decoding, document_keys, encoding, holds_field, satisfies};
use crate::error::DatabaseError;
use crate::db::removal_of;
use crate::exchange::{contents_of, delivered, DirEntry, RequestView, Response};
use crate::exchange::{lemma_all_done, objection, refusal, served};
use crate::path::lemma_entry_path_injective;
use crate::identifier::{is_identifier, lemma_identifier_is_safe};
use crate::db::{all_safe, ids_are_safe, insert_failure};
use crate::index::{applies, common_to_applying, declared, first_applying, has_field, ids_having};
use crate::index::{in_every_applying, lemma_first_applying, narrowed, other_than, recorded};
use crate::index::{with_declared, with_forgotten, with_rebuilt, with_recorded, FieldIndexView};
use crate::index::{is_entry_of, StoredView};
use crate::path::{collection_path, document_file_name, document_path, entry_path, extension};
use crate::path::{is_plain_char, is_safe_name, lemma_collections_apart};
use crate::path::{lemma_document_id_of_file_name, lemma_document_path_injective};
use crate::path::lemma_entry_lies_below_root;
use crate::query::{decode_fault, document_of, documents_of, doomed, found_in, holds_match};
use crate::query::{lemma_doomed_none, lemma_doomed_push, lemma_selected_none, meets, selected};

verus! {

/// Every file of the collection's directory holds a document.
pub open spec fn collection_decodes(
    files: Map<Seq<char>, Seq<u8>>,
    root: Seq<char>,
    collection: Seq<char>,
) -> bool {
    forall|name: Seq<char>| #[trigger]
        listed(files, collection_path(root, collection), name) ==> decoding(
            files[entry_path(collection_path(root, collection), name)],
        ) is Ok
}

/// Contents that all decode have no decoding failure.
pub proof fn lemma_no_decode_fault(contents: Seq<Seq<u8>>)
    requires
        forall|j: int| 0 <= j < contents.len() ==> decoding(#[trigger] contents[j]) is Ok,
    ensures
        decode_fault(contents) is None,
    decreases contents.len(),
{
    if contents.len() > 0 {
        assert forall|j: int| 0 <= j < contents.drop_last().len() implies decoding(
            #[trigger] contents.drop_last()[j],
        ) is Ok by {
            assert(contents.drop_last()[j] == contents[j]);
        }
        lemma_no_decode_fault(contents.drop_last());
        assert(contents.last() == contents[contents.len() - 1]);
    }
}

/// The content at `j` decodes to `doc`, and `doc` meets the query.
pub open spec fn chosen_at(
    contents: Seq<Seq<u8>>,
    query: bson::Document,
    j: int,
    doc: bson::Document,
) -> bool {
    0 <= j < contents.len() && document_of(contents[j]) == doc && satisfies(doc, query)
}

/// Where all contents decode, the documents selected are exactly those that
/// some content decodes to and that meet the query.
pub proof fn lemma_selected_members(contents: Seq<Seq<u8>>, query: bson::Document)
    requires
        decode_fault(contents) is None,
    ensures
        selected(contents, query) is Ok,
        forall|doc: bson::Document|
            selected(contents, query)->Ok_0.contains(doc) <==> exists|j: int| #[trigger]
                chosen_at(contents, query, j, doc),
{
    let all = documents_of(contents);
    let docs = all.filter(meets(query));
    assert forall|doc: bson::Document| docs.contains(doc) implies exists|j: int| #[trigger]
        chosen_at(contents, query, j, doc) by {
        all.lemma_filter_contains_rev(meets(query), doc);
        let k = choose|k: int| 0 <= k < docs.len() && docs[k] == doc;
        all.lemma_filter_pred(meets(query), k);
        let j = choose|j: int| 0 <= j < all.len() && all[j] == doc;
        assert(chosen_at(contents, query, j, doc));
    }
    assert forall|doc: bson::Document| (exists|j: int| #[trigger]
        chosen_at(contents, query, j, doc)) implies docs.contains(doc) by {
        let j = choose|j: int| #[trigger] chosen_at(contents, query, j, doc);
        assert(all[j] == doc);
        all.lemma_filter_contains(meets(query), j);
    }
}

/// Every answer is one to a read that was served, and what was read decodes.
pub open spec fn reads_well(answers: Seq<Response>) -> bool {
    forall|i: int|
        0 <= i < answers.len() ==> delivered(#[trigger] answers[i]) is Ok && decode_fault(
            delivered(answers[i])->Ok_0,
        ) is None
}

/// The answer at `i` delivers, at its place `j`, a content that decodes to
/// `doc`, and `doc` meets the query.
pub open spec fn found_at(
    answers: Seq<Response>,
    query: bson::Document,
    i: int,
    j: int,
    doc: bson::Document,
) -> bool {
    0 <= i < answers.len() && delivered(answers[i]) is Ok && chosen_at(
        delivered(answers[i])->Ok_0,
        query,
        j,
        doc,
    )
}

/// Where every read was served and decodes, the documents found are exactly
/// those that were delivered and meet the query.
pub proof fn lemma_found_in_members(answers: Seq<Response>, query: bson::Document)
    requires
        reads_well(answers),
    ensures
        found_in(answers, query) is Ok,
        forall|doc: bson::Document|
            found_in(answers, query)->Ok_0.contains(doc) <==> exists|i: int, j: int| #[trigger]
                found_at(answers, query, i, j, doc),
    decreases answers.len(),
{
    if answers.len() > 0 {
        let front = answers.drop_last();
        let last = answers.last();
        assert(last == answers[answers.len() - 1]);
        assert(reads_well(front)) by {
            assert forall|i: int| 0 <= i < front.len() implies delivered(#[trigger] front[i]) is Ok
                && decode_fault(delivered(front[i])->Ok_0) is None by {
                assert(front[i] == answers[i]);
            }
        }
        lemma_found_in_members(front, query);
        let contents = delivered(last)->Ok_0;
        lemma_selected_members(contents, query);
        let before = found_in(front, query)->Ok_0;
        let docs = selected(contents, query)->Ok_0;
        assert(found_in(answers, query) == Ok::<Seq<bson::Document>, DatabaseError>(before + docs));
        assert forall|doc: bson::Document| (before + docs).contains(doc) implies exists|
            i: int,
            j: int,
        | #[trigger] found_at(answers, query, i, j, doc) by {
            let k = choose|k: int| 0 <= k < (before + docs).len() && (before + docs)[k] == doc;
            if k < before.len() {
                assert(before[k] == doc);
                assert(before.contains(doc));
                let (i, j) = choose|i: int, j: int| #[trigger] found_at(front, query, i, j, doc);
                assert(front[i] == answers[i]);
                assert(found_at(answers, query, i, j, doc));
            } else {
                assert(docs[k - before.len()] == doc);
                assert(docs.contains(doc));
                let j = choose|j: int| #[trigger] chosen_at(contents, query, j, doc);
                assert(found_at(answers, query, answers.len() - 1, j, doc));
            }
        }
        assert forall|doc: bson::Document| (exists|i: int, j: int| #[trigger]
            found_at(answers, query, i, j, doc)) implies (before + docs).contains(doc) by {
            let (i, j) = choose|i: int, j: int| #[trigger] found_at(answers, query, i, j, doc);
            if i < answers.len() - 1 {
                assert(front[i] == answers[i]);
                assert(found_at(front, query, i, j, doc));
                assert(before.contains(doc));
                let k = choose|k: int| 0 <= k < before.len() && before[k] == doc;
                assert((before + docs)[k] == doc);
            } else {
                assert(chosen_at(contents, query, j, doc));
                assert(docs.contains(doc));
                let k = choose|k: int| 0 <= k < docs.len() && docs[k] == doc;
                assert((before + docs)[before.len() + k] == doc);
            }
        }
    }
}

/// The collection holds a file named `name` whose document is `doc`, and
/// `doc` meets the query.
pub open spec fn stored_match(
    files: Map<Seq<char>, Seq<u8>>,
    root: Seq<char>,
    collection: Seq<char>,
    query: bson::Document,
    name: Seq<char>,
    doc: bson::Document,
) -> bool {
    let dir = collection_path(root, collection);
    listed(files, dir, name) && document_of(files[entry_path(dir, name)]) == doc && satisfies(
        doc,
        query,
    )
}

/// The name of a document's file: a safe name, followed by `.bson`.
pub open spec fn is_document_file(name: Seq<char>) -> bool {
    &&& name.len() > 5
    &&& is_safe_name(name.take(name.len() - 5))
    &&& name == document_file_name(name.take(name.len() - 5))
}

/// The collection's directory holds nothing but the files of documents.
pub open spec fn holds_only_documents(
    files: Map<Seq<char>, Seq<u8>>,
    root: Seq<char>,
    collection: Seq<char>,
) -> bool {
    forall|name: Seq<char>| #[trigger]
        listed(files, collection_path(root, collection), name) ==> is_document_file(name)
}

/// The index agrees with the disk on a collection: every stored document of
/// the collection that has a safe identifier and an indexed field stands
/// under that field.
pub open spec fn index_agrees(
    entries: Seq<FieldIndexView>,
    files: Map<Seq<char>, Seq<u8>>,
    root: Seq<char>,
    collection: Seq<char>,
) -> bool {
    forall|i: int, id: Seq<char>|
        0 <= i < entries.len() && (#[trigger] entries[i]).collection == collection && is_safe_name(
            id,
        ) && files.contains_key(#[trigger] document_path(root, collection, id)) && document_keys(
            document_of(files[document_path(root, collection, id)]),
        ).contains(entries[i].field) ==> entries[i].ids.contains(id)
}

/// The name of a document's file is a safe name.
pub proof fn lemma_document_file_is_safe(name: Seq<char>)
    requires
        is_document_file(name),
    ensures
        is_safe_name(name),
{
    let stem = name.take(name.len() - 5);
    assert forall|i: int| 0 <= i < name.len() implies is_plain_char(#[trigger] name[i]) by {
        if i < stem.len() {
            assert(name[i] == stem[i]);
            assert(is_plain_char(stem[i]));
        } else {
            assert(name[i] == extension()[i - stem.len()]);
        }
    }
}

/// A safe identifier makes the name of a file.
pub proof fn lemma_file_name_is_entry_name(id: Seq<char>)
    requires
        is_safe_name(id),
    ensures
        is_entry_name(document_file_name(id)),
{
    let name = document_file_name(id);
    assert forall|i: int| 0 <= i < name.len() implies #[trigger] name[i] != '/' by {
        if i < id.len() {
            assert(is_plain_char(id[i]));
        } else {
            assert(name[i] == extension()[i - id.len()]);
        }
    }
}

/// The whole directory, read from a healthy disk whose files all decode,
/// gives exactly the stored documents that meet the query.
pub proof fn lemma_scan_finds_all(
    files: Map<Seq<char>, Seq<u8>>,
    root: Seq<char>,
    collection: Seq<char>,
    query: bson::Document,
    answers: Seq<Response>,
)
    requires
        collection_decodes(files, root, collection),
        serves(files, seq![RequestView::ReadDir { path: collection_path(root, collection) }], answers),
    ensures
        found_in(answers, query) is Ok,
        forall|doc: bson::Document|
            found_in(answers, query)->Ok_0.contains(doc) <==> exists|name: Seq<char>| #[trigger]
                stored_match(files, root, collection, query, name, doc),
{
    let dir = collection_path(root, collection);
    let requests = seq![RequestView::ReadDir { path: dir }];
    assert(requests.take(0) =~= Seq::<RequestView>::empty());
    assert(effects(files, requests.take(0)) == files);
    assert(answers_to(files, requests[0], answers[0]));
    let contents = delivered(answers[0])->Ok_0;
    assert(delivered(answers[0]) is Ok);
    assert forall|j: int| 0 <= j < contents.len() implies
        decoding(#[trigger] contents[j]) is Ok by {
        match answers[0] {
            Response::Entries(entries) => {
                assert(listed(files, dir, entries@[j].name@));
                assert(files.contains_key(entry_path(dir, entries@[j].name@)));
            },
            _ => {},
        }
    }
    lemma_no_decode_fault(contents);
    assert(reads_well(answers));
    lemma_found_in_members(answers, query);
    let found = found_in(answers, query)->Ok_0;
    assert forall|doc: bson::Document| found.contains(doc) implies exists|name: Seq<char>| #[trigger]
        stored_match(files, root, collection, query, name, doc) by {
        let (i, j) = choose|i: int, j: int| #[trigger] found_at(answers, query, i, j, doc);
        match answers[0] {
            Response::Entries(entries) => {
                assert(listed(files, dir, entries@[j].name@));
                assert(stored_match(files, root, collection, query, entries@[j].name@, doc));
            },
            _ => {},
        }
    }
    assert forall|doc: bson::Document| (exists|name: Seq<char>| #[trigger]
        stored_match(files, root, collection, query, name, doc)) implies found.contains(doc) by {
        let name = choose|name: Seq<char>| #[trigger]
            stored_match(files, root, collection, query, name, doc);
        assert(listed(files, dir, name));
        match answers[0] {
            Response::Entries(entries) => {
                assert(lists(files, dir, entries@));
                let j = choose|j: int|
                    0 <= j < entries@.len() && (#[trigger] entries@[j]).name@ == name;
                assert(0 <= j < entries@.len() && entries@[j].name@ == name);
                assert(contents[j] == entries@[j].content@);
                assert(found_at(answers, query, 0, j, doc));
                assert(found.contains(doc));
            },
            Response::Failed(failure) => {
                assert(holds_nothing(files, dir));
                assert(!listed(files, dir, name));
            },
            _ => {
                assert(false);
            },
        }
    }
}

/// The files that the index narrows a query to, read from a healthy disk
/// whose files all decode, give exactly the stored documents that meet the
/// query, where the index agrees with the disk.
pub proof fn lemma_index_finds_all(
    files: Map<Seq<char>, Seq<u8>>,
    root: Seq<char>,
    entries: Seq<FieldIndexView>,
    collection: Seq<char>,
    query: bson::Document,
    answers: Seq<Response>,
)
    requires
        collection_decodes(files, root, collection),
        holds_only_documents(files, root, collection),
        index_agrees(entries, files, root, collection),
        narrowed(entries, collection, document_keys(query)) is Some,
        serves(
            files,
            narrowed(entries, collection, document_keys(query))->Some_0.map_values(
                read_of(root, collection),
            ),
            answers,
        ),
    ensures
        found_in(answers, query) is Ok,
        forall|doc: bson::Document|
            found_in(answers, query)->Ok_0.contains(doc) <==> exists|name: Seq<char>| #[trigger]
                stored_match(files, root, collection, query, name, doc),
{
    let dir = collection_path(root, collection);
    let fields = document_keys(query);
    let ids = narrowed(entries, collection, fields)->Some_0;
    let requests = ids.map_values(read_of(root, collection));
    let first = first_applying(entries, collection, fields)->Some_0;
    let common = common_to_applying(entries, collection, fields);
    lemma_first_applying(entries, collection, fields);
    assert(ids == entries[first].ids.filter(common));
    assert forall|i: int| 0 <= i < requests.len() implies answers_to(
        files,
        requests[i],
        #[trigger] answers[i],
    ) by {
        assert(only_reads(requests.take(i)));
        lemma_reads_change_nothing(files, requests.take(i));
    }
    assert forall|i: int| 0 <= i < answers.len() implies delivered(#[trigger] answers[i]) is Ok
        && decode_fault(delivered(answers[i])->Ok_0) is None by {
        assert(answers_to(files, requests[i], answers[i]));
        assert(ids.contains(ids[i]));
        entries[first].ids.lemma_filter_pred(common, i);
        lemma_file_name_is_entry_name(ids[i]);
        if files.contains_key(document_path(root, collection, ids[i])) {
            assert(listed(files, dir, document_file_name(ids[i])));
        }
        lemma_no_decode_fault(delivered(answers[i])->Ok_0);
    }
    lemma_found_in_members(answers, query);
    let found = found_in(answers, query)->Ok_0;
    assert forall|doc: bson::Document| found.contains(doc) implies exists|name: Seq<char>| #[trigger]
        stored_match(files, root, collection, query, name, doc) by {
        let (i, j) = choose|i: int, j: int| #[trigger] found_at(answers, query, i, j, doc);
        assert(answers_to(files, requests[i], answers[i]));
        let id = ids[i];
        entries[first].ids.lemma_filter_pred(common, i);
        lemma_file_name_is_entry_name(id);
        assert(stored_match(files, root, collection, query, document_file_name(id), doc));
    }
    assert forall|doc: bson::Document| (exists|name: Seq<char>| #[trigger]
        stored_match(files, root, collection, query, name, doc)) implies found.contains(doc) by {
        let name = choose|name: Seq<char>| #[trigger]
            stored_match(files, root, collection, query, name, doc);
        assert(listed(files, dir, name));
        assert(is_document_file(name));
        let id = name.take(name.len() - 5);
        let path = document_path(root, collection, id);
        assert(path == entry_path(dir, name));
        assert(files.contains_key(path));
        assert(document_of(files[path]) == doc);
        assert(in_every_applying(entries, collection, fields, id)) by {
            assert forall|j: int|
                0 <= j < entries.len() && applies(
                    #[trigger] entries[j],
                    collection,
                    fields,
                ) implies entries[j].ids.contains(id) by {
                let m = choose|m: int| 0 <= m < fields.len() && fields[m] == entries[j].field;
                assert(holds_field(doc, query, fields[m]));
                assert(document_keys(doc).contains(entries[j].field));
            }
        }
        assert(applies(entries[first], collection, fields));
        assert(entries[first].ids.contains(id));
        let t = choose|t: int| 0 <= t < entries[first].ids.len() && entries[first].ids[t] == id;
        assert(common(entries[first].ids[t]));
        entries[first].ids.lemma_filter_contains(common, t);
        assert(ids.contains(id));
        let i = choose|i: int| 0 <= i < ids.len() && ids[i] == id;
        assert(requests[i] == RequestView::ReadFile { path });
        assert(answers_to(files, requests[i], answers[i]));
        assert(delivered(answers[i])->Ok_0 =~= seq![files[path]]);
        assert(chosen_at(delivered(answers[i])->Ok_0, query, 0, doc));
        assert(found_at(answers, query, i, 0, doc));
    }
}

/// Declaring indexes changes no result of a query. Take a disk that holds,
/// in the collection's directory, nothing but documents that decode, and two
/// stores on the same root whose indexes agree with that disk, whatever has
/// been declared in either. A query finds the same set of documents through
/// both.
pub proof fn law_index_changes_no_result(
    files: Map<Seq<char>, Seq<u8>>,
    with: Database,
    without: Database,
    collection: Seq<char>,
    query: bson::Document,
    answers_with: Seq<Response>,
    answers_without: Seq<Response>,
)
    requires
        with.root() == without.root(),
        is_safe_name(collection),
        collection_decodes(files, with.root(), collection),
        holds_only_documents(files, with.root(), collection),
        index_agrees(with.entries(), files, with.root(), collection),
        index_agrees(without.entries(), files, without.root(), collection),
        serves(
            files,
            find_plan(with.root(), with.entries(), collection, document_keys(query)),
            answers_with,
        ),
        serves(
            files,
            find_plan(without.root(), without.entries(), collection, document_keys(query)),
            answers_without,
        ),
    ensures
        find_outcome(with.root(), with.entries(), collection, query, answers_with) is Ok,
        find_outcome(without.root(), without.entries(), collection, query, answers_without) is Ok,
        find_outcome(
            with.root(),
            with.entries(),
            collection,
            query,
            answers_with,
        )->Ok_0.to_set() == find_outcome(
            without.root(),
            without.entries(),
            collection,
            query,
            answers_without,
        )->Ok_0.to_set(),
{
    lemma_find_reaches_all(files, with, collection, query, answers_with);
    lemma_find_reaches_all(files, without, collection, query, answers_without);
    let a = find_outcome(with.root(), with.entries(), collection, query, answers_with)->Ok_0;
    let b = find_outcome(without.root(), without.entries(), collection, query, answers_without)->Ok_0;
    assert(a.to_set() =~= b.to_set());
}

/// A query on a healthy disk finds exactly the stored documents of the
/// collection that meet it, whether the index narrows the query or not, where
/// the index agrees with the disk.
pub proof fn lemma_find_reaches_all(
    files: Map<Seq<char>, Seq<u8>>,
    db: Database,
    collection: Seq<char>,
    query: bson::Document,
    answers: Seq<Response>,
)
    requires
        is_safe_name(collection),
        collection_decodes(files, db.root(), collection),
        holds_only_documents(files, db.root(), collection),
        index_agrees(db.entries(), files, db.root(), collection),
        serves(
            files,
            find_plan(db.root(), db.entries(), collection, document_keys(query)),
            answers,
        ),
    ensures
        find_outcome(db.root(), db.entries(), collection, query, answers) is Ok,
        forall|doc: bson::Document|
            find_outcome(db.root(), db.entries(), collection, query, answers)->Ok_0.contains(doc) <==> exists|
                name: Seq<char>,
            | #[trigger] stored_match(files, db.root(), collection, query, name, doc),
{
    if narrowed(db.entries(), collection, document_keys(query)) is Some {
        lemma_index_finds_all(files, db.root(), db.entries(), collection, query, answers);
    } else {
        lemma_scan_finds_all(files, db.root(), collection, query, answers);
    }
}

/// A test that every element passes keeps every element.
pub proof fn lemma_filter_keeps_all<A>(items: Seq<A>, test: spec_fn(A) -> bool)
    requires
        forall|i: int| 0 <= i < items.len() ==> test(#[trigger] items[i]),
    ensures
        items.filter(test) == items,
    decreases items.len(),
{
    reveal(Seq::filter);
    if items.len() > 0 {
        assert forall|i: int| 0 <= i < items.drop_last().len() implies test(
            #[trigger] items.drop_last()[i],
        ) by {
            assert(items.drop_last()[i] == items[i]);
        }
        lemma_filter_keeps_all(items.drop_last(), test);
        assert(items.last() == items[items.len() - 1]);
        assert(items.drop_last().push(items.last()) =~= items);
    }
}

/// The names of the files that the directory holds.
pub open spec fn names_in(files: Map<Seq<char>, Seq<u8>>, dir: Seq<char>) -> Set<Seq<char>> {
    Set::new(|name: Seq<char>| listed(files, dir, name))
}

/// A query without constraints finds all that the collection holds. On a
/// healthy disk on which the collection's files decode, whatever indexes are
/// declared, the whole directory is read, and what is found is the documents
/// of the listing in its order: the document of every stored file, each file
/// once, as many documents as the directory holds files.
pub proof fn law_find_all(
    files: Map<Seq<char>, Seq<u8>>,
    db: Database,
    collection: Seq<char>,
    query: bson::Document,
    answers: Seq<Response>,
)
    requires
        is_safe_name(collection),
        document_keys(query).len() == 0,
        collection_decodes(files, db.root(), collection),
        serves(
            files,
            find_plan(db.root(), db.entries(), collection, document_keys(query)),
            answers,
        ),
    ensures
        find_plan(db.root(), db.entries(), collection, document_keys(query)) == seq![
            RequestView::ReadDir { path: collection_path(db.root(), collection) },
        ],
        find_outcome(db.root(), db.entries(), collection, query, answers) is Ok,
        answers.len() == 1,
        match answers[0] {
            Response::Entries(found) => {
                &&& lists(files, collection_path(db.root(), collection), found@)
                &&& find_outcome(db.root(), db.entries(), collection, query, answers)->Ok_0
                    == documents_of(contents_of(found@))
            },
            _ => {
                &&& holds_nothing(files, collection_path(db.root(), collection))
                &&& find_outcome(db.root(), db.entries(), collection, query, answers)->Ok_0
                    == Seq::<bson::Document>::empty()
            },
        },
        find_outcome(db.root(), db.entries(), collection, query, answers)->Ok_0.len() == names_in(
            files,
            collection_path(db.root(), collection),
        ).len(),
        forall|doc: bson::Document|
            find_outcome(db.root(), db.entries(), collection, query, answers)->Ok_0.contains(doc) <==> exists|
                name: Seq<char>,
            | #[trigger]
                listed(files, collection_path(db.root(), collection), name) && document_of(
                    files[entry_path(collection_path(db.root(), collection), name)],
                ) == doc,
{
    let root = db.root();
    let dir = collection_path(root, collection);
    let fields = document_keys(query);
    lemma_first_applying(db.entries(), collection, fields);
    assert(narrowed(db.entries(), collection, fields) is None);
    let requests = seq![RequestView::ReadDir { path: dir }];
    lemma_scan_finds_all(files, root, collection, query, answers);
    let found = find_outcome(db.root(), db.entries(), collection, query, answers)->Ok_0;
    assert forall|doc: bson::Document| #[trigger] satisfies(doc, query) by {}
    assert forall|doc: bson::Document| found.contains(doc) implies exists|name: Seq<char>| #[trigger]
        listed(files, dir, name) && document_of(files[entry_path(dir, name)]) == doc by {
        let name = choose|name: Seq<char>| #[trigger]
            stored_match(files, root, collection, query, name, doc);
        assert(listed(files, dir, name));
    }
    assert forall|doc: bson::Document| (exists|name: Seq<char>| #[trigger]
        listed(files, dir, name) && document_of(files[entry_path(dir, name)])
            == doc) implies found.contains(doc) by {
        let name = choose|name: Seq<char>| #[trigger]
            listed(files, dir, name) && document_of(files[entry_path(dir, name)]) == doc;
        assert(stored_match(files, root, collection, query, name, doc));
    }
    // the count
    assert(requests.take(0) =~= Seq::<RequestView>::empty());
    assert(effects(files, requests.take(0)) == files);
    assert(answers_to(files, requests[0], answers[0]));
    assert(answers.drop_last() =~= Seq::<Response>::empty());
    assert(answers.last() == answers[0]);
    let contents = delivered(answers[0])->Ok_0;
    lemma_filter_keeps_all(documents_of(contents), meets(query));
    assert(found_in(answers.drop_last(), query) == Ok::<Seq<bson::Document>, DatabaseError>(
        Seq::empty(),
    ));
    assert(found =~= documents_of(contents));
    match answers[0] {
        Response::Entries(entries) => {
            let names = entries@.map_values(|e: DirEntry| e.name@);
            assert(names.no_duplicates());
            names.unique_seq_to_set();
            assert(names.to_set() =~= names_in(files, dir)) by {
                assert forall|name: Seq<char>| names.to_set().contains(name) implies names_in(
                    files,
                    dir,
                ).contains(name) by {
                    let j = choose|j: int| 0 <= j < names.len() && names[j] == name;
                    assert(listed(files, dir, entries@[j].name@));
                }
                assert forall|name: Seq<char>| names_in(files, dir).contains(
                    name,
                ) implies names.to_set().contains(name) by {
                    assert(listed(files, dir, name));
                    let j = choose|j: int|
                        0 <= j < entries@.len() && (#[trigger] entries@[j]).name@ == name;
                    assert(names[j] == name);
                }
            }
        },
        _ => {
            assert(holds_nothing(files, dir));
            assert(names_in(files, dir) =~= Set::<Seq<char>>::empty());
        },
    }
}

/// What was inserted is found again. After the requests of an insertion were
/// carried out on a healthy disk, a lookup under the insertion's identifier
/// reads the file that was written and gives what its bytes, the encoding of
/// the inserted document, decode to.
pub proof fn law_round_trip(
    files: Map<Seq<char>, Seq<u8>>,
    db: Database,
    collection: Seq<char>,
    doc: bson::Document,
    id: Seq<char>,
    bytes: Seq<u8>,
    answers: Seq<Response>,
)
    requires
        is_safe_name(collection),
        is_identifier(id),
        encoding(doc) == Ok::<Seq<u8>, bson::ser::Error>(bytes),
        serves(
            effects(files, insertion_plan(db.root(), collection, id, bytes)),
            single_plan(
                collection,
                id,
                RequestView::ReadFile { path: document_path(db.root(), collection, id) },
            ),
            answers,
        ),
    ensures
        find_one_outcome(collection, id, answers) == match decoding(bytes) {
            Ok(found) => Ok::<Option<bson::Document>, DatabaseError>(Some(found)),
            Err(e) => Err(DatabaseError::BsonDeError(e)),
        },
{
    lemma_identifier_is_safe(id);
    let path = document_path(db.root(), collection, id);
    let plan = insertion_plan(db.root(), collection, id, bytes);
    let after = effects(files, plan);
    assert(plan.drop_last().drop_last() =~= Seq::<RequestView>::empty());
    assert(plan.drop_last().last() == plan[0]);
    assert(plan.last() == plan[1]);
    assert(effects(files, plan.drop_last().drop_last()) == files);
    assert(effects(files, plan.drop_last()) == files);
    assert(after == files.insert(path, bytes));
    let lookup = seq![RequestView::ReadFile { path }];
    assert(lookup.take(0) =~= Seq::<RequestView>::empty());
    assert(effects(after, lookup.take(0)) == after);
    assert(answers_to(after, lookup[0], answers[0]));
}

/// After a store was cleared, it holds nothing. Once the requests of `clear`
/// were carried out on a healthy disk and the index is empty, no index is
/// declared and none has an entry, and a query on any collection finds no
/// document.
pub proof fn law_clear_leaves_nothing(
    files: Map<Seq<char>, Seq<u8>>,
    db: Database,
    collection: Seq<char>,
    field: Seq<char>,
    query: bson::Document,
    answers: Seq<Response>,
)
    requires
        is_safe_name(collection),
        db.entries() == Seq::<FieldIndexView>::empty(),
        serves(
            effects(files, clear_plan(db.root())),
            find_plan(db.root(), db.entries(), collection, document_keys(query)),
            answers,
        ),
    ensures
        !declared(db.entries(), collection, field),
        recorded(db.entries(), collection, field) == Set::<Seq<char>>::empty(),
        find_outcome(db.root(), db.entries(), collection, query, answers) == Ok::<Seq<bson::Document>, DatabaseError>(
            Seq::empty(),
        ),
{
    let root = db.root();
    let dir = collection_path(root, collection);
    assert(recorded(db.entries(), collection, field) =~= Set::<Seq<char>>::empty());
    let plan = clear_plan(root);
    let after = effects(files, plan);
    assert(plan.drop_last().drop_last() =~= Seq::<RequestView>::empty());
    assert(plan.drop_last().last() == plan[0]);
    assert(plan.last() == plan[1]);
    assert(effects(files, plan.drop_last().drop_last()) == files);
    assert(effects(files, plan.drop_last()) == files.remove_keys(all_below(root)));
    assert(after == files.remove_keys(all_below(root)));
    assert(holds_nothing(after, dir)) by {
        assert forall|name: Seq<char>| !#[trigger] listed(after, dir, name) by {
            lemma_entry_lies_below_root(root, collection, name);
        }
    }
    lemma_first_applying(db.entries(), collection, document_keys(query));
    let requests = seq![RequestView::ReadDir { path: dir }];
    assert(requests.take(0) =~= Seq::<RequestView>::empty());
    assert(effects(after, requests.take(0)) == after);
    assert(answers_to(after, requests[0], answers[0]));
    assert(answers.drop_last() =~= Seq::<Response>::empty());
    assert(answers.last() == answers[0]);
    lemma_selected_none(query);
    match answers[0] {
        Response::Entries(entries) => {
            if entries@.len() > 0 {
                assert(listed(after, dir, entries@[0].name@));
            }
            assert(contents_of(entries@) =~= Seq::<Seq<u8>>::empty());
        },
        _ => {},
    }
    assert(found_in(answers.drop_last(), query) == Ok::<Seq<bson::Document>, DatabaseError>(
        Seq::empty(),
    ));
    assert(found_in(answers, query)->Ok_0 =~= Seq::<bson::Document>::empty());
}

/// After a document was forgotten, no entry of its collection holds its
/// identifier.
pub proof fn lemma_forgotten_is_absent(
    entries: Seq<FieldIndexView>,
    collection: Seq<char>,
    id: Seq<char>,
    i: int,
)
    requires
        0 <= i < entries.len(),
        entries[i].collection == collection,
    ensures
        with_forgotten(entries, collection, id)[i].collection == collection,
        !with_forgotten(entries, collection, id)[i].ids.contains(id),
{
    let kept = entries[i].ids.filter(other_than(id));
    if kept.contains(id) {
        let k = choose|k: int| 0 <= k < kept.len() && kept[k] == id;
        entries[i].ids.lemma_filter_pred(other_than(id), k);
    }
}

/// The files that a deletion by query chooses are files of the directory
/// that was read.
pub proof fn lemma_doomed_are_listed(entries: Seq<DirEntry>, query: bson::Document, name: Seq<char>)
    requires
        doomed(entries, query) is Ok,
        doomed(entries, query)->Ok_0.contains(name),
    ensures
        exists|j: int| 0 <= j < entries.len() && (#[trigger] entries[j]).name@ == name,
{
    let chosen = entries.filter(holds_match(query));
    let names = doomed(entries, query)->Ok_0;
    let k = choose|k: int| 0 <= k < names.len() && names[k] == name;
    assert(chosen[k].name@ == name);
    assert(chosen.contains(chosen[k]));
    entries.lemma_filter_contains_rev(holds_match(query), chosen[k]);
    let j = choose|j: int| 0 <= j < entries.len() && entries[j] == chosen[k];
    assert(entries[j].name@ == name);
}

/// What was deleted is not found any more. After the request of
/// `delete_one` was carried out on a healthy disk, the deletion has
/// succeeded, the document's file is gone, and a lookup under the identifier
/// reports that there is no such document.
pub proof fn law_deleted_is_gone(
    files: Map<Seq<char>, Seq<u8>>,
    db: Database,
    collection: Seq<char>,
    id: Seq<char>,
    removal: Seq<Response>,
    lookup: Seq<Response>,
)
    requires
        is_safe_name(collection),
        is_safe_name(id),
        serves(
            files,
            single_plan(
                collection,
                id,
                RequestView::RemoveFile { path: document_path(db.root(), collection, id) },
            ),
            removal,
        ),
        serves(
            files.remove(document_path(db.root(), collection, id)),
            single_plan(
                collection,
                id,
                RequestView::ReadFile { path: document_path(db.root(), collection, id) },
            ),
            lookup,
        ),
    ensures
        delete_one_failure(collection, id, removal) is None,
        effects(
            files,
            single_plan(
                collection,
                id,
                RequestView::RemoveFile { path: document_path(db.root(), collection, id) },
            ),
        ) == files.remove(document_path(db.root(), collection, id)),
        find_one_outcome(collection, id, lookup) == Ok::<Option<bson::Document>, DatabaseError>(
            None,
        ),
{
    let path = document_path(db.root(), collection, id);
    let remove = seq![RequestView::RemoveFile { path }];
    assert(remove.take(0) =~= Seq::<RequestView>::empty());
    assert(remove.drop_last() =~= Seq::<RequestView>::empty());
    assert(effects(files, remove.take(0)) == files);
    assert(answers_to(files, remove[0], removal[0]));
    assert(effects(files, remove) == files.remove(path));
    let after = files.remove(path);
    let read = seq![RequestView::ReadFile { path }];
    assert(read.take(0) =~= Seq::<RequestView>::empty());
    assert(effects(after, read.take(0)) == after);
    assert(answers_to(after, read[0], lookup[0]));
}

/// What was deleted is met by no later query and no later deletion. Take
/// the disk and the index as `delete_one` leaves them. Whatever a query
/// constrains, none of its requests reads the deleted document's file, and
/// the collection's directory does not hold it. A deletion by query does not
/// choose it, and, where the directory holds nothing but documents, does not
/// report its identifier.
pub proof fn law_deleted_stays_away(
    files: Map<Seq<char>, Seq<u8>>,
    before: Database,
    after: Database,
    collection: Seq<char>,
    id: Seq<char>,
    query: bson::Document,
    listing: Seq<Response>,
)
    requires
        is_safe_name(collection),
        is_safe_name(id),
        after.root() == before.root(),
        after.entries() == with_forgotten(before.entries(), collection, id),
        serves(
            files.remove(document_path(before.root(), collection, id)),
            scan_plan(after.root(), collection),
            listing,
        ),
    ensures
        !find_plan(after.root(), after.entries(), collection, document_keys(query)).contains(
            RequestView::ReadFile { path: document_path(after.root(), collection, id) },
        ),
        !listed(
            files.remove(document_path(before.root(), collection, id)),
            collection_path(after.root(), collection),
            document_file_name(id),
        ),
        deletion_choice(collection, query, listing) matches Ok(names) ==> {
            &&& !names.contains(document_file_name(id))
            &&& holds_only_documents(
                files.remove(document_path(before.root(), collection, id)),
                after.root(),
                collection,
            ) ==> !ids_of(names).contains(id)
        },
{
    let root = after.root();
    let dir = collection_path(root, collection);
    let path = document_path(root, collection, id);
    let left = files.remove(path);
    let fields = document_keys(query);
    let entries = after.entries();
    let plan = find_plan(root, entries, collection, fields);
    if plan.contains(RequestView::ReadFile { path }) {
        let i = choose|i: int| 0 <= i < plan.len() && plan[i] == RequestView::ReadFile { path };
        lemma_first_applying(entries, collection, fields);
        let first = first_applying(entries, collection, fields)->Some_0;
        let ids = narrowed(entries, collection, fields)->Some_0;
        assert(plan[i] == read_of(root, collection)(ids[i]));
        lemma_document_path_injective(root, collection, ids[i], id);
        assert(ids.contains(id));
        entries[first].ids.lemma_filter_contains_rev(
            common_to_applying(entries, collection, fields),
            id,
        );
        lemma_forgotten_is_absent(before.entries(), collection, id, first);
        assert(false);
    }
    let scan = scan_plan(root, collection);
    assert(scan.take(0) =~= Seq::<RequestView>::empty());
    assert(effects(left, scan.take(0)) == left);
    assert(answers_to(left, scan[0], listing[0]));
    match deletion_choice(collection, query, listing) {
        Ok(names) => {
            if names.contains(document_file_name(id)) {
                match listing[0] {
                    Response::Entries(found) => {
                        lemma_doomed_are_listed(found@, query, document_file_name(id));
                        let j = choose|j: int|
                            0 <= j < found@.len() && (#[trigger] found@[j]).name@
                                == document_file_name(id);
                        assert(listed(left, dir, found@[j].name@));
                    },
                    _ => {},
                }
                assert(false);
            }
            if holds_only_documents(left, root, collection) && ids_of(names).contains(id) {
                let k = choose|k: int| 0 <= k < ids_of(names).len() && ids_of(names)[k] == id;
                let name = names[k];
                assert(names.contains(name));
                match listing[0] {
                    Response::Entries(found) => {
                        lemma_doomed_are_listed(found@, query, name);
                        let j = choose|j: int|
                            0 <= j < found@.len() && (#[trigger] found@[j]).name@ == name;
                        assert(listed(left, dir, found@[j].name@));
                        assert(is_document_file(name));
                        let stem = name.take(name.len() - 5);
                        lemma_document_id_of_file_name(stem);
                        assert(stem == id);
                    },
                    _ => {},
                }
                assert(false);
            }
        },
        Err(_) => {},
    }
}

/// A query finds nothing but stored documents that meet it, whatever the
/// index holds: each document found lies in a file of the collection.
pub proof fn lemma_found_are_stored(
    files: Map<Seq<char>, Seq<u8>>,
    db: Database,
    collection: Seq<char>,
    query: bson::Document,
    answers: Seq<Response>,
)
    requires
        is_safe_name(collection),
        collection_decodes(files, db.root(), collection),
        serves(
            files,
            find_plan(db.root(), db.entries(), collection, document_keys(query)),
            answers,
        ),
    ensures
        find_outcome(db.root(), db.entries(), collection, query, answers) is Ok,
        forall|doc: bson::Document|
            find_outcome(db.root(), db.entries(), collection, query, answers)->Ok_0.contains(doc)
                ==> exists|name: Seq<char>| #[trigger]
                stored_match(files, db.root(), collection, query, name, doc),
{
    let root = db.root();
    let entries = db.entries();
    let dir = collection_path(root, collection);
    let fields = document_keys(query);
    if narrowed(entries, collection, fields) is None {
        lemma_scan_finds_all(files, root, collection, query, answers);
    } else {
        let ids = narrowed(entries, collection, fields)->Some_0;
        let requests = ids.map_values(read_of(root, collection));
        let first = first_applying(entries, collection, fields)->Some_0;
        let common = common_to_applying(entries, collection, fields);
        lemma_first_applying(entries, collection, fields);
        assert forall|i: int| 0 <= i < requests.len() implies answers_to(
            files,
            requests[i],
            #[trigger] answers[i],
        ) by {
            assert(only_reads(requests.take(i)));
            lemma_reads_change_nothing(files, requests.take(i));
        }
        assert forall|i: int| 0 <= i < answers.len() implies delivered(#[trigger] answers[i]) is Ok
            && decode_fault(delivered(answers[i])->Ok_0) is None by {
            assert(answers_to(files, requests[i], answers[i]));
            entries[first].ids.lemma_filter_pred(common, i);
            lemma_file_name_is_entry_name(ids[i]);
            if files.contains_key(document_path(root, collection, ids[i])) {
                assert(listed(files, dir, document_file_name(ids[i])));
            }
            lemma_no_decode_fault(delivered(answers[i])->Ok_0);
        }
        lemma_found_in_members(answers, query);
        let found = found_in(answers, query)->Ok_0;
        assert forall|doc: bson::Document| found.contains(doc) implies exists|name: Seq<char>| #[trigger]
            stored_match(files, root, collection, query, name, doc) by {
            let (i, j) = choose|i: int, j: int| #[trigger] found_at(answers, query, i, j, doc);
            assert(answers_to(files, requests[i], answers[i]));
            entries[first].ids.lemma_filter_pred(common, i);
            lemma_file_name_is_entry_name(ids[i]);
            assert(stored_match(files, root, collection, query, document_file_name(ids[i]), doc));
        }
    }
}

/// What was deleted is never found again. On the disk as `delete_one`
/// leaves it, a query on the collection succeeds, whatever it constrains and
/// whatever the index holds, and every document that it finds lies in a
/// stored file other than the deleted one.
pub proof fn law_deleted_is_never_found(
    files: Map<Seq<char>, Seq<u8>>,
    db: Database,
    collection: Seq<char>,
    id: Seq<char>,
    query: bson::Document,
    answers: Seq<Response>,
)
    requires
        is_safe_name(collection),
        is_safe_name(id),
        collection_decodes(
            files.remove(document_path(db.root(), collection, id)),
            db.root(),
            collection,
        ),
        serves(
            files.remove(document_path(db.root(), collection, id)),
            find_plan(db.root(), db.entries(), collection, document_keys(query)),
            answers,
        ),
    ensures
        find_outcome(db.root(), db.entries(), collection, query, answers) is Ok,
        forall|doc: bson::Document|
            find_outcome(db.root(), db.entries(), collection, query, answers)->Ok_0.contains(doc)
                ==> exists|name: Seq<char>|
                name != document_file_name(id) && #[trigger] stored_match(
                    files.remove(document_path(db.root(), collection, id)),
                    db.root(),
                    collection,
                    query,
                    name,
                    doc,
                ),
{
    let left = files.remove(document_path(db.root(), collection, id));
    lemma_found_are_stored(left, db, collection, query, answers);
    let found = find_outcome(db.root(), db.entries(), collection, query, answers)->Ok_0;
    assert forall|doc: bson::Document| found.contains(doc) implies exists|name: Seq<char>|
        name != document_file_name(id) && #[trigger] stored_match(
            left,
            db.root(),
            collection,
            query,
            name,
            doc,
        ) by {
        let name = choose|name: Seq<char>| #[trigger]
            stored_match(left, db.root(), collection, query, name, doc);
        assert(listed(left, collection_path(db.root(), collection), name));
    }
}

/// Insertions under different identifiers stay apart: after both were
/// carried out on a healthy disk, in either collection, each document's file
/// holds its own bytes.
pub proof fn law_insertions_stay_apart(
    files: Map<Seq<char>, Seq<u8>>,
    root: Seq<char>,
    collection: Seq<char>,
    first: Seq<char>,
    first_bytes: Seq<u8>,
    second: Seq<char>,
    second_bytes: Seq<u8>,
)
    requires
        first != second,
    ensures
        document_path(root, collection, first) != document_path(root, collection, second),
        effects(
            effects(files, insertion_plan(root, collection, first, first_bytes)),
            insertion_plan(root, collection, second, second_bytes),
        ) == files.insert(document_path(root, collection, first), first_bytes).insert(
            document_path(root, collection, second),
            second_bytes,
        ),
{
    if document_path(root, collection, first) == document_path(root, collection, second) {
        lemma_document_path_injective(root, collection, first, second);
    }
    lemma_insertion_writes(files, root, collection, first, first_bytes);
    lemma_insertion_writes(
        files.insert(document_path(root, collection, first), first_bytes),
        root,
        collection,
        second,
        second_bytes,
    );
}

/// An insertion leaves the disk with the document's file written, and as it
/// was otherwise.
pub proof fn lemma_insertion_writes(
    files: Map<Seq<char>, Seq<u8>>,
    root: Seq<char>,
    collection: Seq<char>,
    id: Seq<char>,
    bytes: Seq<u8>,
)
    ensures
        effects(files, insertion_plan(root, collection, id, bytes)) == files.insert(
            document_path(root, collection, id),
            bytes,
        ),
{
    let plan = insertion_plan(root, collection, id, bytes);
    assert(plan.drop_last().drop_last() =~= Seq::<RequestView>::empty());
    assert(plan.drop_last().last() == plan[0]);
    assert(plan.last() == plan[1]);
    assert(effects(files, plan.drop_last().drop_last()) == files);
    assert(effects(files, plan.drop_last()) == files);
}

/// A query reads inside the collection only: each of its requests reads the
/// collection's directory or the file of a document with a safe identifier,
/// and the collection's name is safe.
pub proof fn law_queries_read_inside(
    db: Database,
    collection: Seq<char>,
    fields: Seq<Seq<char>>,
    i: int,
)
    requires
        0 <= i < find_plan(db.root(), db.entries(), collection, fields).len(),
    ensures
        is_safe_name(collection),
        find_plan(db.root(), db.entries(), collection, fields)[i] == (RequestView::ReadDir {
            path: collection_path(db.root(), collection),
        }) || exists|id: Seq<char>|
            is_safe_name(id) && find_plan(db.root(), db.entries(), collection, fields)[i]
                == #[trigger] read_of(db.root(), collection)(id),
{
    let entries = db.entries();
    if narrowed(entries, collection, fields) is Some {
        let ids = narrowed(entries, collection, fields)->Some_0;
        let first = first_applying(entries, collection, fields)->Some_0;
        lemma_first_applying(entries, collection, fields);
        entries[first].ids.lemma_filter_pred(common_to_applying(entries, collection, fields), i);
        assert(find_plan(db.root(), entries, collection, fields)[i] == read_of(
            db.root(),
            collection,
        )(ids[i]));
    }
}

/// The paths of the files with the given names in a directory.
pub open spec fn paths_of(directory: Seq<char>, names: Seq<Seq<char>>) -> Set<Seq<char>> {
    Set::new(
        |path: Seq<char>|
            exists|k: int| 0 <= k < names.len() && path == entry_path(directory, #[trigger] names[k]),
    )
}

/// Removing the files with the given names from a directory leaves the disk
/// without them, and as it was otherwise.
pub proof fn lemma_removals_remove(
    files: Map<Seq<char>, Seq<u8>>,
    directory: Seq<char>,
    names: Seq<Seq<char>>,
)
    ensures
        effects(files, names.map_values(removal_of(directory))) == files.remove_keys(
            paths_of(directory, names),
        ),
    decreases names.len(),
{
    let requests = names.map_values(removal_of(directory));
    if names.len() == 0 {
        assert(files.remove_keys(paths_of(directory, names)) =~= files);
    } else {
        let front = names.drop_last();
        lemma_removals_remove(files, directory, front);
        assert(requests.drop_last() =~= front.map_values(removal_of(directory)));
        assert(requests.last() == RequestView::RemoveFile {
            path: entry_path(directory, names.last()),
        });
        let before = files.remove_keys(paths_of(directory, front));
        assert(before.remove(entry_path(directory, names.last())) =~= files.remove_keys(
            paths_of(directory, names),
        )) by {
            assert forall|path: Seq<char>|
                paths_of(directory, names).contains(path) <==> paths_of(directory, front).contains(
                    path,
                ) || path == entry_path(directory, names.last()) by {
                if paths_of(directory, names).contains(path) {
                    let k = choose|k: int|
                        0 <= k < names.len() && path == entry_path(directory, #[trigger] names[k]);
                    if k < front.len() {
                        assert(front[k] == names[k]);
                    }
                }
                if paths_of(directory, front).contains(path) {
                    let k = choose|k: int|
                        0 <= k < front.len() && path == entry_path(directory, #[trigger] front[k]);
                    assert(names[k] == front[k]);
                }
                if path == entry_path(directory, names.last()) {
                    assert(names[names.len() - 1] == names.last());
                }
            }
        }
    }
}

/// A deletion by query removes what it chose. Where the chosen files are
/// files of the disk, each named once, a healthy disk carries out every
/// removal: nothing is held against the answers, and afterwards the disk
/// holds none of the chosen files and every other file as before.
pub proof fn law_deletion_removes_what_it_chose(
    files: Map<Seq<char>, Seq<u8>>,
    directory: Seq<char>,
    names: Seq<Seq<char>>,
    answers: Seq<Response>,
)
    requires
        names.no_duplicates(),
        forall|k: int|
            0 <= k < names.len() ==> files.contains_key(entry_path(directory, #[trigger] names[k])),
        serves(files, names.map_values(removal_of(directory)), answers),
    ensures
        refusal(answers, names.len()) is None,
        served(answers, names.len()) == names.len(),
        effects(files, names.map_values(removal_of(directory))) == files.remove_keys(
            paths_of(directory, names),
        ),
{
    let requests = names.map_values(removal_of(directory));
    lemma_removals_remove(files, directory, names);
    assert forall|i: int| 0 <= i < names.len() implies objection(#[trigger] answers[i]) is None by {
        let path = entry_path(directory, names[i]);
        assert(requests.take(i) =~= names.take(i).map_values(removal_of(directory)));
        lemma_removals_remove(files, directory, names.take(i));
        let left = effects(files, requests.take(i));
        if paths_of(directory, names.take(i)).contains(path) {
            let k = choose|k: int|
                0 <= k < names.take(i).len() && path == entry_path(
                    directory,
                    #[trigger] names.take(i)[k],
                );
            lemma_entry_path_injective(directory, names[i], names.take(i)[k]);
            assert(names[k] == names[i]);
        }
        assert(left.contains_key(path));
        assert(answers_to(left, requests[i], answers[i]));
    }
    lemma_all_done(answers, names.len());
}

/// A deletion by query, given the answers of a healthy disk that holds, in
/// the collection's directory, nothing but documents that decode, chooses
/// exactly the files of the collection whose documents meet the query.
pub proof fn lemma_deletion_chooses_all(
    files: Map<Seq<char>, Seq<u8>>,
    root: Seq<char>,
    collection: Seq<char>,
    query: bson::Document,
    answers: Seq<Response>,
)
    requires
        is_safe_name(collection),
        collection_decodes(files, root, collection),
        holds_only_documents(files, root, collection),
        serves(files, scan_plan(root, collection), answers),
    ensures
        deletion_choice(collection, query, answers) is Ok,
        forall|name: Seq<char>|
            deletion_choice(collection, query, answers)->Ok_0.contains(name) <==> #[trigger] listed(
                files,
                collection_path(root, collection),
                name,
            ) && satisfies(
                document_of(files[entry_path(collection_path(root, collection), name)]),
                query,
            ),
{
    let dir = collection_path(root, collection);
    let scan = scan_plan(root, collection);
    assert(scan.take(0) =~= Seq::<RequestView>::empty());
    assert(effects(files, scan.take(0)) == files);
    assert(answers_to(files, scan[0], answers[0]));
    match answers[0] {
        Response::Entries(found) => {
            assert forall|j: int| 0 <= j < contents_of(found@).len() implies decoding(
                #[trigger] contents_of(found@)[j],
            ) is Ok by {
                assert(listed(files, dir, found@[j].name@));
            }
            lemma_no_decode_fault(contents_of(found@));
            let names = doomed(found@, query)->Ok_0;
            let chosen = found@.filter(holds_match(query));
            assert(all_safe(names)) by {
                assert forall|k: int| 0 <= k < names.len() implies is_safe_name(
                    #[trigger] names[k],
                ) by {
                    lemma_doomed_are_listed(found@, query, names[k]);
                    let j = choose|j: int|
                        0 <= j < found@.len() && (#[trigger] found@[j]).name@ == names[k];
                    assert(listed(files, dir, found@[j].name@));
                    lemma_document_file_is_safe(names[k]);
                }
            }
            assert forall|name: Seq<char>| names.contains(name) implies #[trigger] listed(
                files,
                dir,
                name,
            ) && satisfies(document_of(files[entry_path(dir, name)]), query) by {
                let k = choose|k: int| 0 <= k < names.len() && names[k] == name;
                assert(chosen[k].name@ == name);
                found@.lemma_filter_pred(holds_match(query), k);
                assert(chosen.contains(chosen[k]));
                found@.lemma_filter_contains_rev(holds_match(query), chosen[k]);
                let j = choose|j: int| 0 <= j < found@.len() && found@[j] == chosen[k];
                assert(listed(files, dir, found@[j].name@));
            }
            assert forall|name: Seq<char>| #[trigger]
                listed(files, dir, name) && satisfies(
                    document_of(files[entry_path(dir, name)]),
                    query,
                ) implies names.contains(name) by {
                let j = choose|j: int| 0 <= j < found@.len() && (#[trigger] found@[j]).name@ == name;
                assert(holds_match(query)(found@[j]));
                found@.lemma_filter_contains(holds_match(query), j);
                let k = choose|k: int| 0 <= k < chosen.len() && chosen[k] == found@[j];
                assert(names[k] == name);
            }
        },
        _ => {
            assert(holds_nothing(files, dir));
        },
    }
}

/// A deletion by query chooses no file twice, where the listing names no
/// file twice.
pub proof fn lemma_doomed_are_distinct(entries: Seq<DirEntry>, query: bson::Document)
    requires
        doomed(entries, query) is Ok,
        forall|j: int, k: int|
            0 <= j < k < entries.len() ==> (#[trigger] entries[j]).name@ != (
            #[trigger] entries[k]).name@,
    ensures
        doomed(entries, query)->Ok_0.no_duplicates(),
    decreases entries.len(),
{
    if entries.len() == 0 {
        lemma_doomed_none(query);
        assert(entries =~= Seq::<DirEntry>::empty());
    } else {
        let front = entries.drop_last();
        let last = entries.last();
        assert(entries =~= front.push(last));
        lemma_doomed_push(front, last, query);
        assert forall|j: int, k: int| 0 <= j < k < front.len() implies (#[trigger] front[j]).name@
            != (#[trigger] front[k]).name@ by {
            assert(front[j] == entries[j] && front[k] == entries[k]);
        }
        lemma_doomed_are_distinct(front, query);
        let before = doomed(front, query)->Ok_0;
        if before.contains(last.name@) {
            lemma_doomed_are_listed(front, query, last.name@);
            let j = choose|j: int| 0 <= j < front.len() && (#[trigger] front[j]).name@ == last.name@;
            assert(front[j] == entries[j]);
            assert(entries[entries.len() - 1] == last);
        }
        let names = doomed(entries, query)->Ok_0;
        assert forall|a: int, b: int| 0 <= a < names.len() && 0 <= b < names.len() && a
            != b implies names[a] != names[b] by {
            if a < before.len() && b < before.len() {
                assert(before[a] != before[b]);
            } else if a < before.len() {
                assert(before.contains(before[a]));
            } else if b < before.len() {
                assert(before.contains(before[b]));
            }
        }
    }
}

/// A deletion by query succeeds on a healthy disk and removes the matches.
/// Where the collection's directory holds nothing but documents that decode,
/// the deletion chooses files of the disk, each once; a healthy disk carries
/// out every removal, so that nothing is held against the answers; and
/// afterwards the disk lacks exactly the files of the collection whose
/// documents met the query, in whatever order the directory was listed.
pub proof fn law_deletion_removes_the_matches(
    files: Map<Seq<char>, Seq<u8>>,
    root: Seq<char>,
    collection: Seq<char>,
    query: bson::Document,
    listing: Seq<Response>,
    removal: Seq<Response>,
)
    requires
        is_safe_name(collection),
        collection_decodes(files, root, collection),
        holds_only_documents(files, root, collection),
        serves(files, scan_plan(root, collection), listing),
        deletion_choice(collection, query, listing) is Ok ==> serves(
            files,
            deletion_choice(collection, query, listing)->Ok_0.map_values(
                removal_of(collection_path(root, collection)),
            ),
            removal,
        ),
    ensures
        deletion_choice(collection, query, listing) is Ok,
        deletion_choice(collection, query, listing)->Ok_0.no_duplicates(),
        refusal(removal, deletion_choice(collection, query, listing)->Ok_0.len()) is None,
        served(removal, deletion_choice(collection, query, listing)->Ok_0.len())
            == deletion_choice(collection, query, listing)->Ok_0.len(),
        effects(
            files,
            deletion_choice(collection, query, listing)->Ok_0.map_values(
                removal_of(collection_path(root, collection)),
            ),
        ) == files.remove_keys(
            paths_of(
                collection_path(root, collection),
                deletion_choice(collection, query, listing)->Ok_0,
            ),
        ),
        forall|name: Seq<char>|
            paths_of(
                collection_path(root, collection),
                deletion_choice(collection, query, listing)->Ok_0,
            ).contains(#[trigger] entry_path(collection_path(root, collection), name)) <==> listed(
                files,
                collection_path(root, collection),
                name,
            ) && satisfies(
                document_of(files[entry_path(collection_path(root, collection), name)]),
                query,
            ),
{
    let dir = collection_path(root, collection);
    lemma_deletion_chooses_all(files, root, collection, query, listing);
    let names = deletion_choice(collection, query, listing)->Ok_0;
    let scan = scan_plan(root, collection);
    assert(scan.take(0) =~= Seq::<RequestView>::empty());
    assert(effects(files, scan.take(0)) == files);
    assert(answers_to(files, scan[0], listing[0]));
    match listing[0] {
        Response::Entries(found) => {
            lemma_doomed_are_distinct(found@, query);
        },
        _ => {},
    }
    assert forall|k: int| 0 <= k < names.len() implies files.contains_key(
        entry_path(dir, #[trigger] names[k]),
    ) by {
        assert(names.contains(names[k]));
        assert(listed(files, dir, names[k]));
    }
    law_deletion_removes_what_it_chose(files, dir, names, removal);
    assert forall|name: Seq<char>|
        paths_of(dir, names).contains(#[trigger] entry_path(dir, name)) <==> listed(
            files,
            dir,
            name,
        ) && satisfies(document_of(files[entry_path(dir, name)]), query) by {
        if paths_of(dir, names).contains(entry_path(dir, name)) {
            let k = choose|k: int|
                0 <= k < names.len() && entry_path(dir, name) == entry_path(
                    dir,
                    #[trigger] names[k],
                );
            lemma_entry_path_injective(dir, name, names[k]);
            assert(names.contains(name));
        }
        if listed(files, dir, name) && satisfies(document_of(files[entry_path(dir, name)]), query) {
            assert(names.contains(name));
            let k = choose|k: int| 0 <= k < names.len() && names[k] == name;
            assert(entry_path(dir, name) == entry_path(dir, names[k]));
        }
    }
}

/// Indexes play no part in a deletion by query. Two stores on the same
/// root, whatever has been declared in either, ask for the same requests, and
/// from the answers of a healthy disk that holds, in the collection's
/// directory, nothing but documents that decode, they choose the same set of
/// files, in whatever order the directory was listed.
pub proof fn law_index_changes_no_deletion(
    files: Map<Seq<char>, Seq<u8>>,
    with: Database,
    without: Database,
    collection: Seq<char>,
    query: bson::Document,
    answers_with: Seq<Response>,
    answers_without: Seq<Response>,
)
    requires
        with.root() == without.root(),
        is_safe_name(collection),
        collection_decodes(files, with.root(), collection),
        holds_only_documents(files, with.root(), collection),
        serves(files, scan_plan(with.root(), collection), answers_with),
        serves(files, scan_plan(without.root(), collection), answers_without),
    ensures
        scan_plan(with.root(), collection) == scan_plan(without.root(), collection),
        deletion_choice(collection, query, answers_with) is Ok,
        deletion_choice(collection, query, answers_without) is Ok,
        deletion_choice(collection, query, answers_with)->Ok_0.to_set() == deletion_choice(
            collection,
            query,
            answers_without,
        )->Ok_0.to_set(),
{
    lemma_deletion_chooses_all(files, with.root(), collection, query, answers_with);
    lemma_deletion_chooses_all(files, without.root(), collection, query, answers_without);
    let a = deletion_choice(collection, query, answers_with)->Ok_0;
    let b = deletion_choice(collection, query, answers_without)->Ok_0;
    assert forall|name: Seq<char>| a.contains(name) <==> b.contains(name) by {
        let here = listed(files, collection_path(with.root(), collection), name);
    }
    assert(a.to_set() =~= b.to_set());
}

/// The bytes hold a document with exactly the given fields.
pub open spec fn holds_fields(bytes: Seq<u8>, fields: Seq<Seq<char>>) -> bool {
    decoding(bytes) is Ok && document_keys(document_of(bytes)) == fields
}

/// An insertion keeps the index in agreement with the disk. Where the
/// written bytes hold a document with the fields that the insertion
/// recorded, an index that agreed with the disk on a collection before the
/// file was written agrees with it afterwards.
pub proof fn law_insertion_keeps_agreement(
    files: Map<Seq<char>, Seq<u8>>,
    root: Seq<char>,
    entries: Seq<FieldIndexView>,
    collection: Seq<char>,
    fields: Seq<Seq<char>>,
    id: Seq<char>,
    bytes: Seq<u8>,
    other: Seq<char>,
)
    requires
        is_safe_name(collection),
        is_safe_name(other),
        is_safe_name(id),
        holds_fields(bytes, fields),
        index_agrees(entries, files, root, other),
    ensures
        index_agrees(
            with_recorded(entries, collection, fields, id),
            files.insert(document_path(root, collection, id), bytes),
            root,
            other,
        ),
{
    let path = document_path(root, collection, id);
    let after = with_recorded(entries, collection, fields, id);
    let written = files.insert(path, bytes);
    assert forall|i: int, stored: Seq<char>|
        0 <= i < after.len() && (#[trigger] after[i]).collection == other && is_safe_name(stored)
            && written.contains_key(#[trigger] document_path(root, other, stored))
            && document_keys(document_of(written[document_path(root, other, stored)])).contains(
            after[i].field,
        ) implies after[i].ids.contains(stored) by {
        let there = document_path(root, other, stored);
        if there == path {
            lemma_collections_apart(
                root,
                other,
                document_file_name(stored),
                collection,
                document_file_name(id),
            );
            lemma_document_path_injective(root, collection, stored, id);
            assert(after[i].ids[entries[i].ids.len() as int] == id);
        } else {
            assert(files.contains_key(there));
            assert(entries[i].ids.contains(stored));
            let k = choose|k: int| 0 <= k < entries[i].ids.len() && entries[i].ids[k] == stored;
            assert(after[i].ids[k] == stored);
        }
    }
}

/// A deletion keeps the index in agreement with the disk: an index that
/// agreed with the disk on a collection before a document's file was removed
/// and the document forgotten agrees with it afterwards.
pub proof fn law_deletion_keeps_agreement(
    files: Map<Seq<char>, Seq<u8>>,
    root: Seq<char>,
    entries: Seq<FieldIndexView>,
    collection: Seq<char>,
    id: Seq<char>,
    other: Seq<char>,
)
    requires
        index_agrees(entries, files, root, other),
    ensures
        index_agrees(
            with_forgotten(entries, collection, id),
            files.remove(document_path(root, collection, id)),
            root,
            other,
        ),
{
    let path = document_path(root, collection, id);
    let after = with_forgotten(entries, collection, id);
    let left = files.remove(path);
    assert forall|i: int, stored: Seq<char>|
        0 <= i < after.len() && (#[trigger] after[i]).collection == other && is_safe_name(stored)
            && left.contains_key(#[trigger] document_path(root, other, stored))
            && document_keys(document_of(left[document_path(root, other, stored)])).contains(
            after[i].field,
        ) implies after[i].ids.contains(stored) by {
        let there = document_path(root, other, stored);
        assert(files.contains_key(there));
        assert(entries[i].ids.contains(stored));
        if entries[i].collection == collection {
            assert(stored != id);
            let m = choose|m: int| 0 <= m < entries[i].ids.len() && entries[i].ids[m] == stored;
            entries[i].ids.lemma_filter_contains(other_than(id), m);
        }
    }
}

/// No pair of a collection and a field has two entries.
pub open spec fn declared_once(entries: Seq<FieldIndexView>) -> bool {
    forall|i: int, j: int|
        0 <= i < j < entries.len() ==> !is_entry_of(
            #[trigger] entries[j],
            (#[trigger] entries[i]).collection,
            entries[i].field,
        )
}

/// Every pair is declared once, whatever is done to the index: an index
/// without entries has no pair twice, and neither declaring, recording,
/// forgetting nor building anew brings a second entry for a pair.
pub proof fn law_pairs_are_declared_once(
    entries: Seq<FieldIndexView>,
    collection: Seq<char>,
    field: Seq<char>,
    fields: Seq<Seq<char>>,
    id: Seq<char>,
    stored: Seq<StoredView>,
)
    requires
        declared_once(entries),
    ensures
        declared_once(Seq::empty()),
        declared_once(with_declared(entries, collection, field, stored)),
        declared_once(with_recorded(entries, collection, fields, id)),
        declared_once(with_forgotten(entries, collection, id)),
        declared_once(with_rebuilt(entries, collection, stored)),
{
    let more = with_declared(entries, collection, field, stored);
    assert forall|i: int, j: int| 0 <= i < j < more.len() implies !is_entry_of(
        #[trigger] more[j],
        (#[trigger] more[i]).collection,
        more[i].field,
    ) by {
        if j < entries.len() {
            assert(more[i] == entries[i] && more[j] == entries[j]);
        } else {
            assert(more[i] == entries[i]);
        }
    }
}

/// An index without entries agrees with every disk.
pub proof fn law_empty_index_agrees(
    files: Map<Seq<char>, Seq<u8>>,
    root: Seq<char>,
    collection: Seq<char>,
)
    ensures
        index_agrees(Seq::empty(), files, root, collection),
{
}

/// No request is made for an unsafe name. A query or a scan on a
/// collection whose name is unsafe asks nothing of the file system, and so
/// does a lookup or a deletion where the collection's name or the identifier
/// is unsafe.
pub proof fn law_unsafe_names_ask_nothing(
    db: Database,
    collection: Seq<char>,
    id: Seq<char>,
    fields: Seq<Seq<char>>,
    request: RequestView,
)
    ensures
        !is_safe_name(collection) ==> find_plan(db.root(), db.entries(), collection, fields).len()
            == 0,
        !is_safe_name(collection) ==> scan_plan(db.root(), collection).len() == 0,
        !(is_safe_name(collection) && is_safe_name(id)) ==> single_plan(
            collection,
            id,
            request,
        ).len() == 0,
{
}

/// What a healthy disk lists of a collection that holds nothing but
/// documents that decode is accepted for building an index, and the
/// identifiers that it gives for a field are those of all stored documents
/// that have the field.
pub proof fn lemma_listing_gives_all_ids(
    files: Map<Seq<char>, Seq<u8>>,
    root: Seq<char>,
    collection: Seq<char>,
    answers: Seq<Response>,
    field: Seq<char>,
)
    requires
        is_safe_name(collection),
        collection_decodes(files, root, collection),
        holds_only_documents(files, root, collection),
        serves(files, scan_plan(root, collection), answers),
    ensures
        rebuild_listing(collection, answers) is Ok,
        forall|id: Seq<char>|
            is_safe_name(id) && files.contains_key(#[trigger] document_path(root, collection, id))
                && document_keys(
                document_of(files[document_path(root, collection, id)]),
            ).contains(field) ==> ids_having(
                described(rebuild_listing(collection, answers)->Ok_0),
                field,
            ).contains(id),
{
    let dir = collection_path(root, collection);
    let scan = scan_plan(root, collection);
    assert(scan.take(0) =~= Seq::<RequestView>::empty());
    assert(effects(files, scan.take(0)) == files);
    assert(answers_to(files, scan[0], answers[0]));
    match answers[0] {
        Response::Entries(found) => {
            assert forall|j: int| 0 <= j < contents_of(found@).len() implies decoding(
                #[trigger] contents_of(found@)[j],
            ) is Ok by {
                assert(listed(files, dir, found@[j].name@));
            }
            lemma_no_decode_fault(contents_of(found@));
            assert forall|k: int| 0 <= k < described(found@).len() implies is_safe_name(
                (#[trigger] described(found@)[k]).id,
            ) by {
                assert(listed(files, dir, found@[k].name@));
                assert(is_document_file(found@[k].name@));
                lemma_document_id_of_file_name(found@[k].name@.take(found@[k].name@.len() - 5));
            }
        },
        _ => {},
    }
    let listing = rebuild_listing(collection, answers)->Ok_0;
    let stored = described(listing);
    assert forall|id: Seq<char>|
        is_safe_name(id) && files.contains_key(#[trigger] document_path(root, collection, id))
            && document_keys(
            document_of(files[document_path(root, collection, id)]),
        ).contains(field) implies ids_having(stored, field).contains(id) by {
        lemma_file_name_is_entry_name(id);
        let name = document_file_name(id);
        assert(listed(files, dir, name));
        match answers[0] {
            Response::Entries(found) => {
                let j = choose|j: int| 0 <= j < found@.len() && (#[trigger] found@[j]).name@ == name;
                lemma_document_id_of_file_name(id);
                assert(stored[j].id == id);
                assert(has_field(field)(stored[j]));
                stored.lemma_filter_contains(has_field(field), j);
                let kept = stored.filter(has_field(field));
                let m = choose|m: int| 0 <= m < kept.len() && kept[m] == stored[j];
                assert(ids_having(stored, field)[m] == id);
            },
            _ => {
                assert(holds_nothing(files, dir));
            },
        }
    }
}

/// Building the index anew brings it into agreement with the disk. Where
/// the collection's directory holds nothing but documents that decode, the
/// index that `rebuild_index` leaves, given the answers of a healthy disk,
/// agrees with that disk on the collection, whatever it held before.
pub proof fn law_rebuilding_brings_agreement(
    files: Map<Seq<char>, Seq<u8>>,
    root: Seq<char>,
    entries: Seq<FieldIndexView>,
    collection: Seq<char>,
    answers: Seq<Response>,
)
    requires
        is_safe_name(collection),
        collection_decodes(files, root, collection),
        holds_only_documents(files, root, collection),
        serves(files, scan_plan(root, collection), answers),
    ensures
        rebuild_listing(collection, answers) is Ok,
        index_agrees(
            with_rebuilt(entries, collection, described(rebuild_listing(collection, answers)->Ok_0)),
            files,
            root,
            collection,
        ),
{
    lemma_listing_gives_all_ids(files, root, collection, answers, Seq::empty());
    let stored = described(rebuild_listing(collection, answers)->Ok_0);
    let after = with_rebuilt(entries, collection, stored);
    assert forall|i: int, id: Seq<char>|
        0 <= i < after.len() && (#[trigger] after[i]).collection == collection && is_safe_name(id)
            && files.contains_key(#[trigger] document_path(root, collection, id)) && document_keys(
            document_of(files[document_path(root, collection, id)]),
        ).contains(after[i].field) implies after[i].ids.contains(id) by {
        lemma_listing_gives_all_ids(files, root, collection, answers, entries[i].field);
    }
}

/// Declaring an index keeps the index in agreement with the disk. Where
/// the collection's directory holds nothing but documents that decode, an
/// index that agreed with the disk before `add_index` was given the answers
/// of a healthy disk agrees with it afterwards, whatever the collection
/// stored when the index was declared.
pub proof fn law_declaration_keeps_agreement(
    files: Map<Seq<char>, Seq<u8>>,
    root: Seq<char>,
    entries: Seq<FieldIndexView>,
    collection: Seq<char>,
    field: Seq<char>,
    answers: Seq<Response>,
    other: Seq<char>,
)
    requires
        is_safe_name(collection),
        collection_decodes(files, root, collection),
        holds_only_documents(files, root, collection),
        serves(files, scan_plan(root, collection), answers),
        index_agrees(entries, files, root, other),
    ensures
        rebuild_listing(collection, answers) is Ok,
        index_agrees(
            with_declared(
                entries,
                collection,
                field,
                described(rebuild_listing(collection, answers)->Ok_0),
            ),
            files,
            root,
            other,
        ),
{
    lemma_listing_gives_all_ids(files, root, collection, answers, field);
    let stored = described(rebuild_listing(collection, answers)->Ok_0);
    let after = with_declared(entries, collection, field, stored);
    assert forall|i: int, id: Seq<char>|
        0 <= i < after.len() && (#[trigger] after[i]).collection == other && is_safe_name(id)
            && files.contains_key(#[trigger] document_path(root, other, id)) && document_keys(
            document_of(files[document_path(root, other, id)]),
        ).contains(after[i].field) implies after[i].ids.contains(id) by {
        if i < entries.len() {
            assert(after[i] == entries[i]);
        }
    }
}

} // verus!
