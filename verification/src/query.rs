//! Choosing, among stored files, the documents that a query asks for.
//!
//! A query is a document: each of its fields is a constraint, and a stored
//! document is chosen where it meets them all. The files are taken in the
//! order in which they were read, and the first one that does not decode ends
//! the walk.

use vstd::prelude::*;
use crate::document::{decode, decoding, matches_query, satisfies};
use crate::error::DatabaseError;
use crate::exchange::{contents_of, delivered, DirEntry, IoFailure, Response};

verus! {

/// The document that the bytes decode to, where they decode.
pub open spec fn document_of(bytes: Seq<u8>) -> bson::Document {
    decoding(bytes)->Ok_0
}

/// The documents that the contents decode to, in their order.
pub open spec fn documents_of(contents: Seq<Seq<u8>>) -> Seq<bson::Document> {
    contents.map_values(|bytes: Seq<u8>| document_of(bytes))
}

/// Why the first content that does not decode fails, if one fails.
pub open spec fn decode_fault(contents: Seq<Seq<u8>>) -> Option<bson::de::Error>
    decreases contents.len(),
{
    if contents.len() == 0 {
        None
    } else {
        match decode_fault(contents.drop_last()) {
            Some(e) => Some(e),
            None => match decoding(contents.last()) {
                Ok(_) => None,
                Err(e) => Some(e),
            },
        }
    }
}

/// The test that a document passes where it meets the query.
pub open spec fn meets(query: bson::Document) -> spec_fn(bson::Document) -> bool {
    |doc: bson::Document| satisfies(doc, query)
}

/// The test that a directory entry passes where its document meets the query.
pub open spec fn holds_match(query: bson::Document) -> spec_fn(DirEntry) -> bool {
    |entry: DirEntry| satisfies(document_of(entry.content@), query)
}

/// The documents among the contents that meet the query, in their order; or
/// the failure of the first content that does not decode.
pub open spec fn selected(contents: Seq<Seq<u8>>, query: bson::Document) -> Result<
    Seq<bson::Document>,
    DatabaseError,
> {
    match decode_fault(contents) {
        Some(e) => Err(DatabaseError::BsonDeError(e)),
        None => Ok(documents_of(contents).filter(meets(query))),
    }
}

/// The names of the entries whose documents meet the query, in their order;
/// or the failure of the first entry that does not decode.
pub open spec fn doomed(entries: Seq<DirEntry>, query: bson::Document) -> Result<
    Seq<Seq<char>>,
    DatabaseError,
> {
    match decode_fault(contents_of(entries)) {
        Some(e) => Err(DatabaseError::BsonDeError(e)),
        None => Ok(entries.filter(holds_match(query)).map_values(|entry: DirEntry| entry.name@)),
    }
}

/// One more content at the end fails the walk where the walk had failed
/// already or the content does not decode, and else adds its document where
/// that meets the query.
pub proof fn lemma_selected_push(contents: Seq<Seq<u8>>, bytes: Seq<u8>, query: bson::Document)
    ensures
        selected(contents.push(bytes), query) == match selected(contents, query) {
            Err(e) => Err::<Seq<bson::Document>, DatabaseError>(e),
            Ok(docs) => match decoding(bytes) {
                Err(e) => Err(DatabaseError::BsonDeError(e)),
                Ok(doc) => Ok(
                    if satisfies(doc, query) {
                        docs.push(doc)
                    } else {
                        docs
                    },
                ),
            },
        },
{
    let longer = contents.push(bytes);
    assert(longer.drop_last() =~= contents);
    assert(longer.last() == bytes);
    assert(documents_of(longer) =~= documents_of(contents).push(document_of(bytes)));
    documents_of(contents).lemma_filter_push(document_of(bytes), meets(query));
}

/// One more entry at the end fails the walk where the walk had failed
/// already or the entry does not decode, and else adds its name where its
/// document meets the query.
pub proof fn lemma_doomed_push(entries: Seq<DirEntry>, entry: DirEntry, query: bson::Document)
    ensures
        doomed(entries.push(entry), query) == match doomed(entries, query) {
            Err(e) => Err::<Seq<Seq<char>>, DatabaseError>(e),
            Ok(names) => match decoding(entry.content@) {
                Err(e) => Err(DatabaseError::BsonDeError(e)),
                Ok(doc) => Ok(
                    if satisfies(doc, query) {
                        names.push(entry.name@)
                    } else {
                        names
                    },
                ),
            },
        },
{
    let longer = entries.push(entry);
    assert(contents_of(longer) =~= contents_of(entries).push(entry.content@));
    assert(contents_of(longer).drop_last() =~= contents_of(entries));
    entries.lemma_filter_push(entry, holds_match(query));
    let name = |e: DirEntry| e.name@;
    assert(entries.filter(holds_match(query)).push(entry).map_values(name) =~= entries.filter(
        holds_match(query),
    ).map_values(name).push(entry.name@));
}

/// Decodes one content and, where its document meets the query, puts it at
/// the end of `found`.
fn select_one(
    bytes: &Vec<u8>,
    query: &bson::Document,
    found: &mut Vec<bson::Document>,
) -> (result: Result<(), DatabaseError>)
    ensures
        match decoding(bytes@) {
            Err(e) => {
                &&& result == Err::<(), DatabaseError>(DatabaseError::BsonDeError(e))
                &&& final(found)@ == old(found)@
            },
            Ok(doc) => result is Ok && final(found)@ == if satisfies(doc, *query) {
                old(found)@.push(doc)
            } else {
                old(found)@
            },
        },
{
    match decode(bytes) {
        Ok(doc) => {
            if matches_query(&doc, query) {
                found.push(doc);
            }
            Ok(())
        },
        Err(e) => Err(DatabaseError::BsonDeError(e)),
    }
}

/// Decodes the entries in their order and puts the documents that meet the
/// query at the end of `found`. Stops at the first entry that does not decode.
fn select_entries(
    entries: &Vec<DirEntry>,
    query: &bson::Document,
    found: &mut Vec<bson::Document>,
) -> (result: Result<(), DatabaseError>)
    ensures
        match selected(contents_of(entries@), *query) {
            Err(e) => result == Err::<(), DatabaseError>(e),
            Ok(docs) => result is Ok && final(found)@ == old(found)@ + docs,
        },
{
    let ghost contents = contents_of(entries@);
    let mut i: usize = 0;
    assert(contents.take(0) =~= Seq::<Seq<u8>>::empty());
    proof {
        lemma_selected_none(*query);
    }
    assert(found@ =~= old(found)@ + Seq::<bson::Document>::empty());
    while i < entries.len()
        invariant
            i <= entries.len(),
            contents == contents_of(entries@),
            selected(contents.take(i as int), *query) is Ok,
            found@ == old(found)@ + selected(contents.take(i as int), *query)->Ok_0,
        decreases entries.len() - i,
    {
        let ghost so_far = selected(contents.take(i as int), *query)->Ok_0;
        proof {
            assert(contents.take(i + 1)
                =~= contents.take(i as int).push(entries@[i as int].content@));
            lemma_selected_push(contents.take(i as int), entries@[i as int].content@, *query);
        }
        match select_one(&entries[i].content, query, found) {
            Ok(()) => {
                assert(found@ =~= old(found)@ + selected(contents.take(i + 1), *query)->Ok_0);
            },
            Err(e) => {
                proof {
                    lemma_selected_fails_on(contents, i + 1, *query);
                }
                return Err(e);
            },
        }
        i = i + 1;
    }
    assert(contents.take(entries.len() as int) =~= contents);
    Ok(())
}

/// A walk that has failed after some of the contents fails the same way on
/// all of them.
pub proof fn lemma_selected_fails_on(contents: Seq<Seq<u8>>, upto: int, query: bson::Document)
    requires
        0 <= upto <= contents.len(),
        selected(contents.take(upto), query) is Err,
    ensures
        selected(contents, query) == selected(contents.take(upto), query),
    decreases contents.len() - upto,
{
    if upto == contents.len() {
        assert(contents.take(upto) =~= contents);
    } else {
        assert(contents.take(upto + 1) =~= contents.take(upto).push(contents[upto]));
        lemma_selected_push(contents.take(upto), contents[upto], query);
        lemma_selected_fails_on(contents, upto + 1, query);
    }
}

/// No contents give no documents.
pub proof fn lemma_selected_none(query: bson::Document)
    ensures
        selected(Seq::empty(), query) == Ok::<Seq<bson::Document>, DatabaseError>(Seq::empty()),
{
    reveal(Seq::filter);
    assert(documents_of(Seq::empty()) =~= Seq::<bson::Document>::empty());
}

/// The documents that the answers to a query's reads deliver and that meet
/// the query, in the order of the answers; or the first failure met on the
/// way, be it one of reading or one of decoding.
pub open spec fn found_in(answers: Seq<Response>, query: bson::Document) -> Result<
    Seq<bson::Document>,
    DatabaseError,
>
    decreases answers.len(),
{
    if answers.len() == 0 {
        Ok(Seq::empty())
    } else {
        match found_in(answers.drop_last(), query) {
            Err(e) => Err(e),
            Ok(before) => match delivered(answers.last()) {
                Err(failure) => Err(DatabaseError::IoError(failure)),
                Ok(contents) => match selected(contents, query) {
                    Err(e) => Err(e),
                    Ok(docs) => Ok(before + docs),
                },
            },
        }
    }
}

/// A walk that has failed after some of the answers fails the same way on
/// all of them.
pub proof fn lemma_found_in_fails_on(answers: Seq<Response>, upto: int, query: bson::Document)
    requires
        0 <= upto <= answers.len(),
        found_in(answers.take(upto), query) is Err,
    ensures
        found_in(answers, query) == found_in(answers.take(upto), query),
    decreases answers.len() - upto,
{
    if upto == answers.len() {
        assert(answers.take(upto) =~= answers);
    } else {
        assert(answers.take(upto + 1).drop_last() =~= answers.take(upto));
        lemma_found_in_fails_on(answers, upto + 1, query);
    }
}

/// Walks the answers to a query's reads and gathers the documents that meet
/// the query.
pub fn gather(answers: &Vec<Response>, query: &bson::Document) -> (result: Result<
    Vec<bson::Document>,
    DatabaseError,
>)
    ensures
        match found_in(answers@, *query) {
            Ok(docs) => result is Ok && result->Ok_0@ == docs,
            Err(e) => result == Err::<Vec<bson::Document>, DatabaseError>(e),
        },
{
    let mut found: Vec<bson::Document> = Vec::new();
    let mut i: usize = 0;
    assert(answers@.take(0) =~= Seq::<Response>::empty());
    while i < answers.len()
        invariant
            i <= answers.len(),
            found_in(answers@.take(i as int), *query) == Ok::<Seq<bson::Document>, DatabaseError>(
                found@,
            ),
        decreases answers.len() - i,
    {
        let ghost before = found@;
        proof {
            assert(answers@.take(i + 1).drop_last() =~= answers@.take(i as int));
            assert(answers@.take(i + 1).last() == answers@[i as int]);
        }
        let step = match &answers[i] {
            Response::Content(bytes) => {
                proof {
                    lemma_selected_none(*query);
                    lemma_selected_push(Seq::empty(), bytes@, *query);
                    assert(Seq::<Seq<u8>>::empty().push(bytes@) =~= seq![bytes@]);
                }
                let step = select_one(bytes, query, &mut found);
                assert(step is Ok ==> found@ =~= before + selected(seq![bytes@], *query)->Ok_0);
                step
            },
            Response::Entries(entries) => select_entries(entries, query, &mut found),
            Response::Failed(failure) => match failure {
                IoFailure::NotFound { .. } => {
                    proof {
                        lemma_selected_none(*query);
                    }
                    assert(found@ =~= before + Seq::<bson::Document>::empty());
                    Ok(())
                },
                _ => Err(DatabaseError::IoError(failure.clone())),
            },
            Response::Done => Err(DatabaseError::IoError(IoFailure::BrokenExchange)),
        };
        match step {
            Ok(()) => {},
            Err(e) => {
                proof {
                    lemma_found_in_fails_on(answers@, i + 1, *query);
                }
                return Err(e);
            },
        }
        i = i + 1;
    }
    assert(answers@.take(answers.len() as int) =~= answers@);
    Ok(found)
}

/// A walk over entries that has failed after some of them fails the same
/// way on all of them.
pub proof fn lemma_doomed_fails_on(entries: Seq<DirEntry>, upto: int, query: bson::Document)
    requires
        0 <= upto <= entries.len(),
        doomed(entries.take(upto), query) is Err,
    ensures
        doomed(entries, query) == doomed(entries.take(upto), query),
    decreases entries.len() - upto,
{
    if upto == entries.len() {
        assert(entries.take(upto) =~= entries);
    } else {
        assert(entries.take(upto + 1) =~= entries.take(upto).push(entries[upto]));
        lemma_doomed_push(entries.take(upto), entries[upto], query);
        lemma_doomed_fails_on(entries, upto + 1, query);
    }
}

/// No entries doom no file.
pub proof fn lemma_doomed_none(query: bson::Document)
    ensures
        doomed(Seq::empty(), query) == Ok::<Seq<Seq<char>>, DatabaseError>(Seq::empty()),
{
    let name = |e: DirEntry| e.name@;
    reveal(Seq::filter);
    assert(contents_of(Seq::<DirEntry>::empty()) =~= Seq::<Seq<u8>>::empty());
    assert(Seq::<DirEntry>::empty().filter(holds_match(query)).map_values(name) =~= Seq::<
        Seq<char>,
    >::empty());
}

/// Decodes the entries in their order and gives the names of those whose
/// documents meet the query. Stops at the first entry that does not decode.
pub fn pick_doomed(entries: &Vec<DirEntry>, query: &bson::Document) -> (result: Result<
    Vec<String>,
    DatabaseError,
>)
    ensures
        match doomed(entries@, *query) {
            Ok(names) => result is Ok && result->Ok_0.deep_view() == names,
            Err(e) => result == Err::<Vec<String>, DatabaseError>(e),
        },
{
    let mut names: Vec<String> = Vec::new();
    let mut i: usize = 0;
    proof {
        lemma_doomed_none(*query);
        assert(entries@.take(0) =~= Seq::<DirEntry>::empty());
        assert(names.deep_view() =~= Seq::<Seq<char>>::empty());
    }
    while i < entries.len()
        invariant
            i <= entries.len(),
            doomed(entries@.take(i as int), *query) == Ok::<Seq<Seq<char>>, DatabaseError>(
                names.deep_view(),
            ),
        decreases entries.len() - i,
    {
        let ghost so_far = names.deep_view();
        proof {
            assert(entries@.take(i + 1) =~= entries@.take(i as int).push(entries@[i as int]));
            lemma_doomed_push(entries@.take(i as int), entries@[i as int], *query);
        }
        match decode(&entries[i].content) {
            Ok(doc) => {
                if matches_query(&doc, query) {
                    names.push(entries[i].name.clone());
                    assert(names.deep_view() =~= so_far.push(entries@[i as int].name@));
                }
            },
            Err(e) => {
                proof {
                    lemma_doomed_fails_on(entries@, i + 1, *query);
                }
                return Err(DatabaseError::BsonDeError(e));
            },
        }
        i = i + 1;
    }
    assert(entries@.take(entries.len() as int) =~= entries@);
    Ok(names)
}

/// A decoding failure met among some of the contents is the one met among
/// all of them.
pub proof fn lemma_decode_fault_stays(contents: Seq<Seq<u8>>, upto: int)
    requires
        0 <= upto <= contents.len(),
        decode_fault(contents.take(upto)) is Some,
    ensures
        decode_fault(contents) == decode_fault(contents.take(upto)),
    decreases contents.len() - upto,
{
    if upto == contents.len() {
        assert(contents.take(upto) =~= contents);
    } else {
        assert(contents.take(upto + 1).drop_last() =~= contents.take(upto));
        lemma_decode_fault_stays(contents, upto + 1);
    }
}

} // verus!
