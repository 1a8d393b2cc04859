//! Documents, their fields and their binary encoding.
//!
//! A document is a `bson::Document`. The verifier sees nothing inside one:
//! what the store needs of a document is given a name here, and each call
//! into `bson` stands behind one small function whose contract is taken on
//! trust from that crate's source.

use vstd::prelude::*;

verus! {

/// `bson::Document`, an insertion-ordered map from field names to values.
#[verifier::external_type_specification]
#[verifier::external_body]
pub struct ExDocument(bson::Document);

/// `bson::ser::Error`, the reason a document could not be encoded.
#[verifier::external_type_specification]
#[verifier::external_body]
pub struct ExEncodeError(bson::ser::Error);

/// `bson::de::Error`, the reason some bytes could not be decoded.
#[verifier::external_type_specification]
#[verifier::external_body]
pub struct ExDecodeError(bson::de::Error);

/// The field names of a document, in the document's own order.
pub uninterp spec fn document_keys(doc: bson::Document) -> Seq<Seq<char>>;

/// Whether `doc` and `other` hold equal values under `key`, as `bson`
/// compares them; two documents that both lack the field agree on it.
pub uninterp spec fn field_agrees(
    doc: bson::Document,
    other: bson::Document,
    key: Seq<char>,
) -> bool;

/// The bytes that `bson` encodes a document to, or its reason not to.
pub uninterp spec fn encoding(doc: bson::Document) -> Result<Seq<u8>, bson::ser::Error>;

/// The document that `bson` decodes some bytes to, or its reason not to.
pub uninterp spec fn decoding(bytes: Seq<u8>) -> Result<bson::Document, bson::de::Error>;

/// Calls `bson::Document::keys` and copies the names out, in their order.
#[verifier::external_body]
pub(crate) fn field_names(doc: &bson::Document) -> (names: Vec<String>)
    ensures
        names.deep_view() == document_keys(*doc),
{
    doc.keys().cloned().collect()
}

/// Compares what `bson::Document::get` finds under `key` in the two
/// documents, with the equality of `bson`'s values. The second clause is that
/// of `Option`: a value found equals nothing but another value found.
#[verifier::external_body]
pub(crate) fn same_field(
    doc: &bson::Document,
    other: &bson::Document,
    key: &String,
) -> (same: bool)
    ensures
        same == field_agrees(*doc, *other, key@),
        same ==> (document_keys(*doc).contains(key@) <==> document_keys(*other).contains(key@)),
{
    doc.get(key) == other.get(key)
}

/// Calls `bson::Document::to_writer` on an empty buffer and hands back what
/// was written, or the error.
#[verifier::external_body]
pub(crate) fn encode(doc: &bson::Document) -> (result: Result<Vec<u8>, bson::ser::Error>)
    ensures
        match result {
            Ok(bytes) => encoding(*doc) == Ok::<Seq<u8>, bson::ser::Error>(bytes@),
            Err(e) => encoding(*doc) == Err::<Seq<u8>, bson::ser::Error>(e),
        },
{
    let mut bytes = Vec::new();
    match doc.to_writer(&mut bytes) {
        Ok(()) => Ok(bytes),
        Err(e) => Err(e),
    }
}

/// Calls `bson::Document::from_reader` on the bytes. Before it decodes,
/// `bson` reserves as many bytes as the first four announce, up to two
/// gigabytes, whatever follows them.
#[verifier::external_body]
pub(crate) fn decode(bytes: &Vec<u8>) -> (result: Result<bson::Document, bson::de::Error>)
    ensures
        result == decoding(bytes@),
{
    bson::Document::from_reader(bytes.as_slice())
}

/// The document holds the field `key` of `query`, with an equal value.
pub open spec fn holds_field(doc: bson::Document, query: bson::Document, key: Seq<char>) -> bool {
    document_keys(doc).contains(key) && field_agrees(doc, query, key)
}

/// The document meets every constraint of the query: it holds each field
/// that the query names, with an equal value. A query without fields is met
/// by every document.
pub open spec fn satisfies(doc: bson::Document, query: bson::Document) -> bool {
    forall|i: int|
        0 <= i < document_keys(query).len() ==> holds_field(
            doc,
            query,
            #[trigger] document_keys(query)[i],
        )
}

/// Says whether the document meets every constraint of the query.
pub fn matches_query(doc: &bson::Document, query: &bson::Document) -> (yes: bool)
    ensures
        yes == satisfies(*doc, *query),
{
    let keys = field_names(query);
    let mut i: usize = 0;
    while i < keys.len()
        invariant
            i <= keys.len(),
            keys.deep_view() == document_keys(*query),
            forall|k: int|
                0 <= k < i ==> holds_field(*doc, *query, #[trigger] document_keys(*query)[k]),
        decreases keys.len() - i,
    {
        assert(keys.deep_view()[i as int] == keys@[i as int]@);
        assert(document_keys(*query).contains(keys@[i as int]@));
        if !same_field(doc, query, &keys[i]) {
            return false;
        }
        i = i + 1;
    }
    true
}

} // verus!
