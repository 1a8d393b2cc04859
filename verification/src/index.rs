//! The field index: for each declared pair of a collection and a field, the
//! identifiers of the stored documents that have that field.
//!
//! An entry is filled when it is declared, from what the collection stores,
//! and kept as documents come and go. The index lives in memory only. It
//! narrows the files that a query has to read, to safe names only; it never
//! decides whether a document matches.

use vstd::prelude::*;
use crate::path::{is_safe_name, safe_name};

verus! {

/// The identifiers recorded for one field of one collection.
#[derive(Debug)]
pub struct FieldIndex {
    pub collection: String,
    pub field: String,
    pub ids: Vec<String>,
}

/// A `FieldIndex` as a mathematical value.
pub struct FieldIndexView {
    pub collection: Seq<char>,
    pub field: Seq<char>,
    pub ids: Seq<Seq<char>>,
}

impl DeepView for FieldIndex {
    type V = FieldIndexView;

    open spec fn deep_view(&self) -> FieldIndexView {
        FieldIndexView {
            collection: self.collection@,
            field: self.field@,
            ids: self.ids.deep_view(),
        }
    }
}

/// The entry is the one declared for this field of this collection.
pub open spec fn is_entry_of(
    entry: FieldIndexView,
    collection: Seq<char>,
    field: Seq<char>,
) -> bool {
    entry.collection == collection && entry.field == field
}

/// The entry belongs to the collection and indexes one of the given fields.
pub open spec fn applies(
    entry: FieldIndexView,
    collection: Seq<char>,
    fields: Seq<Seq<char>>,
) -> bool {
    entry.collection == collection && fields.contains(entry.field)
}

/// An index has been declared for this field of this collection.
pub open spec fn declared(
    entries: Seq<FieldIndexView>,
    collection: Seq<char>,
    field: Seq<char>,
) -> bool {
    exists|i: int| 0 <= i < entries.len() && is_entry_of(#[trigger] entries[i], collection, field)
}

/// The identifiers recorded under this field of this collection.
pub open spec fn recorded(
    entries: Seq<FieldIndexView>,
    collection: Seq<char>,
    field: Seq<char>,
) -> Set<
    Seq<char>,
> {
    Set::new(
        |id: Seq<char>|
            exists|i: int|
                0 <= i < entries.len() && is_entry_of(#[trigger] entries[i], collection, field)
                    && entries[i].ids.contains(id),
    )
}

/// One entry after a document with the given fields was inserted.
pub open spec fn entry_with_recorded(
    entry: FieldIndexView,
    collection: Seq<char>,
    fields: Seq<Seq<char>>,
    id: Seq<char>,
) -> FieldIndexView {
    if applies(entry, collection, fields) {
        FieldIndexView { ids: entry.ids.push(id), ..entry }
    } else {
        entry
    }
}

/// The entries after a document with the given fields was inserted into the
/// collection: its identifier stands at the end of every entry of the
/// collection whose field the document has.
pub open spec fn with_recorded(
    entries: Seq<FieldIndexView>,
    collection: Seq<char>,
    fields: Seq<Seq<char>>,
    id: Seq<char>,
) -> Seq<FieldIndexView> {
    entries.map_values(|e: FieldIndexView| entry_with_recorded(e, collection, fields, id))
}

/// The test that every identifier but `id` passes.
pub open spec fn other_than(id: Seq<char>) -> spec_fn(Seq<char>) -> bool {
    |other: Seq<char>| other != id
}

/// One entry after the document with the given identifier was deleted.
pub open spec fn entry_with_forgotten(
    entry: FieldIndexView,
    collection: Seq<char>,
    id: Seq<char>,
) -> FieldIndexView {
    if entry.collection == collection {
        FieldIndexView { ids: entry.ids.filter(other_than(id)), ..entry }
    } else {
        entry
    }
}

/// The entries after a document was deleted from the collection: its
/// identifier stands in no entry of the collection any more.
pub open spec fn with_forgotten(
    entries: Seq<FieldIndexView>,
    collection: Seq<char>,
    id: Seq<char>,
) -> Seq<FieldIndexView> {
    entries.map_values(|e: FieldIndexView| entry_with_forgotten(e, collection, id))
}

/// The entries after the documents with the given identifiers were deleted
/// from the collection.
pub open spec fn with_all_forgotten(
    entries: Seq<FieldIndexView>,
    collection: Seq<char>,
    ids: Seq<Seq<char>>,
) -> Seq<FieldIndexView>
    decreases ids.len(),
{
    if ids.len() == 0 {
        entries
    } else {
        with_forgotten(with_all_forgotten(entries, collection, ids.drop_last()), collection, ids.last())
    }
}

/// What the index needs to know of one stored document.
#[derive(Debug)]
pub struct Stored {
    /// The document's identifier.
    pub id: String,
    /// The names of the document's fields.
    pub fields: Vec<String>,
}

/// A `Stored` as a mathematical value.
pub struct StoredView {
    pub id: Seq<char>,
    pub fields: Seq<Seq<char>>,
}

impl DeepView for Stored {
    type V = StoredView;

    open spec fn deep_view(&self) -> StoredView {
        StoredView { id: self.id@, fields: self.fields.deep_view() }
    }
}

/// The test that a stored document passes where it has the field.
pub open spec fn has_field(field: Seq<char>) -> spec_fn(StoredView) -> bool {
    |stored: StoredView| stored.fields.contains(field)
}

/// The identifiers of the stored documents that have the field, in their
/// order.
pub open spec fn ids_having(stored: Seq<StoredView>, field: Seq<char>) -> Seq<Seq<char>> {
    stored.filter(has_field(field)).map_values(|s: StoredView| s.id)
}

/// The entries after an index was declared on a field of a collection that
/// stores the given documents: a new entry at the end, which holds the
/// identifiers of the stored documents that have the field; or the entries as
/// they were, where the pair had an entry already.
pub open spec fn with_declared(
    entries: Seq<FieldIndexView>,
    collection: Seq<char>,
    field: Seq<char>,
    stored: Seq<StoredView>,
) -> Seq<FieldIndexView> {
    if declared(entries, collection, field) {
        entries
    } else {
        entries.push(FieldIndexView { collection, field, ids: ids_having(stored, field) })
    }
}

/// One entry after the index was built anew for a collection.
pub open spec fn entry_rebuilt(
    entry: FieldIndexView,
    collection: Seq<char>,
    stored: Seq<StoredView>,
) -> FieldIndexView {
    if entry.collection == collection {
        FieldIndexView { ids: ids_having(stored, entry.field), ..entry }
    } else {
        entry
    }
}

/// The entries after the index was built anew for a collection from the
/// documents that it stores: every entry of the collection holds the
/// identifiers of the stored documents that have its field, and nothing else.
pub open spec fn with_rebuilt(
    entries: Seq<FieldIndexView>,
    collection: Seq<char>,
    stored: Seq<StoredView>,
) -> Seq<FieldIndexView> {
    entries.map_values(|e: FieldIndexView| entry_rebuilt(e, collection, stored))
}

/// The position of the first entry that applies to the query, if there is one.
pub open spec fn first_applying(
    entries: Seq<FieldIndexView>,
    collection: Seq<char>,
    fields: Seq<Seq<char>>,
) -> Option<int>
    decreases entries.len(),
{
    if entries.len() == 0 {
        None
    } else {
        match first_applying(entries.drop_last(), collection, fields) {
            Some(i) => Some(i),
            None => if applies(entries.last(), collection, fields) {
                Some(entries.len() - 1)
            } else {
                None
            },
        }
    }
}

/// The identifier stands in every entry that applies to the query.
pub open spec fn in_every_applying(
    entries: Seq<FieldIndexView>,
    collection: Seq<char>,
    fields: Seq<Seq<char>>,
    id: Seq<char>,
) -> bool {
    forall|j: int|
        0 <= j < entries.len() && applies(#[trigger] entries[j], collection, fields)
            ==> entries[j].ids.contains(id)
}

/// The test that an identifier passes where it is a safe name and stands in
/// every entry that applies to the query.
pub open spec fn common_to_applying(
    entries: Seq<FieldIndexView>,
    collection: Seq<char>,
    fields: Seq<Seq<char>>,
) -> spec_fn(Seq<char>) -> bool {
    |id: Seq<char>| is_safe_name(id) && in_every_applying(entries, collection, fields, id)
}

/// The identifiers that a query on the given fields has to look at: where
/// one or more of the fields are indexed for the collection, the safe names
/// that stand in the entry of each such field, in the order of the first such
/// entry; `None` where none of the fields is indexed.
pub open spec fn narrowed(
    entries: Seq<FieldIndexView>,
    collection: Seq<char>,
    fields: Seq<Seq<char>>,
) -> Option<Seq<Seq<char>>> {
    match first_applying(entries, collection, fields) {
        None => None,
        Some(first) => Some(
            entries[first].ids.filter(common_to_applying(entries, collection, fields)),
        ),
    }
}

/// The index of a store.
#[derive(Debug)]
pub struct Index {
    entries: Vec<FieldIndex>,
}

/// Says whether `name` stands in `names`.
pub fn contains_name(names: &Vec<String>, name: &String) -> (found: bool)
    ensures
        found == names.deep_view().contains(name@),
{
    let mut i: usize = 0;
    while i < names.len()
        invariant
            i <= names.len(),
            forall|k: int| 0 <= k < i ==> names.deep_view()[k] != name@,
        decreases names.len() - i,
    {
        assert(names.deep_view()[i as int] == names@[i as int]@);
        if names[i] == *name {
            return true;
        }
        i = i + 1;
    }
    false
}

/// The names but `name`, in their order.
pub fn without_name(names: &Vec<String>, name: &String) -> (kept: Vec<String>)
    ensures
        kept.deep_view() == names.deep_view().filter(other_than(name@)),
{
    let mut kept: Vec<String> = Vec::new();
    let mut j: usize = 0;
    assert(names.deep_view().take(0) =~= Seq::<Seq<char>>::empty());
    assert(kept.deep_view() =~= Seq::<Seq<char>>::empty());
    while j < names.len()
        invariant
            j <= names.len(),
            kept.deep_view() == names.deep_view().take(j as int).filter(other_than(name@)),
        decreases names.len() - j,
    {
        let ghost so_far = kept.deep_view();
        assert(names.deep_view()[j as int] == names@[j as int]@);
        assert(names.deep_view().take(j + 1) =~= names.deep_view().take(j as int).push(
            names@[j as int]@,
        ));
        proof {
            names.deep_view().take(j as int).lemma_filter_push(names@[j as int]@, other_than(name@));
        }
        if names[j] != *name {
            kept.push(names[j].clone());
            assert(kept.deep_view() =~= so_far.push(names@[j as int]@));
        }
        j = j + 1;
    }
    assert(names.deep_view().take(names.len() as int) =~= names.deep_view());
    kept
}

/// `first_applying` gives the least position of an entry that applies.
pub proof fn lemma_first_applying(
    entries: Seq<FieldIndexView>,
    collection: Seq<char>,
    fields: Seq<Seq<char>>,
)
    ensures
        match first_applying(entries, collection, fields) {
            None => forall|j: int|
                0 <= j < entries.len() ==> !applies(#[trigger] entries[j], collection, fields),
            Some(first) => {
                &&& 0 <= first < entries.len()
                &&& applies(entries[first], collection, fields)
                &&& forall|j: int|
                    0 <= j < first ==> !applies(#[trigger] entries[j], collection, fields)
            },
        },
    decreases entries.len(),
{
    if entries.len() > 0 {
        let front = entries.drop_last();
        lemma_first_applying(front, collection, fields);
        assert forall|j: int| 0 <= j < front.len() implies front[j] == entries[j] by {}
        match first_applying(front, collection, fields) {
            Some(first) => {
                assert(front[first] == entries[first]);
                assert forall|j: int| 0 <= j < first implies !applies(
                    #[trigger] entries[j],
                    collection,
                    fields,
                ) by {
                    assert(front[j] == entries[j]);
                }
            },
            None => {
                assert forall|j: int| 0 <= j < entries.len() - 1 implies !applies(
                    #[trigger] entries[j],
                    collection,
                    fields,
                ) by {
                    assert(front[j] == entries[j]);
                }
            },
        }
    }
}

/// The identifiers of the stored documents that have the field, in their
/// order.
pub fn ids_with_field(stored: &Vec<Stored>, field: &String) -> (ids: Vec<String>)
    ensures
        ids.deep_view() == ids_having(stored.deep_view(), field@),
{
    let ghost all = stored.deep_view();
    let ghost id_of = |s: StoredView| s.id;
    let mut ids: Vec<String> = Vec::new();
    let mut j: usize = 0;
    proof {
        reveal(Seq::filter);
        assert(all.take(0) =~= Seq::<StoredView>::empty());
        assert(ids.deep_view() =~= all.take(0).filter(has_field(field@)).map_values(id_of));
    }
    while j < stored.len()
        invariant
            j <= stored.len(),
            all == stored.deep_view(),
            id_of == |s: StoredView| s.id,
            ids.deep_view() == all.take(j as int).filter(has_field(field@)).map_values(id_of),
        decreases stored.len() - j,
    {
        let ghost so_far = ids.deep_view();
        let ghost kept = all.take(j as int).filter(has_field(field@));
        proof {
            assert(all[j as int] == stored@[j as int].deep_view());
            assert(all.take(j + 1) =~= all.take(j as int).push(all[j as int]));
            all.take(j as int).lemma_filter_push(all[j as int], has_field(field@));
        }
        if contains_name(&stored[j].fields, field) {
            ids.push(stored[j].id.clone());
            assert(ids.deep_view() =~= so_far.push(all[j as int].id));
            assert(kept.push(all[j as int]).map_values(id_of) =~= kept.map_values(id_of).push(
                all[j as int].id,
            ));
        }
        j = j + 1;
    }
    assert(all.take(stored.len() as int) =~= all);
    ids
}

impl Index {
    /// The entries of the index, in the order in which they were declared.
    pub closed spec fn entries(&self) -> Seq<FieldIndexView> {
        self.entries.deep_view()
    }

    /// An index without entries.
    pub fn new() -> (index: Index)
        ensures
            index.entries() == Seq::<FieldIndexView>::empty(),
    {
        let index = Index { entries: Vec::new() };
        assert(index.entries() =~= Seq::<FieldIndexView>::empty());
        index
    }

    /// Declares an index on a field of a collection that stores the given
    /// documents. Declaring it again changes nothing.
    pub fn declare(&mut self, collection: String, field: String, stored: &Vec<Stored>)
        ensures
            final(self).entries() == with_declared(
                old(self).entries(),
                collection@,
                field@,
                stored.deep_view(),
            ),
    {
        let mut i: usize = 0;
        while i < self.entries.len()
            invariant
                i <= self.entries.len(),
                *self == *old(self),
                forall|k: int|
                    0 <= k < i ==> !is_entry_of(
                        #[trigger] self.entries.deep_view()[k],
                        collection@,
                        field@,
                    ),
            decreases self.entries.len() - i,
        {
            assert(self.entries.deep_view()[i as int] == self.entries@[i as int].deep_view());
            if self.entries[i].collection == collection && self.entries[i].field == field {
                return ;
            }
            i = i + 1;
        }
        let ghost before = self.entries.deep_view();
        let ids = ids_with_field(stored, &field);
        let ghost added = FieldIndexView {
            collection: collection@,
            field: field@,
            ids: ids.deep_view(),
        };
        self.entries.push(FieldIndex { collection, field, ids });
        assert(self.entries.deep_view() =~= before.push(added));
    }

    /// Forgets every entry.
    pub fn clear(&mut self)
        ensures
            final(self).entries() == Seq::<FieldIndexView>::empty(),
    {
        self.entries = Vec::new();
        assert(self.entries() =~= Seq::<FieldIndexView>::empty());
    }

    /// Records a document that was inserted into the collection with the
    /// given fields.
    pub fn record(&mut self, collection: &String, fields: &Vec<String>, id: &String)
        ensures
            final(self).entries() == with_recorded(
                old(self).entries(),
                collection@,
                fields.deep_view(),
                id@,
            ),
    {
        let ghost before = self.entries.deep_view();
        let mut i: usize = 0;
        while i < self.entries.len()
            invariant
                i <= self.entries.len(),
                before == old(self).entries(),
                self.entries.len() == before.len(),
                forall|k: int|
                    0 <= k < i ==> #[trigger] self.entries.deep_view()[k] == entry_with_recorded(
                        before[k],
                        collection@,
                        fields.deep_view(),
                        id@,
                    ),
                forall|k: int|
                    i <= k < before.len() ==> #[trigger] self.entries.deep_view()[k] == before[k],
            decreases self.entries.len() - i,
        {
            let ghost shown = self.entries.deep_view();
            assert(shown[i as int] == self.entries@[i as int].deep_view());
            assert(shown[i as int] == before[i as int]);
            if self.entries[i].collection == *collection && contains_name(
                fields,
                &self.entries[i].field,
            ) {
                let ghost prev = self.entries@;
                self.entries[i].ids.push(id.clone());
                assert(self.entries@[i as int].ids.deep_view() =~= prev[i as int].ids.deep_view().push(
                    id@,
                ));
                assert forall|k: int| 0 <= k < prev.len() && k != i implies #[trigger] self.entries.deep_view()[k]
                    == shown[k] by {
                    assert(self.entries@[k] == prev[k]);
                }
            }
            assert(self.entries.deep_view()[i as int] == entry_with_recorded(
                before[i as int],
                collection@,
                fields.deep_view(),
                id@,
            ));
            i = i + 1;
        }
        assert(self.entries.deep_view() =~= with_recorded(
            before,
            collection@,
            fields.deep_view(),
            id@,
        ));
    }

    /// Forgets a document that was deleted from the collection.
    pub fn forget(&mut self, collection: &String, id: &String)
        ensures
            final(self).entries() == with_forgotten(old(self).entries(), collection@, id@),
    {
        let ghost before = self.entries.deep_view();
        let mut i: usize = 0;
        while i < self.entries.len()
            invariant
                i <= self.entries.len(),
                before == old(self).entries(),
                self.entries.len() == before.len(),
                forall|k: int|
                    0 <= k < i ==> #[trigger] self.entries.deep_view()[k] == entry_with_forgotten(
                        before[k],
                        collection@,
                        id@,
                    ),
                forall|k: int|
                    i <= k < before.len() ==> #[trigger] self.entries.deep_view()[k] == before[k],
            decreases self.entries.len() - i,
        {
            let ghost shown = self.entries.deep_view();
            assert(shown[i as int] == self.entries@[i as int].deep_view());
            assert(shown[i as int] == before[i as int]);
            if self.entries[i].collection == *collection {
                let kept = without_name(&self.entries[i].ids, id);
                let ghost prev = self.entries@;
                self.entries[i].ids = kept;
                assert forall|k: int| 0 <= k < prev.len() && k != i implies #[trigger] self.entries.deep_view()[k]
                    == shown[k] by {
                    assert(self.entries@[k] == prev[k]);
                }
            }
            assert(self.entries.deep_view()[i as int] == entry_with_forgotten(
                before[i as int],
                collection@,
                id@,
            ));
            i = i + 1;
        }
        assert(self.entries.deep_view() =~= with_forgotten(before, collection@, id@));
    }

    /// Says whether the entry at `i` applies to a query on the given fields.
    fn applies_at(&self, i: usize, collection: &String, fields: &Vec<String>) -> (yes: bool)
        requires
            i < self.entries().len(),
        ensures
            yes == applies(self.entries()[i as int], collection@, fields.deep_view()),
    {
        assert(self.entries.deep_view()[i as int] == self.entries@[i as int].deep_view());
        self.entries[i].collection == *collection && contains_name(fields, &self.entries[i].field)
    }

    /// Says whether the identifier stands in every entry that applies to a
    /// query on the given fields.
    fn stands_in_every(&self, collection: &String, fields: &Vec<String>, id: &String) -> (yes: bool)
        ensures
            yes == in_every_applying(self.entries(), collection@, fields.deep_view(), id@),
    {
        let mut j: usize = 0;
        while j < self.entries.len()
            invariant
                j <= self.entries.len(),
                forall|k: int|
                    0 <= k < j && applies(
                        #[trigger] self.entries.deep_view()[k],
                        collection@,
                        fields.deep_view(),
                    ) ==> self.entries.deep_view()[k].ids.contains(id@),
            decreases self.entries.len() - j,
        {
            assert(self.entries.deep_view()[j as int] == self.entries@[j as int].deep_view());
            if self.entries[j].collection == *collection && contains_name(
                fields,
                &self.entries[j].field,
            ) && !contains_name(&self.entries[j].ids, id) {
                return false;
            }
            j = j + 1;
        }
        true
    }

    /// The identifiers that a query on the given fields of the collection
    /// has to look at, or `None` where none of the fields is indexed.
    pub fn narrow(&self, collection: &String, fields: &Vec<String>) -> (ids: Option<Vec<String>>)
        ensures
            match ids {
                Some(found) => narrowed(self.entries(), collection@, fields.deep_view()) == Some(
                    found.deep_view(),
                ),
                None => narrowed(self.entries(), collection@, fields.deep_view()) is None,
            },
            ids matches Some(found) ==> forall|k: int|
                0 <= k < found.len() ==> is_safe_name(#[trigger] found.deep_view()[k]),
    {
        proof {
            lemma_first_applying(self.entries(), collection@, fields.deep_view());
        }
        let mut first: usize = 0;
        while first < self.entries.len() && !self.applies_at(first, collection, fields)
            invariant
                first <= self.entries.len(),
                forall|k: int|
                    0 <= k < first ==> !applies(
                        #[trigger] self.entries()[k],
                        collection@,
                        fields.deep_view(),
                    ),
            decreases self.entries.len() - first,
        {
            first = first + 1;
        }
        if first == self.entries.len() {
            return None;
        }
        assert(first_applying(self.entries(), collection@, fields.deep_view())
            == Some(first as int));
        assert(self.entries()[first as int] == self.entries@[first as int].deep_view());
        let source = &self.entries[first].ids;
        let ghost wanted = common_to_applying(self.entries(), collection@, fields.deep_view());
        let mut found: Vec<String> = Vec::new();
        let mut j: usize = 0;
        assert(source.deep_view().take(0) =~= Seq::<Seq<char>>::empty());
        assert(found.deep_view() =~= Seq::<Seq<char>>::empty());
        while j < source.len()
            invariant
                j <= source.len(),
                wanted == common_to_applying(self.entries(), collection@, fields.deep_view()),
                found.deep_view() == source.deep_view().take(j as int).filter(wanted),
            decreases source.len() - j,
        {
            let ghost so_far = found.deep_view();
            assert(source.deep_view()[j as int] == source@[j as int]@);
            assert(source.deep_view().take(j + 1) =~= source.deep_view().take(j as int).push(
                source@[j as int]@,
            ));
            proof {
                source.deep_view().take(j as int).lemma_filter_push(source@[j as int]@, wanted);
            }
            if safe_name(&source[j]) && self.stands_in_every(collection, fields, &source[j]) {
                found.push(source[j].clone());
                assert(found.deep_view() =~= so_far.push(source@[j as int]@));
            }
            j = j + 1;
        }
        assert(source.deep_view().take(source.len() as int) =~= source.deep_view());
        assert forall|k: int| 0 <= k < found.len() implies is_safe_name(
            #[trigger] found.deep_view()[k],
        ) by {
            source.deep_view().lemma_filter_pred(wanted, k);
        }
        Some(found)
    }

    /// Builds the index of a collection anew from the documents that the
    /// collection stores.
    pub fn rebuild(&mut self, collection: &String, stored: &Vec<Stored>)
        ensures
            final(self).entries() == with_rebuilt(
                old(self).entries(),
                collection@,
                stored.deep_view(),
            ),
    {
        let ghost before = self.entries.deep_view();
        let mut i: usize = 0;
        while i < self.entries.len()
            invariant
                i <= self.entries.len(),
                before == old(self).entries(),
                self.entries.len() == before.len(),
                forall|k: int|
                    0 <= k < i ==> #[trigger] self.entries.deep_view()[k] == entry_rebuilt(
                        before[k],
                        collection@,
                        stored.deep_view(),
                    ),
                forall|k: int|
                    i <= k < before.len() ==> #[trigger] self.entries.deep_view()[k] == before[k],
            decreases self.entries.len() - i,
        {
            let ghost shown = self.entries.deep_view();
            assert(shown[i as int] == self.entries@[i as int].deep_view());
            assert(shown[i as int] == before[i as int]);
            if self.entries[i].collection == *collection {
                let ids = ids_with_field(stored, &self.entries[i].field);
                let ghost prev = self.entries@;
                self.entries[i].ids = ids;
                assert forall|k: int| 0 <= k < prev.len() && k != i implies #[trigger] self.entries.deep_view()[k]
                    == shown[k] by {
                    assert(self.entries@[k] == prev[k]);
                }
            }
            assert(self.entries.deep_view()[i as int] == entry_rebuilt(
                before[i as int],
                collection@,
                stored.deep_view(),
            ));
            i = i + 1;
        }
        assert(self.entries.deep_view() =~= with_rebuilt(before, collection@, stored.deep_view()));
    }
}

} // verus!
