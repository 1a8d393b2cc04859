//! Where a collection and a document lie below the store's root directory.
//!
//! A collection is a directory of the root, named like the collection. A
//! document is a file of that directory, named by its identifier followed by
//! `.bson`. Names that could lead elsewhere are told apart here.

use vstd::prelude::*;
use vstd::string::*;

verus! {

/// A character that may stand in a collection name or an identifier: no
/// path separator and no NUL.
pub open spec fn is_plain_char(c: char) -> bool {
    c != '/' && c != '\\' && c != '\0'
}

/// A name that stays inside the directory it is joined to: not empty, made of
/// plain characters, and neither `.` nor `..`.
pub open spec fn is_safe_name(name: Seq<char>) -> bool {
    &&& name.len() > 0
    &&& forall|i: int| 0 <= i < name.len() ==> is_plain_char(#[trigger] name[i])
    &&& name != seq!['.']
    &&& name != seq!['.', '.']
}

/// The path of the entry `name` of the directory `dir`.
pub open spec fn entry_path(dir: Seq<char>, name: Seq<char>) -> Seq<char> {
    dir + seq!['/'] + name
}

/// The directory of a collection.
pub open spec fn collection_path(root: Seq<char>, collection: Seq<char>) -> Seq<char> {
    entry_path(root, collection)
}

/// What follows the identifier in a document's file name.
pub open spec fn extension() -> Seq<char> {
    seq!['.', 'b', 's', 'o', 'n']
}

/// The file name of the document with the given identifier.
pub open spec fn document_file_name(id: Seq<char>) -> Seq<char> {
    id + extension()
}

/// The file of a document.
pub open spec fn document_path(root: Seq<char>, collection: Seq<char>, id: Seq<char>) -> Seq<
    char,
> {
    entry_path(collection_path(root, collection), document_file_name(id))
}

/// The position of the last `.` in a name, or -1 where it has none.
pub open spec fn last_dot(name: Seq<char>) -> int
    decreases name.len(),
{
    if name.len() == 0 {
        -1
    } else if name.last() == '.' {
        name.len() - 1
    } else {
        last_dot(name.drop_last())
    }
}

/// The identifier that a file name stands for: the name up to its last `.`,
/// or the whole name where it has no `.` but at its start.
pub open spec fn document_id(name: Seq<char>) -> Seq<char> {
    if last_dot(name) <= 0 {
        name
    } else {
        name.take(last_dot(name))
    }
}

/// `path` lies below the directory `dir`, at any depth.
pub open spec fn lies_below(dir: Seq<char>, path: Seq<char>) -> bool {
    (dir + seq!['/']).is_prefix_of(path)
}

/// Says whether a name is safe to join to a directory.
pub fn safe_name(name: &String) -> (safe: bool)
    ensures
        safe == is_safe_name(name@),
{
    let text = name.as_str();
    let len = text.unicode_len();
    if len == 0 {
        return false;
    }
    let mut plain = true;
    let mut dots: usize = 0;
    let mut i: usize = 0;
    while i < len
        invariant
            i <= len,
            len == text@.len(),
            text@ == name@,
            dots <= i,
            plain == (forall|k: int| 0 <= k < i ==> is_plain_char(#[trigger] text@[k])),
            dots == i <==> (forall|k: int| 0 <= k < i ==> #[trigger] text@[k] == '.'),
        decreases len - i,
    {
        let c = text.get_char(i);
        if c == '/' || c == '\\' || c == '\0' {
            plain = false;
        }
        if c == '.' {
            dots = dots + 1;
        }
        i = i + 1;
    }
    let only_dots = dots == len && len <= 2;
    proof {
        if only_dots {
            if len == 1 {
                assert(name@ =~= seq!['.']);
            } else {
                assert(name@ =~= seq!['.', '.']);
            }
        } else {
            if name@ == seq!['.'] {
                assert(text@[0] == '.');
            }
            if name@ == seq!['.', '.'] {
                assert(text@[0] == '.' && text@[1] == '.');
            }
        }
    }
    plain && !only_dots
}

/// Joins a directory and the name of one of its entries. The callers have
/// made sure that the name is safe.
pub(crate) fn join(dir: &String, name: &String) -> (path: String)
    ensures
        path@ == entry_path(dir@, name@),
{
    let mut path = dir.clone();
    proof {
        reveal_strlit("/");
    }
    path.append("/");
    path.append(name.as_str());
    assert("/"@ =~= seq!['/']);
    path
}

/// The file name under which the document with this identifier is kept.
/// The callers have made sure that the identifier is safe.
pub(crate) fn file_name(id: &String) -> (name: String)
    ensures
        name@ == document_file_name(id@),
{
    let mut name = id.clone();
    proof {
        reveal_strlit(".bson");
    }
    name.append(".bson");
    assert(".bson"@ =~= extension());
    name
}

/// The identifier that a file name stands for.
pub fn id_of_file(name: &String) -> (id: String)
    ensures
        id@ == document_id(name@),
{
    let text = name.as_str();
    let len = text.unicode_len();
    let mut i: usize = len;
    assert(text@.take(len as int) =~= text@);
    while i > 0
        invariant
            i <= len,
            len == text@.len(),
            text@ == name@,
            last_dot(text@) == last_dot(text@.take(i as int)),
        decreases i,
    {
        let c = text.get_char(i - 1);
        assert(text@.take(i as int).last() == text@[i - 1]);
        if c == '.' {
            assert(last_dot(text@) == i - 1);
            if i == 1 {
                return name.clone();
            }
            let stem = text.substring_char(0, i - 1);
            assert(text@.subrange(0, i - 1) =~= text@.take(i - 1));
            return String::from_str(stem);
        }
        assert(text@.take(i as int).drop_last() =~= text@.take(i - 1));
        i = i - 1;
    }
    assert(text@.take(0).len() == 0);
    name.clone()
}

/// The position that `last_dot` gives holds a `.`, and none follows it.
pub proof fn lemma_last_dot(name: Seq<char>)
    ensures
        -1 <= last_dot(name) < name.len(),
        last_dot(name) >= 0 ==> name[last_dot(name)] == '.',
        forall|k: int| last_dot(name) < k < name.len() ==> name[k] != '.',
    decreases name.len(),
{
    if name.len() > 0 && name.last() != '.' {
        lemma_last_dot(name.drop_last());
        assert forall|k: int| last_dot(name) < k < name.len() implies name[k] != '.' by {
            if k < name.len() - 1 {
                assert(name.drop_last()[k] == name[k]);
            }
        }
    }
}

/// A name whose last `.` stands at `dot` has `last_dot` equal to `dot`.
pub proof fn lemma_last_dot_is(name: Seq<char>, dot: int)
    requires
        0 <= dot < name.len(),
        name[dot] == '.',
        forall|k: int| dot < k < name.len() ==> name[k] != '.',
    ensures
        last_dot(name) == dot,
{
    lemma_last_dot(name);
}

/// The identifier is read back from the file name that was made of it.
pub proof fn lemma_document_id_of_file_name(id: Seq<char>)
    requires
        id.len() > 0,
    ensures
        document_id(document_file_name(id)) == id,
{
    let name = document_file_name(id);
    assert(name.len() == id.len() + 5);
    assert(name[id.len() as int] == '.');
    assert forall|k: int| id.len() < k < name.len() implies name[k] != '.' by {
        assert(name[k] == extension()[k - id.len()]);
    }
    lemma_last_dot_is(name, id.len() as int);
    assert(name.take(id.len() as int) =~= id);
}

/// Two entries of one directory with the same path have the same name.
pub proof fn lemma_entry_path_injective(dir: Seq<char>, a: Seq<char>, b: Seq<char>)
    requires
        entry_path(dir, a) == entry_path(dir, b),
    ensures
        a == b,
{
    let head = dir + seq!['/'];
    assert(entry_path(dir, a).subrange(head.len() as int, entry_path(dir, a).len() as int) =~= a);
    assert(entry_path(dir, b).subrange(head.len() as int, entry_path(dir, b).len() as int) =~= b);
}

/// Two identifiers with the same file name are the same.
pub proof fn lemma_file_name_injective(a: Seq<char>, b: Seq<char>)
    requires
        document_file_name(a) == document_file_name(b),
    ensures
        a == b,
{
    assert(document_file_name(a).len() == a.len() + 5);
    assert(document_file_name(b).len() == b.len() + 5);
    assert(document_file_name(a).take(a.len() as int) =~= a);
    assert(document_file_name(b).take(b.len() as int) =~= b);
}

/// Within one collection, two documents lie in the same file only if they
/// have the same identifier.
pub proof fn lemma_document_path_injective(
    root: Seq<char>,
    collection: Seq<char>,
    a: Seq<char>,
    b: Seq<char>,
)
    requires
        document_path(root, collection, a) == document_path(root, collection, b),
    ensures
        a == b,
{
    lemma_entry_path_injective(
        collection_path(root, collection),
        document_file_name(a),
        document_file_name(b),
    );
    lemma_file_name_injective(a, b);
}

/// Documents of two collections with safe names never share a file.
pub proof fn lemma_collections_apart(
    root: Seq<char>,
    c1: Seq<char>,
    n1: Seq<char>,
    c2: Seq<char>,
    n2: Seq<char>,
)
    requires
        is_safe_name(c1),
        is_safe_name(c2),
        entry_path(collection_path(root, c1), n1) == entry_path(collection_path(root, c2), n2),
    ensures
        c1 == c2,
        n1 == n2,
{
    let first = entry_path(collection_path(root, c1), n1);
    let second = entry_path(collection_path(root, c2), n2);
    let base: int = root.len() as int + 1;
    let l1: int = c1.len() as int;
    let l2: int = c2.len() as int;
    assert forall|k: int| 0 <= k < c1.len() implies first[base + k] == c1[k] by {}
    assert forall|k: int| 0 <= k < c2.len() implies second[base + k] == c2[k] by {}
    assert(first[base + l1] == '/');
    assert(second[base + l2] == '/');
    if c1.len() < c2.len() {
        assert(second[base + l1] == c2[l1]);
        assert(is_plain_char(c2[l1]));
        assert(false);
    }
    if c2.len() < c1.len() {
        assert(first[base + l2] == c1[l2]);
        assert(is_plain_char(c1[l2]));
        assert(false);
    }
    assert(c1 =~= c2) by {
        assert forall|k: int| 0 <= k < c1.len() implies c1[k] == c2[k] by {
            assert(first[base + k] == c1[k]);
            assert(second[base + k] == c2[k]);
        }
    }
    lemma_entry_path_injective(collection_path(root, c1), n1, n2);
}

/// Every entry of a collection's directory lies below the root.
pub proof fn lemma_entry_lies_below_root(root: Seq<char>, collection: Seq<char>, name: Seq<char>)
    ensures
        lies_below(root, entry_path(collection_path(root, collection), name)),
{
    let head = root + seq!['/'];
    let path = entry_path(collection_path(root, collection), name);
    assert(path.subrange(0, head.len() as int) =~= head);
}

} // verus!
