//! The file system that the store counts on, as a mathematical model.
//!
//! A disk is a map from the paths of its files to what they hold. The model
//! says how each request changes a healthy disk and which answers such a disk
//! may give. What is proved against it holds of the store as far as the real
//! file system behaves like the model.

use vstd::prelude::*;
use crate::exchange::{DirEntry, RequestView, Response};
use crate::path::{entry_path, lies_below};

verus! {

/// A name that a file can have within its directory.
pub open spec fn is_entry_name(name: Seq<char>) -> bool {
    name.len() > 0 && forall|i: int| 0 <= i < name.len() ==> #[trigger] name[i] != '/'
}

/// The directory `dir` holds a file named `name`.
pub open spec fn listed(files: Map<Seq<char>, Seq<u8>>, dir: Seq<char>, name: Seq<char>) -> bool {
    is_entry_name(name) && files.contains_key(entry_path(dir, name))
}

/// The directory holds no file.
pub open spec fn holds_nothing(files: Map<Seq<char>, Seq<u8>>, dir: Seq<char>) -> bool {
    forall|name: Seq<char>| !#[trigger] listed(files, dir, name)
}

/// The entries name every file of the directory once, each with what it
/// holds.
pub open spec fn lists(
    files: Map<Seq<char>, Seq<u8>>,
    dir: Seq<char>,
    entries: Seq<DirEntry>,
) -> bool {
    &&& forall|j: int|
        0 <= j < entries.len() ==> listed(files, dir, (#[trigger] entries[j]).name@)
            && entries[j].content@ == files[entry_path(dir, entries[j].name@)]
    &&& forall|name: Seq<char>| #[trigger]
        listed(files, dir, name) ==> exists|j: int|
            0 <= j < entries.len() && (#[trigger] entries[j]).name@ == name
    &&& forall|j: int, k: int|
        0 <= j < k < entries.len() ==> (#[trigger] entries[j]).name@ != (#[trigger] entries[k]).name@
}

/// The paths that lie below a directory.
pub open spec fn all_below(dir: Seq<char>) -> Set<Seq<char>> {
    Set::new(|path: Seq<char>| lies_below(dir, path))
}

/// The disk after a request was carried out.
pub open spec fn effect(
    files: Map<Seq<char>, Seq<u8>>,
    request: RequestView,
) -> Map<Seq<char>, Seq<u8>> {
    match request {
        RequestView::WriteFile { path, bytes } => files.insert(path, bytes),
        RequestView::RemoveFile { path } => files.remove(path),
        RequestView::RemoveDirAll { path } => files.remove_keys(all_below(path)),
        _ => files,
    }
}

/// The disk after the requests were carried out in their order.
pub open spec fn effects(files: Map<Seq<char>, Seq<u8>>, requests: Seq<RequestView>) -> Map<
    Seq<char>,
    Seq<u8>,
>
    decreases requests.len(),
{
    if requests.len() == 0 {
        files
    } else {
        effect(effects(files, requests.drop_last()), requests.last())
    }
}

/// The answer is one that a healthy disk gives to the request.
pub open spec fn answers_to(
    files: Map<Seq<char>, Seq<u8>>,
    request: RequestView,
    answer: Response,
) -> bool {
    match request {
        RequestView::ReadFile { path } => if files.contains_key(path) {
            answer matches Response::Content(bytes) && bytes@ == files[path]
        } else {
            answer matches Response::Failed(failure) && failure is NotFound
        },
        RequestView::ReadDir { path } => match answer {
            Response::Entries(entries) => lists(files, path, entries@),
            Response::Failed(failure) => failure is NotFound && holds_nothing(files, path),
            _ => false,
        },
        RequestView::RemoveFile { path } => if files.contains_key(path) {
            answer is Done
        } else {
            answer matches Response::Failed(failure) && failure is NotFound
        },
        _ => answer is Done,
    }
}

/// The answers are those that a healthy disk gives to the requests, each one
/// carried out in its turn.
pub open spec fn serves(
    files: Map<Seq<char>, Seq<u8>>,
    requests: Seq<RequestView>,
    answers: Seq<Response>,
) -> bool {
    &&& answers.len() == requests.len()
    &&& forall|i: int|
        0 <= i < requests.len() ==> answers_to(
            effects(files, requests.take(i)),
            requests[i],
            #[trigger] answers[i],
        )
}

/// Requests that only read leave the disk as it was.
pub open spec fn only_reads(requests: Seq<RequestView>) -> bool {
    forall|i: int|
        0 <= i < requests.len() ==> (#[trigger] requests[i]) is ReadFile || requests[i] is ReadDir
}

/// Reading changes nothing.
pub proof fn lemma_reads_change_nothing(files: Map<Seq<char>, Seq<u8>>, requests: Seq<RequestView>)
    requires
        only_reads(requests),
    ensures
        effects(files, requests) == files,
    decreases requests.len(),
{
    if requests.len() > 0 {
        assert(only_reads(requests.drop_last())) by {
            assert forall|i: int| 0 <= i < requests.drop_last().len() implies (
            #[trigger] requests.drop_last()[i]) is ReadFile || requests.drop_last()[i] is ReadDir by {
                assert(requests.drop_last()[i] == requests[i]);
            }
        }
        lemma_reads_change_nothing(files, requests.drop_last());
        assert(requests.last() == requests[requests.len() - 1]);
    }
}

} // verus!
