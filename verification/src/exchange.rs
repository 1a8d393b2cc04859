//! What the store asks of the file system, and what it is told in return.
//!
//! The store never touches a file itself. Each operation hands out a list of
//! requests; whoever serves them performs them in order for as long as
//! `continues_after` says, and hands back one answer for each request that was
//! tried.

use vstd::prelude::*;

verus! {

/// Why a request was not served.
#[derive(Debug)]
pub enum IoFailure {
    /// The file or directory does not exist.
    NotFound { message: String },
    /// Any other failure that the file system reported.
    Other { message: String },
    /// A collection name or an identifier that could lead out of the store's
    /// root directory. No request is made for such a name.
    UnsafeName,
    /// An answer of the wrong kind, or a missing one.
    BrokenExchange,
}

impl Clone for IoFailure {
    fn clone(&self) -> (copy: Self)
        ensures
            copy == *self,
    {
        match self {
            IoFailure::NotFound { message } => IoFailure::NotFound { message: message.clone() },
            IoFailure::Other { message } => IoFailure::Other { message: message.clone() },
            IoFailure::UnsafeName => IoFailure::UnsafeName,
            IoFailure::BrokenExchange => IoFailure::BrokenExchange,
        }
    }
}

/// One step that the file system is to perform.
#[derive(Debug)]
pub enum Request {
    /// Create the directory and every missing parent.
    CreateDirAll { path: String },
    /// Remove the directory with everything below it.
    RemoveDirAll { path: String },
    /// Write the bytes to the file, replacing what it held.
    WriteFile { path: String, bytes: Vec<u8> },
    /// Read the whole file.
    ReadFile { path: String },
    /// Read every file that lies directly in the directory.
    ReadDir { path: String },
    /// Remove the file.
    RemoveFile { path: String },
}

/// A request as a mathematical value.
pub enum RequestView {
    CreateDirAll { path: Seq<char> },
    RemoveDirAll { path: Seq<char> },
    WriteFile { path: Seq<char>, bytes: Seq<u8> },
    ReadFile { path: Seq<char> },
    ReadDir { path: Seq<char> },
    RemoveFile { path: Seq<char> },
}

impl DeepView for Request {
    type V = RequestView;

    open spec fn deep_view(&self) -> RequestView {
        match *self {
            Request::CreateDirAll { path } => RequestView::CreateDirAll { path: path@ },
            Request::RemoveDirAll { path } => RequestView::RemoveDirAll { path: path@ },
            Request::WriteFile { path, bytes } => RequestView::WriteFile {
                path: path@,
                bytes: bytes@,
            },
            Request::ReadFile { path } => RequestView::ReadFile { path: path@ },
            Request::ReadDir { path } => RequestView::ReadDir { path: path@ },
            Request::RemoveFile { path } => RequestView::RemoveFile { path: path@ },
        }
    }
}

/// One file of a directory: its name within the directory and what it holds.
#[derive(Debug)]
pub struct DirEntry {
    pub name: String,
    pub content: Vec<u8>,
}

/// The answer to one request.
#[derive(Debug)]
pub enum Response {
    /// The directory was created or removed, or the file written or removed.
    Done,
    /// What the file holds.
    Content(Vec<u8>),
    /// The files of the directory, each one once, in no particular order.
    Entries(Vec<DirEntry>),
    /// The request was not served.
    Failed(IoFailure),
}

/// The contents of the given directory entries, in their order.
pub open spec fn contents_of(entries: Seq<DirEntry>) -> Seq<Seq<u8>> {
    entries.map_values(|e: DirEntry| e.content@)
}

/// The file contents that an answer to a read delivers, in their order. A
/// file or a directory that does not exist delivers nothing; any other
/// failure, and an answer that is no answer to a read, delivers the failure.
pub open spec fn delivered(answer: Response) -> Result<Seq<Seq<u8>>, IoFailure> {
    match answer {
        Response::Content(bytes) => Ok(seq![bytes@]),
        Response::Entries(entries) => Ok(contents_of(entries@)),
        Response::Failed(failure) => if failure is NotFound {
            Ok(Seq::empty())
        } else {
            Err(failure)
        },
        Response::Done => Err(IoFailure::BrokenExchange),
    }
}

/// Why an answer does not say that its request was carried out, if it does
/// not.
pub open spec fn objection(answer: Response) -> Option<IoFailure> {
    match answer {
        Response::Done => None,
        Response::Failed(failure) => Some(failure),
        _ => Some(IoFailure::BrokenExchange),
    }
}

/// How many of the first `count` requests were carried out before the first
/// one that was not: the number of answers `Done` at the front.
pub open spec fn served(answers: Seq<Response>, count: nat) -> nat
    decreases count,
{
    if count == 0 {
        0
    } else {
        let before = served(answers, (count - 1) as nat);
        if before == count - 1 && count <= answers.len() && objection(answers[count - 1]) is None {
            count
        } else {
            before
        }
    }
}

/// Why the first `count` requests were not all carried out, if they were
/// not: the failure in the first answer that is not `Done`, or a broken
/// exchange where that answer is missing or of another kind.
pub open spec fn refusal(answers: Seq<Response>, count: nat) -> Option<IoFailure>
    decreases count,
{
    if count == 0 {
        None
    } else {
        match refusal(answers, (count - 1) as nat) {
            Some(failure) => Some(failure),
            None => if count <= answers.len() {
                objection(answers[count - 1])
            } else {
                Some(IoFailure::BrokenExchange)
            },
        }
    }
}

/// All of the first `count` requests were carried out exactly where nothing
/// is held against them.
pub proof fn lemma_served_all(answers: Seq<Response>, count: nat)
    ensures
        served(answers, count) <= count,
        refusal(answers, count) is None <==> served(answers, count) == count,
    decreases count,
{
    if count > 0 {
        lemma_served_all(answers, (count - 1) as nat);
    }
}

/// After the first request that was not carried out, nothing changes: the
/// number served and the refusal stay what they were.
pub proof fn lemma_refusal_stays(answers: Seq<Response>, at: nat, count: nat)
    requires
        at <= count,
        refusal(answers, at) is Some,
    ensures
        refusal(answers, count) == refusal(answers, at),
        served(answers, count) == served(answers, at),
    decreases count,
{
    if at < count {
        lemma_refusal_stays(answers, at, (count - 1) as nat);
        lemma_served_all(answers, (count - 1) as nat);
        lemma_served_all(answers, at);
    }
}

/// Requests that were all carried out leave nothing to hold against them.
pub proof fn lemma_all_done(answers: Seq<Response>, count: nat)
    requires
        count <= answers.len(),
        forall|i: int| 0 <= i < count ==> objection(#[trigger] answers[i]) is None,
    ensures
        refusal(answers, count) is None,
        served(answers, count) == count,
    decreases count,
{
    if count > 0 {
        lemma_all_done(answers, (count - 1) as nat);
    }
}

/// Looks through the answers to `count` requests and says why they were not
/// all carried out, if they were not.
pub fn settle(answers: &Vec<Response>, count: usize) -> (failure: Option<IoFailure>)
    ensures
        failure == refusal(answers@, count as nat),
{
    let mut i: usize = 0;
    while i < count
        invariant
            i <= count,
            refusal(answers@, i as nat) is None,
        decreases count - i,
    {
        if i >= answers.len() {
            proof {
                lemma_refusal_stays(answers@, (i + 1) as nat, count as nat);
            }
            return Some(IoFailure::BrokenExchange);
        }
        match &answers[i] {
            Response::Done => {},
            Response::Failed(failure) => {
                proof {
                    lemma_refusal_stays(answers@, (i + 1) as nat, count as nat);
                }
                return Some(failure.clone());
            },
            _ => {
                proof {
                    lemma_refusal_stays(answers@, (i + 1) as nat, count as nat);
                }
                return Some(IoFailure::BrokenExchange);
            },
        }
        i = i + 1;
    }
    None
}

/// Whether the requests that follow are still to be performed after this
/// answer: not after a failure, unless the failure is that a file or a
/// directory to read does not exist.
pub open spec fn goes_on(request: RequestView, answer: Response) -> bool {
    match answer {
        Response::Failed(failure) => failure is NotFound && (request is ReadFile
            || request is ReadDir),
        _ => true,
    }
}

/// Says whether the requests that follow `request` are still to be performed
/// after its answer.
pub fn continues_after(request: &Request, answer: &Response) -> (yes: bool)
    ensures
        yes == goes_on(request.deep_view(), *answer),
{
    match answer {
        Response::Failed(failure) => match failure {
            IoFailure::NotFound { .. } => match request {
                Request::ReadFile { .. } => true,
                Request::ReadDir { .. } => true,
                _ => false,
            },
            _ => false,
        },
        _ => true,
    }
}

} // verus!
