//! The request line of the control channel.
//!
//! A request is one line: a verb and, for the verbs that name a file, one
//! argument. The verb may be written in either case. A verb that takes a
//! file name is answered with its usage line unless the line holds exactly
//! two words; the other verbs ignore what follows them.

use crate::constants::{CREATE, DELETE, GET, HELP, LIST, LIST_OWNED, QUIT, UPDATE};
use crate::text::{copy_bytes, is_text, split_words, to_upper, upper, views, words};
use vstd::prelude::*;
use vstd::string::StringSliceAdditionalSpecFns;

verus! {

/// The verbs that name a file.
#[derive(Clone, Copy, Debug, PartialEq, Eq, Structural)]
pub enum FileVerb {
    Get,
    Delete,
    Create,
    Update,
}

/// What a client asks for.
#[derive(Debug)]
pub enum Request {
    /// Send the file of this name, wherever below the data directory it is.
    Get(Vec<u8>),
    /// Remove the client's own file of this name.
    Delete(Vec<u8>),
    /// Make a file of this name in the client's directory and fill it.
    Create(Vec<u8>),
    /// Replace what the client's own file of this name holds.
    Update(Vec<u8>),
    /// Name every file below the data directory.
    List,
    /// Name every file below the client's directory.
    ListOwned,
    /// Say goodbye.
    Quit,
    /// Send the usage lines.
    Help,
    /// A verb that names a file came without exactly one argument.
    Usage(FileVerb),
    /// Anything else, the empty line too.
    Unrecognized,
}

/// What a `Request` stands for.
pub enum RequestView {
    Get(Seq<u8>),
    Delete(Seq<u8>),
    Create(Seq<u8>),
    Update(Seq<u8>),
    List,
    ListOwned,
    Quit,
    Help,
    Usage(FileVerb),
    Unrecognized,
}

impl View for Request {
    type V = RequestView;

    open spec fn view(&self) -> RequestView {
        match self {
            Request::Get(name) => RequestView::Get(name@),
            Request::Delete(name) => RequestView::Delete(name@),
            Request::Create(name) => RequestView::Create(name@),
            Request::Update(name) => RequestView::Update(name@),
            Request::List => RequestView::List,
            Request::ListOwned => RequestView::ListOwned,
            Request::Quit => RequestView::Quit,
            Request::Help => RequestView::Help,
            Request::Usage(verb) => RequestView::Usage(*verb),
            Request::Unrecognized => RequestView::Unrecognized,
        }
    }
}

/// The request for a file: the verb with its argument where the line has
/// exactly two words, the usage of the verb otherwise.
pub open spec fn file_request(verb: FileVerb, parts: Seq<Seq<u8>>) -> RequestView {
    if parts.len() == 2 {
        match verb {
            FileVerb::Get => RequestView::Get(parts[1]),
            FileVerb::Delete => RequestView::Delete(parts[1]),
            FileVerb::Create => RequestView::Create(parts[1]),
            FileVerb::Update => RequestView::Update(parts[1]),
        }
    } else {
        RequestView::Usage(verb)
    }
}

/// The request that the words of a line make.
pub open spec fn request_of_words(parts: Seq<Seq<u8>>) -> RequestView {
    if parts.len() == 0 {
        RequestView::Unrecognized
    } else {
        let verb = upper(parts[0]);
        if verb == GET.spec_bytes() {
            file_request(FileVerb::Get, parts)
        } else if verb == DELETE.spec_bytes() {
            file_request(FileVerb::Delete, parts)
        } else if verb == CREATE.spec_bytes() {
            file_request(FileVerb::Create, parts)
        } else if verb == UPDATE.spec_bytes() {
            file_request(FileVerb::Update, parts)
        } else if verb == LIST.spec_bytes() {
            RequestView::List
        } else if verb == LIST_OWNED.spec_bytes() {
            RequestView::ListOwned
        } else if verb == QUIT.spec_bytes() {
            RequestView::Quit
        } else if verb == HELP.spec_bytes() {
            RequestView::Help
        } else {
            RequestView::Unrecognized
        }
    }
}

/// The request that a line makes.
pub open spec fn request_of(line: Seq<u8>) -> RequestView {
    request_of_words(words(line))
}

fn make_file_request(verb: FileVerb, parts: &Vec<Vec<u8>>) -> (request: Request)
    ensures
        request@ == file_request(verb, views(parts@)),
{
    if parts.len() == 2 {
        let name = copy_bytes(parts[1].as_slice());
        match verb {
            FileVerb::Get => Request::Get(name),
            FileVerb::Delete => Request::Delete(name),
            FileVerb::Create => Request::Create(name),
            FileVerb::Update => Request::Update(name),
        }
    } else {
        Request::Usage(verb)
    }
}

/// Reads a request line.
pub fn parse_request(line: &[u8]) -> (request: Request)
    ensures
        request@ == request_of(line@),
{
    let parts = split_words(line);
    if parts.len() == 0 {
        return Request::Unrecognized;
    }
    let verb = to_upper(parts[0].as_slice());
    let verb = verb.as_slice();
    if is_text(verb, GET) {
        make_file_request(FileVerb::Get, &parts)
    } else if is_text(verb, DELETE) {
        make_file_request(FileVerb::Delete, &parts)
    } else if is_text(verb, CREATE) {
        make_file_request(FileVerb::Create, &parts)
    } else if is_text(verb, UPDATE) {
        make_file_request(FileVerb::Update, &parts)
    } else if is_text(verb, LIST) {
        Request::List
    } else if is_text(verb, LIST_OWNED) {
        Request::ListOwned
    } else if is_text(verb, QUIT) {
        Request::Quit
    } else if is_text(verb, HELP) {
        Request::Help
    } else {
        Request::Unrecognized
    }
}

} // verus!
