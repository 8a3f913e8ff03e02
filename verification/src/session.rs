//! The life of one request after its line was read.
//!
//! `plan` decides from the request and the listing of the data directory
//! what the data channel is to carry. A `Session` then leads the caller
//! through the exchange: the caller reports what happened as an `Event`, and
//! `step` answers with the next `Action`. The session never touches a socket
//! or a file; it sees to it that each step follows the one before, and that
//! the port is handed back however the exchange ends.

use crate::constants::{
    ALREADY_EXISTS, DELETE_SUCCESSFUL, FILE_NOT_FOUND, QUIT_MESSAGE, READY_TO_RECEIVE,
    UNRECOGNIZED_MESSAGE,
};
use crate::directory_tree::{
    has_entry, has_name, has_name_once, is_first_named, is_named, lemma_files_push_dir,
    lemma_new_name_is_unique, names_unique, owned_by, DirectoryTree, NodeView, Path,
};
use crate::ipv4::{dotted, format_ipv4};
use crate::request::{parse_request, request_of, Request, RequestView};
use crate::text::{copy_bytes, copy_names, text_bytes, views};
use crate::transfer::{
    announcement_of, base_name, base_name_of, block_end, blocks_from, chunk_end, help_of,
    help_text, listing_of, listing_text, port_announcement, usage_of, usage_text, SLASH,
};
use vstd::prelude::*;
use vstd::string::StringSliceAdditionalSpecFns;

verus! {

/// How a file is opened.
#[derive(Clone, Copy, Debug, PartialEq, Eq, Structural)]
pub enum OpenMode {
    /// For reading; the file has to be there.
    Read,
    /// For appending to a file that this call makes; it must not be there.
    CreateNew,
    /// For writing from the start of a file that has to be there; what it
    /// held is dropped.
    Truncate,
}

/// Why a file could not be opened.
#[derive(Clone, Copy, Debug, PartialEq, Eq, Structural)]
pub enum OpenError {
    NotFound,
    AlreadyExists,
    Other,
}

/// What the data channel of a request is to carry.
#[derive(Debug)]
pub enum Job {
    /// Send these bytes.
    Reply(Vec<u8>),
    /// Send the file at this path, taken from the data directory.
    SendFile(Vec<Vec<u8>>),
    /// Remove the file at this path and say how it went.
    Unlink(Vec<Vec<u8>>),
    /// Take an upload into a new file at this path.
    Create(Vec<Vec<u8>>),
    /// Take an upload into the file at this path, in place of what it held.
    Update(Vec<Vec<u8>>),
}

/// What a `Job` stands for.
pub enum JobView {
    Reply(Seq<u8>),
    SendFile(Path),
    Unlink(Path),
    Create(Path),
    Update(Path),
}

impl View for Job {
    type V = JobView;

    open spec fn view(&self) -> JobView {
        match self {
            Job::Reply(bytes) => JobView::Reply(bytes@),
            Job::SendFile(path) => JobView::SendFile(views(path@)),
            Job::Unlink(path) => JobView::Unlink(views(path@)),
            Job::Create(path) => JobView::Create(views(path@)),
            Job::Update(path) => JobView::Update(views(path@)),
        }
    }
}

/// The first path of `files` whose last name is `name`.
pub open spec fn first_named(files: Seq<Path>, name: Seq<u8>) -> Path {
    files[choose|k: int| is_first_named(files, name, k)]
}

/// The path of a client's own file: the client's directory, then the name
/// as the client wrote it.
pub open spec fn owned_path(client_dir: Seq<u8>, name: Seq<u8>) -> Path {
    seq![client_dir, name]
}

/// What the data channel carries for a request, given the files of the data
/// directory and the name of the client's directory in it.
pub open spec fn job_for(request: RequestView, files: Seq<Path>, client_dir: Seq<u8>) -> JobView {
    match request {
        RequestView::Get(name) => if has_name(files, name) {
            JobView::SendFile(first_named(files, name))
        } else {
            JobView::Reply(FILE_NOT_FOUND.spec_bytes())
        },
        RequestView::Delete(name) => JobView::Unlink(owned_path(client_dir, name)),
        RequestView::Create(name) => if has_name(files, base_name_of(name)) {
            JobView::Reply(ALREADY_EXISTS.spec_bytes())
        } else {
            JobView::Create(owned_path(client_dir, name))
        },
        RequestView::Update(name) => JobView::Update(owned_path(client_dir, name)),
        RequestView::List => JobView::Reply(listing_of(files)),
        RequestView::ListOwned => JobView::Reply(listing_of(owned_by(files, client_dir))),
        RequestView::Quit => JobView::Reply(QUIT_MESSAGE.spec_bytes()),
        RequestView::Help => JobView::Reply(help_of()),
        RequestView::Usage(verb) => JobView::Reply(usage_of(verb)),
        RequestView::Unrecognized => JobView::Reply(UNRECOGNIZED_MESSAGE.spec_bytes()),
    }
}

/// A name without a slash is its own base name.
pub proof fn lemma_plain_name_is_its_base_name(name: Seq<u8>)
    requires
        forall|i: int| 0 <= i < name.len() ==> name[i] != SLASH,
    ensures
        base_name_of(name) == name,
    decreases name.len(),
{
    if name.len() > 0 {
        lemma_plain_name_is_its_base_name(name.drop_last());
        assert(name.drop_last().push(name.last()) =~= name);
    }
}

/// After a `CREATE` that was not refused, the listing holds the name once:
/// the request is taken up only where no file has the name, the file goes
/// into the client's directory under that name, and with it the listing
/// has exactly one file of that name. Names that were used once each stay
/// so. The name is one without a slash.
pub proof fn lemma_created_name_is_listed_once(
    files: Seq<Path>,
    client_dir: Seq<u8>,
    name: Seq<u8>,
)
    requires
        forall|i: int| 0 <= i < name.len() ==> name[i] != SLASH,
        job_for(RequestView::Create(name), files, client_dir) is Create,
    ensures
        job_for(RequestView::Create(name), files, client_dir) == JobView::Create(
            owned_path(client_dir, name),
        ),
        !has_name(files, name),
        has_name_once(files.push(owned_path(client_dir, name)), name),
        names_unique(files) ==> names_unique(files.push(owned_path(client_dir, name))),
{
    lemma_plain_name_is_its_base_name(name);
    lemma_new_name_is_unique(files, owned_path(client_dir, name), name);
}

/// `CREATE`, then `DELETE`, then `GET` of one name: the last is answered
/// with "file not found". `files` is the listing before the three; the
/// `CREATE` is taken up, its file joins the listing, the `DELETE` takes the
/// file out again, and the `GET` then finds no file of that name.
pub proof fn lemma_create_delete_get_finds_nothing(
    files: Seq<Path>,
    client_dir: Seq<u8>,
    name: Seq<u8>,
)
    requires
        forall|i: int| 0 <= i < name.len() ==> name[i] != SLASH,
        job_for(RequestView::Create(name), files, client_dir) is Create,
    ensures
        ({
            let created = files.push(owned_path(client_dir, name));
            let deleted = created.remove(created.len() - 1);
            &&& job_for(RequestView::Delete(name), created, client_dir) == JobView::Unlink(
                created.last(),
            )
            &&& is_first_named(created, name, created.len() - 1)
            &&& deleted == files
            &&& job_for(RequestView::Get(name), deleted, client_dir) == JobView::Reply(
                FILE_NOT_FOUND.spec_bytes(),
            )
        }),
{
    lemma_created_name_is_listed_once(files, client_dir, name);
    let created = files.push(owned_path(client_dir, name));
    assert(created.remove(created.len() - 1) =~= files);
    assert forall|j: int| 0 <= j < created.len() - 1 implies !is_named(
        #[trigger] created[j],
        name,
    ) by {
        assert(created[j] == files[j]);
    }
}

/// After a `CREATE` that was taken up, a `GET` of the name is answered with
/// the file that the `CREATE` made, and a second `CREATE` of the name, from
/// whatever client, is refused.
pub proof fn lemma_created_file_is_found(
    files: Seq<Path>,
    client_dir: Seq<u8>,
    other_dir: Seq<u8>,
    name: Seq<u8>,
)
    requires
        forall|i: int| 0 <= i < name.len() ==> name[i] != SLASH,
        job_for(RequestView::Create(name), files, client_dir) is Create,
    ensures
        ({
            let created = files.push(owned_path(client_dir, name));
            &&& job_for(RequestView::Get(name), created, other_dir) == JobView::SendFile(
                owned_path(client_dir, name),
            )
            &&& job_for(RequestView::Create(name), created, other_dir) == JobView::Reply(
                ALREADY_EXISTS.spec_bytes(),
            )
        }),
{
    lemma_created_name_is_listed_once(files, client_dir, name);
    lemma_plain_name_is_its_base_name(name);
    let created = files.push(owned_path(client_dir, name));
    let last = created.len() - 1;
    assert(is_named(created[last], name));
    assert(has_name(created, name));
    assert forall|j: int| 0 <= j < last implies !is_named(#[trigger] created[j], name) by {
        assert(created[j] == files[j]);
    }
    assert(is_first_named(created, name, last));
    let chosen = choose|k: int| is_first_named(created, name, k);
    assert(chosen == last) by {
        if chosen < last {
            assert(!is_named(created[chosen], name));
        }
    }
}

fn make_owned_path(client_dir: &[u8], name: &[u8]) -> (path: Vec<Vec<u8>>)
    ensures
        views(path@) == owned_path(client_dir@, name@),
{
    let mut path: Vec<Vec<u8>> = Vec::new();
    path.push(copy_bytes(client_dir));
    path.push(copy_bytes(name));
    assert(views(path@) =~= owned_path(client_dir@, name@));
    path
}

/// Whether a file below the root has the name under which `name` would be
/// stored: the part of `name` behind its last slash. `CREATE` is refused
/// where this holds.
pub fn name_is_taken(tree: &DirectoryTree, name: &[u8]) -> (taken: bool)
    ensures
        taken == has_name(tree.files(), base_name_of(name@)),
{
    let base = base_name(name);
    tree.find_file(base.as_slice()).is_some()
}

/// Decides what the data channel carries for `request`. `tree` is the
/// listing of the data directory, `client_dir` the name of the client's
/// directory in it.
pub fn plan(request: &Request, tree: &DirectoryTree, client_dir: &[u8]) -> (job: Job)
    ensures
        job@ == job_for(request@, tree.files(), client_dir@),
{
    match request {
        Request::Get(name) => match tree.find_file(name.as_slice()) {
            Some(path) => {
                proof {
                    let files = tree.files();
                    let k = choose|k: int|
                        is_first_named(files, name@, k) && views(path@) == #[trigger] files[k];
                    let c = choose|c: int| is_first_named(files, name@, c);
                    assert(is_first_named(files, name@, c));
                    assert(c == k) by {
                        if c < k {
                            assert(!is_named(files[c], name@));
                        }
                        if k < c {
                            assert(!is_named(files[k], name@));
                        }
                    }
                }
                Job::SendFile(path)
            },
            None => Job::Reply(text_bytes(FILE_NOT_FOUND)),
        },
        Request::Delete(name) => Job::Unlink(make_owned_path(client_dir, name.as_slice())),
        Request::Create(name) => {
            if name_is_taken(tree, name.as_slice()) {
                Job::Reply(text_bytes(ALREADY_EXISTS))
            } else {
                Job::Create(make_owned_path(client_dir, name.as_slice()))
            }
        },
        Request::Update(name) => Job::Update(make_owned_path(client_dir, name.as_slice())),
        Request::List => Job::Reply(listing_text(&tree.list_files_in_tree())),
        Request::ListOwned => Job::Reply(listing_text(&tree.list_files_below(client_dir))),
        Request::Quit => Job::Reply(text_bytes(QUIT_MESSAGE)),
        Request::Help => Job::Reply(help_text()),
        Request::Usage(verb) => Job::Reply(usage_text(*verb)),
        Request::Unrecognized => Job::Reply(text_bytes(UNRECOGNIZED_MESSAGE)),
    }
}

/// Where a session stands.
#[derive(Clone, Copy, Debug, PartialEq, Eq, Structural)]
pub enum Phase {
    /// Waiting for a port of the pool.
    AllocPort,
    /// The port is announced; waiting for the client on the data socket.
    DataAccept,
    /// Waiting for the file to be opened.
    Opening,
    /// Waiting for the file to be removed.
    Removing,
    /// Sending the file block by block.
    Sending,
    /// Telling the client that the upload may start.
    Inviting,
    /// Taking the upload block by block.
    Receiving,
    /// Sending the last bytes of the exchange.
    Closing,
    /// Over: the sockets are closed and the port is back in the pool.
    Closed,
}

/// What the caller reports.
#[derive(Clone, Copy, Debug, PartialEq, Eq, Structural)]
pub enum Event {
    /// The pool gave this port.
    PortGranted(u16),
    /// The client connected to the data socket.
    DataConnected,
    /// The file is open; this is its length.
    Opened(usize),
    /// The file could not be opened.
    OpenFailed(OpenError),
    /// The file was removed, or could not be.
    Removed(bool),
    /// The bytes of the last action are written.
    Sent,
    /// A read of the data socket gave this many bytes; none at its end.
    Received(usize),
    /// A socket or the file failed.
    Failed,
}

/// What the caller is to do next.
#[derive(Debug)]
pub enum Action {
    /// Take a port from the pool, waiting for one if need be.
    AcquirePort,
    /// Listen on the port, write the bytes on the control channel, then
    /// accept one client on the data socket.
    Announce(u16, Vec<u8>),
    /// Open the file at the path.
    Open(Vec<Vec<u8>>, OpenMode),
    /// Remove the file at the path.
    Remove(Vec<Vec<u8>>),
    /// Write the bytes on the data channel.
    Send(Vec<u8>),
    /// Write the bytes of the open file from the first offset up to the
    /// second on the data channel.
    SendBlock(usize, usize),
    /// Read at most this many bytes from the data channel.
    Receive(usize),
    /// Put the bytes just read into the file, at this offset, which is its
    /// end, and this many of them; then read again.
    Append(usize, usize),
    /// Close the data socket, give the port back to the pool where there is
    /// one, and close the control socket.
    Finish(Option<u16>),
    /// Nothing: the session is over.
    Nothing,
}

/// What an `Action` stands for.
pub enum ActionView {
    AcquirePort,
    Announce(u16, Seq<u8>),
    Open(Path, OpenMode),
    Remove(Path),
    Send(Seq<u8>),
    SendBlock(usize, usize),
    Receive(usize),
    Append(usize, usize),
    Finish(Option<u16>),
    Nothing,
}

impl View for Action {
    type V = ActionView;

    open spec fn view(&self) -> ActionView {
        match self {
            Action::AcquirePort => ActionView::AcquirePort,
            Action::Announce(port, bytes) => ActionView::Announce(*port, bytes@),
            Action::Open(path, mode) => ActionView::Open(views(path@), *mode),
            Action::Remove(path) => ActionView::Remove(views(path@)),
            Action::Send(bytes) => ActionView::Send(bytes@),
            Action::SendBlock(start, end) => ActionView::SendBlock(*start, *end),
            Action::Receive(size) => ActionView::Receive(*size),
            Action::Append(at, count) => ActionView::Append(*at, *count),
            Action::Finish(port) => ActionView::Finish(*port),
            Action::Nothing => ActionView::Nothing,
        }
    }
}

/// One request on its way through the data channel.
pub struct Session {
    phase: Phase,
    job: Job,
    port: Option<u16>,
    buffer_size: usize,
    offset: usize,
    length: usize,
}

/// What a `Session` stands for.
pub struct SessionView {
    pub phase: Phase,
    pub job: JobView,
    /// The port that the session holds.
    pub port: Option<u16>,
    /// The size of the blocks in which a file is sent and an upload is read.
    pub buffer_size: usize,
    /// Where the block that is being sent starts.
    pub offset: usize,
    /// The length of the file: of the one that is being sent, or, during an
    /// upload, of what is stored so far.
    pub length: usize,
}

impl View for Session {
    type V = SessionView;

    closed spec fn view(&self) -> SessionView {
        SessionView {
            phase: self.phase,
            job: self.job@,
            port: self.port,
            buffer_size: self.buffer_size,
            offset: self.offset,
            length: self.length,
        }
    }
}

impl SessionView {
    /// A block size that is not zero, and an offset within the file.
    pub open spec fn well_formed(self) -> bool {
        self.buffer_size > 0 && self.offset <= self.length
    }

    /// The end of the exchange: the session is closed and holds no port,
    /// and the caller is told to give back the port it held.
    pub open spec fn finish(self) -> (SessionView, ActionView) {
        (SessionView { phase: Phase::Closed, port: None, ..self }, ActionView::Finish(self.port))
    }

    /// The session in another phase.
    pub open spec fn at(self, phase: Phase) -> SessionView {
        SessionView { phase, ..self }
    }

    /// The state and the action that follow when the client has connected to
    /// the data socket.
    pub open spec fn on_connected(self) -> (SessionView, ActionView) {
        match self.job {
            JobView::Reply(bytes) => (self.at(Phase::Closing), ActionView::Send(bytes)),
            JobView::SendFile(path) => (
                self.at(Phase::Opening),
                ActionView::Open(path, OpenMode::Read),
            ),
            JobView::Unlink(path) => (self.at(Phase::Removing), ActionView::Remove(path)),
            JobView::Create(path) => (
                self.at(Phase::Opening),
                ActionView::Open(path, OpenMode::CreateNew),
            ),
            JobView::Update(path) => (
                self.at(Phase::Opening),
                ActionView::Open(path, OpenMode::Truncate),
            ),
        }
    }

    /// The state and the action that follow when the file is open.
    pub open spec fn on_opened(self, length: usize) -> (SessionView, ActionView) {
        match self.job {
            JobView::SendFile(_) => if length == 0 {
                self.finish()
            } else {
                (
                    SessionView { phase: Phase::Sending, offset: 0, length, ..self },
                    ActionView::SendBlock(
                        0,
                        block_end(length as int, self.buffer_size as int, 0) as usize,
                    ),
                )
            },
            JobView::Create(_) | JobView::Update(_) => (
                SessionView { phase: Phase::Inviting, offset: 0, length, ..self },
                ActionView::Send(READY_TO_RECEIVE.spec_bytes()),
            ),
            _ => self.finish(),
        }
    }

    /// The state and the action that follow when a read of the upload gave
    /// `count` bytes: none ends the upload; otherwise the bytes go to the
    /// end of the file. A file that could not be counted any more ends the
    /// session.
    pub open spec fn on_received(self, count: usize) -> (SessionView, ActionView) {
        if count == 0 || self.length + count > usize::MAX {
            self.finish()
        } else {
            (
                SessionView { length: (self.length + count) as usize, ..self },
                ActionView::Append(self.length, count),
            )
        }
    }

    /// The state and the action that follow when the file could not be
    /// opened: a download answers that the file was not found; an upload
    /// answers where the file is in the way or missing, and ends without a
    /// word on any other failure.
    pub open spec fn on_open_failed(self, error: OpenError) -> (SessionView, ActionView) {
        match self.job {
            JobView::SendFile(_) => (
                self.at(Phase::Closing),
                ActionView::Send(FILE_NOT_FOUND.spec_bytes()),
            ),
            JobView::Create(_) => if error == OpenError::AlreadyExists {
                (self.at(Phase::Closing), ActionView::Send(ALREADY_EXISTS.spec_bytes()))
            } else {
                self.finish()
            },
            JobView::Update(_) => if error == OpenError::NotFound {
                (self.at(Phase::Closing), ActionView::Send(FILE_NOT_FOUND.spec_bytes()))
            } else {
                self.finish()
            },
            _ => self.finish(),
        }
    }

    /// The state and the action that follow when a block of the file is
    /// written.
    pub open spec fn on_block_sent(self) -> (SessionView, ActionView) {
        let reached = block_end(self.length as int, self.buffer_size as int, self.offset as int);
        if reached >= self.length {
            self.finish()
        } else {
            (
                SessionView { offset: reached as usize, ..self },
                ActionView::SendBlock(
                    reached as usize,
                    block_end(self.length as int, self.buffer_size as int, reached) as usize,
                ),
            )
        }
    }

    /// The state and the action that follow an event. An event that the
    /// phase does not wait for ends the session, as a failure does.
    pub open spec fn next(self, event: Event) -> (SessionView, ActionView) {
        match (self.phase, event) {
            (Phase::Closed, _) => (self, ActionView::Nothing),
            (Phase::AllocPort, Event::PortGranted(port)) => (
                SessionView { phase: Phase::DataAccept, port: Some(port), ..self },
                ActionView::Announce(port, announcement_of(port)),
            ),
            (Phase::DataAccept, Event::DataConnected) => self.on_connected(),
            (Phase::Opening, Event::Opened(length)) => self.on_opened(length),
            (Phase::Opening, Event::OpenFailed(error)) => self.on_open_failed(error),
            (Phase::Removing, Event::Removed(done)) => (
                self.at(Phase::Closing),
                ActionView::Send(
                    if done {
                        DELETE_SUCCESSFUL.spec_bytes()
                    } else {
                        FILE_NOT_FOUND.spec_bytes()
                    },
                ),
            ),
            (Phase::Sending, Event::Sent) => self.on_block_sent(),
            (Phase::Inviting, Event::Sent) => (
                self.at(Phase::Receiving),
                ActionView::Receive(self.buffer_size),
            ),
            (Phase::Receiving, Event::Received(count)) => self.on_received(count),
            (Phase::Closing, Event::Sent) => self.finish(),
            _ => self.finish(),
        }
    }
}

/// The state after the first `n` events of `events`.
pub open spec fn state_after(start: SessionView, events: Seq<Event>, n: nat) -> SessionView
    decreases n,
{
    if n == 0 || n > events.len() {
        start
    } else {
        state_after(start, events, (n - 1) as nat).next(events[n - 1]).0
    }
}

/// The ports that the caller was told to give back during the first `n`
/// events of `events`, in order.
pub open spec fn ports_returned(start: SessionView, events: Seq<Event>, n: nat) -> Seq<u16>
    decreases n,
{
    if n == 0 || n > events.len() {
        Seq::empty()
    } else {
        let before = ports_returned(start, events, (n - 1) as nat);
        match state_after(start, events, (n - 1) as nat).next(events[n - 1]).1 {
            ActionView::Finish(Some(port)) => before.push(port),
            _ => before,
        }
    }
}

/// A session that is sending a file, with bytes of it still to send.
pub open spec fn is_sending(session: SessionView) -> bool {
    session.phase == Phase::Sending && session.well_formed() && session.offset < session.length
}

/// A download sends the blocks of the file in order and all of them. When
/// the file is open, the first block is asked for; each time a block is
/// written, the next one is, and after the last the session finishes.
pub proof fn lemma_file_is_sent_block_by_block(session: SessionView, length: usize)
    requires
        session.well_formed(),
        session.job is SendFile,
    ensures
        length > 0 ==> ({
            let blocks = blocks_from(length as int, session.buffer_size as int, 0);
            let (sending, action) = session.on_opened(length);
            &&& blocks.len() > 0
            &&& action == ActionView::SendBlock(blocks[0].0 as usize, blocks[0].1 as usize)
            &&& is_sending(sending)
            &&& sending.offset == 0 && sending.length == length
        }),
        is_sending(session) ==> ({
            let blocks = blocks_from(
                session.length as int,
                session.buffer_size as int,
                session.offset as int,
            );
            let (then, action) = session.next(Event::Sent);
            &&& blocks.len() > 0
            &&& blocks[0].0 == session.offset
            &&& if blocks.len() == 1 {
                action is Finish && then.phase == Phase::Closed
            } else {
                &&& action == ActionView::SendBlock(blocks[1].0 as usize, blocks[1].1 as usize)
                &&& is_sending(then)
                &&& then.offset == blocks[1].0
                &&& blocks_from(then.length as int, then.buffer_size as int, then.offset as int)
                    == blocks.skip(1)
            }
        }),
{
    if is_sending(session) {
        let length = session.length as int;
        let size = session.buffer_size as int;
        let blocks = blocks_from(length, size, session.offset as int);
        let end = block_end(length, size, session.offset as int);
        let rest = blocks_from(length, size, end);
        assert(blocks.skip(1) =~= rest);
        if end < length {
            assert(rest.len() > 0);
            assert(blocks[1] == rest[0]);
        }
    }
}

/// A session that is taking an upload.
pub open spec fn is_receiving(session: SessionView) -> bool {
    session.phase == Phase::Receiving && session.well_formed()
}

/// An upload is stored block after block. When the file is open, the
/// session counts from its length, which is nothing for a new file and for
/// one that was cut; each block that is read goes to the end of what is
/// stored, and the next one behind it.
pub proof fn lemma_upload_is_stored_block_by_block(
    session: SessionView,
    length: usize,
    count: usize,
)
    requires
        session.well_formed(),
    ensures
        session.job is Create || session.job is Update ==> ({
            let (inviting, action) = session.on_opened(length);
            &&& inviting.phase == Phase::Inviting
            &&& inviting.length == length
            &&& inviting.next(Event::Sent).0.length == length
            &&& is_receiving(inviting.next(Event::Sent).0)
        }),
        is_receiving(session) && count > 0 && session.length + count <= usize::MAX ==> ({
            let (then, action) = session.next(Event::Received(count));
            &&& action == ActionView::Append(session.length, count)
            &&& is_receiving(then)
            &&& then.length == session.length + count
        }),
        is_receiving(session) ==> session.next(Event::Received(0)).1 is Finish,
{
}

/// A new session: it waits for a port and holds none.
pub open spec fn is_new(session: SessionView) -> bool {
    session.phase == Phase::AllocPort && session.port is None && session.well_formed()
}

/// One step and the port: a session is told to finish exactly when it
/// closes, it then gives back the port it held and holds none afterwards,
/// and while it is open it keeps its port, which it gets from the pool in
/// its first phase and nowhere else.
pub proof fn lemma_step_keeps_or_returns_port(session: SessionView, event: Event)
    requires
        session.well_formed(),
    ensures
        session.next(event).0.well_formed(),
        session.next(event).1 is Finish <==> session.phase != Phase::Closed && session.next(
            event,
        ).0.phase == Phase::Closed,
        session.next(event).1 is Finish ==> session.next(event).1 == ActionView::Finish(
            session.port,
        ) && session.next(event).0.port is None,
        session.next(event).0.phase != Phase::Closed && session.phase != Phase::AllocPort
            ==> session.next(event).0.port == session.port && session.next(event).0.phase
            != Phase::AllocPort,
        session.next(event).0.phase != Phase::Closed && session.phase == Phase::AllocPort
            ==> event is PortGranted && session.next(event).0.port == Some(event->PortGranted_0)
            && session.next(event).0.phase == Phase::DataAccept,
        session.phase == Phase::Closed ==> session.next(event).0 == session,
{
}

/// However a session runs, the port that the pool gave it is given back
/// once, when the session closes, and no other port ever is: while the
/// session is open it holds the port and has returned none; once it is
/// closed it has returned that port and nothing else. A session that never
/// got a port returns none.
pub proof fn lemma_port_is_returned_once(start: SessionView, events: Seq<Event>, n: nat)
    requires
        is_new(start),
        n <= events.len(),
    ensures
        ({
            let now = state_after(start, events, n);
            let returned = ports_returned(start, events, n);
            &&& now.well_formed()
            &&& now.phase == Phase::Closed ==> now.port is None
            &&& n == 0 ==> now == start && returned.len() == 0
            &&& n > 0 && events[0] is PortGranted ==> if now.phase == Phase::Closed {
                returned == seq![events[0]->PortGranted_0]
            } else {
                now.port == Some(events[0]->PortGranted_0) && returned.len() == 0
            }
            &&& n > 0 && !(events[0] is PortGranted) ==> now.phase == Phase::Closed
                && returned.len() == 0
        }),
    decreases n,
{
    if n > 0 {
        lemma_port_is_returned_once(start, events, (n - 1) as nat);
        let before = state_after(start, events, (n - 1) as nat);
        lemma_step_keeps_or_returns_port(before, events[n - 1]);
        let returned = ports_returned(start, events, (n - 1) as nat);
        if n == 1 {
            assert(before == start);
        } else if events[0] is PortGranted {
            if before.phase == Phase::Closed {
                assert(before.next(events[n - 1]).1 == ActionView::Nothing);
            } else {
                assert(before.phase != Phase::AllocPort) by {
                    lemma_open_session_left_first_phase(start, events, (n - 1) as nat);
                }
                if before.next(events[n - 1]).0.phase == Phase::Closed {
                    assert(returned.push(events[0]->PortGranted_0) =~= seq![
                        events[0]->PortGranted_0,
                    ]);
                }
            }
        }
    }
}

proof fn lemma_open_session_left_first_phase(start: SessionView, events: Seq<Event>, n: nat)
    requires
        is_new(start),
        0 < n <= events.len(),
    ensures
        state_after(start, events, n).phase != Phase::AllocPort,
        state_after(start, events, n).well_formed(),
    decreases n,
{
    if n > 1 {
        lemma_open_session_left_first_phase(start, events, (n - 1) as nat);
    }
    lemma_step_keeps_or_returns_port(state_after(start, events, (n - 1) as nat), events[n - 1]);
}

/// The name of a client's directory below the data directory: the dotted
/// form of its address.
pub fn client_directory(client: u32) -> (name: Vec<u8>)
    ensures
        name@ == dotted(client),
{
    format_ipv4(client)
}

/// Sees to it that the listing holds the directory of a client. Says
/// whether the caller has to make that directory: it has to where nothing
/// stood at that name.
pub fn enter_client_directory(tree: &mut DirectoryTree, client: u32) -> (made: bool)
    ensures
        final(tree).root() == old(tree).root(),
        made == !has_entry(old(tree)@, seq![dotted(client)]),
        made ==> final(tree)@ == old(tree)@.push(
            NodeView { path: seq![dotted(client)], is_dir: true },
        ),
        !made ==> final(tree)@ == old(tree)@,
        final(tree).files() == old(tree).files(),
{
    let mut dir: Vec<Vec<u8>> = Vec::new();
    dir.push(format_ipv4(client));
    assert(views(dir@) =~= seq![dotted(client)]);
    assert(seq![dotted(client)].drop_last() =~= Seq::<Seq<u8>>::empty());
    proof {
        lemma_files_push_dir(tree@, seq![dotted(client)]);
    }
    tree.create_dir(dir.as_slice()).is_ok()
}

impl Session {
    /// Reads a request line and starts the session that serves it. `tree`
    /// is the listing of the data directory, `client` the address of the
    /// client, whose own files lie in the directory named by that address.
    pub fn open(line: &[u8], tree: &DirectoryTree, client: u32, buffer_size: usize) -> (started: (
        Session,
        Action,
    ))
        requires
            buffer_size > 0,
        ensures
            started.0@ == (SessionView {
                phase: Phase::AllocPort,
                job: job_for(request_of(line@), tree.files(), dotted(client)),
                port: None,
                buffer_size,
                offset: 0,
                length: 0,
            }),
            started.0@.well_formed(),
            started.1@ == ActionView::AcquirePort,
    {
        let request = parse_request(line);
        let client_dir = format_ipv4(client);
        let job = plan(&request, tree, client_dir.as_slice());
        Session::begin(job, buffer_size)
    }

    /// A session for `job`. Files are sent, and uploads are read, in blocks
    /// of `buffer_size` bytes. The first thing to do is to take a port.
    pub fn begin(job: Job, buffer_size: usize) -> (started: (Session, Action))
        requires
            buffer_size > 0,
        ensures
            started.0@ == (SessionView {
                phase: Phase::AllocPort,
                job: job@,
                port: None,
                buffer_size,
                offset: 0,
                length: 0,
            }),
            started.0@.well_formed(),
            started.1@ == ActionView::AcquirePort,
    {
        (
            Session { phase: Phase::AllocPort, job, port: None, buffer_size, offset: 0, length: 0 },
            Action::AcquirePort,
        )
    }

    pub fn phase(&self) -> (phase: Phase)
        ensures
            phase == self@.phase,
    {
        self.phase
    }

    /// The port that the session holds.
    pub fn port(&self) -> (port: Option<u16>)
        ensures
            port == self@.port,
    {
        self.port
    }

    pub fn is_closed(&self) -> (closed: bool)
        ensures
            closed == (self@.phase == Phase::Closed),
    {
        match self.phase {
            Phase::Closed => true,
            _ => false,
        }
    }

    fn finish(&mut self) -> (action: Action)
        ensures
            (final(self)@, action@) == old(self)@.finish(),
    {
        let port = self.port;
        self.phase = Phase::Closed;
        self.port = None;
        Action::Finish(port)
    }

    fn on_connected(&mut self) -> (action: Action)
        ensures
            (final(self)@, action@) == old(self)@.on_connected(),
    {
        match &self.job {
            Job::Reply(bytes) => {
                let bytes = copy_bytes(bytes.as_slice());
                self.phase = Phase::Closing;
                Action::Send(bytes)
            },
            Job::SendFile(path) => {
                let path = copy_names(path.as_slice(), path.len());
                self.phase = Phase::Opening;
                Action::Open(path, OpenMode::Read)
            },
            Job::Unlink(path) => {
                let path = copy_names(path.as_slice(), path.len());
                self.phase = Phase::Removing;
                Action::Remove(path)
            },
            Job::Create(path) => {
                let path = copy_names(path.as_slice(), path.len());
                self.phase = Phase::Opening;
                Action::Open(path, OpenMode::CreateNew)
            },
            Job::Update(path) => {
                let path = copy_names(path.as_slice(), path.len());
                self.phase = Phase::Opening;
                Action::Open(path, OpenMode::Truncate)
            },
        }
    }

    fn on_opened(&mut self, length: usize) -> (action: Action)
        requires
            old(self)@.well_formed(),
        ensures
            (final(self)@, action@) == old(self)@.on_opened(length),
    {
        match &self.job {
            Job::SendFile(_) => {
                if length == 0 {
                    self.finish()
                } else {
                    let end = chunk_end(length, self.buffer_size, 0);
                    self.phase = Phase::Sending;
                    self.offset = 0;
                    self.length = length;
                    Action::SendBlock(0, end)
                }
            },
            Job::Create(_) | Job::Update(_) => {
                self.phase = Phase::Inviting;
                self.offset = 0;
                self.length = length;
                Action::Send(text_bytes(READY_TO_RECEIVE))
            },
            _ => self.finish(),
        }
    }

    fn on_open_failed(&mut self, error: OpenError) -> (action: Action)
        ensures
            (final(self)@, action@) == old(self)@.on_open_failed(error),
    {
        match &self.job {
            Job::SendFile(_) => {
                self.phase = Phase::Closing;
                Action::Send(text_bytes(FILE_NOT_FOUND))
            },
            Job::Create(_) => {
                if error == OpenError::AlreadyExists {
                    self.phase = Phase::Closing;
                    Action::Send(text_bytes(ALREADY_EXISTS))
                } else {
                    self.finish()
                }
            },
            Job::Update(_) => {
                if error == OpenError::NotFound {
                    self.phase = Phase::Closing;
                    Action::Send(text_bytes(FILE_NOT_FOUND))
                } else {
                    self.finish()
                }
            },
            _ => self.finish(),
        }
    }

    fn on_block_sent(&mut self) -> (action: Action)
        requires
            old(self)@.well_formed(),
        ensures
            (final(self)@, action@) == old(self)@.on_block_sent(),
    {
        let reached = chunk_end(self.length, self.buffer_size, self.offset);
        if reached >= self.length {
            self.finish()
        } else {
            let end = chunk_end(self.length, self.buffer_size, reached);
            self.offset = reached;
            Action::SendBlock(reached, end)
        }
    }

    /// Takes what happened and says what to do next.
    pub fn step(&mut self, event: Event) -> (action: Action)
        requires
            old(self)@.well_formed(),
        ensures
            (final(self)@, action@) == old(self)@.next(event),
            final(self)@.well_formed(),
    {
        match (self.phase, event) {
            (Phase::Closed, _) => Action::Nothing,
            (Phase::AllocPort, Event::PortGranted(port)) => {
                self.phase = Phase::DataAccept;
                self.port = Some(port);
                Action::Announce(port, port_announcement(port))
            },
            (Phase::DataAccept, Event::DataConnected) => self.on_connected(),
            (Phase::Opening, Event::Opened(length)) => self.on_opened(length),
            (Phase::Opening, Event::OpenFailed(error)) => self.on_open_failed(error),
            (Phase::Removing, Event::Removed(done)) => {
                self.phase = Phase::Closing;
                if done {
                    Action::Send(text_bytes(DELETE_SUCCESSFUL))
                } else {
                    Action::Send(text_bytes(FILE_NOT_FOUND))
                }
            },
            (Phase::Sending, Event::Sent) => self.on_block_sent(),
            (Phase::Inviting, Event::Sent) => {
                self.phase = Phase::Receiving;
                Action::Receive(self.buffer_size)
            },
            (Phase::Receiving, Event::Received(count)) => {
                if count == 0 || count > usize::MAX - self.length {
                    self.finish()
                } else {
                    let at = self.length;
                    self.length = at + count;
                    Action::Append(at, count)
                }
            },
            (Phase::Closing, Event::Sent) => self.finish(),
            _ => self.finish(),
        }
    }
}

} // verus!
