//! The state of a server and how it is put together, and the two loops
//! that poll: the one that accepts connections and the one that waits for
//! the request line of a connection.
//!
//! Neither loop blocks. Each looks at the shutdown flag before it tries its
//! socket, and sleeps for a short while where the socket has nothing yet.
//! The caller owns the sockets and the flag; it reports what it saw and
//! does what it is told.

use crate::access::{AccessControl, AccessView, ActiveList};
use crate::port_allocator::{port_range, PortAllocator};
use crate::server_config::SocketAddress;
use std::collections::HashSet;
use vstd::prelude::*;

verus! {

/// How long a loop sleeps before it looks again, in milliseconds.
pub const POLL_INTERVAL_MS: u64 = 100;

/// What the accepting loop saw.
#[derive(Clone, Copy, Debug, PartialEq, Eq, Structural)]
pub enum AcceptEvent {
    /// The loop is about to try the listener; this is the shutdown flag.
    Ready(bool),
    /// No connection is waiting.
    WouldBlock,
    /// The listener failed.
    Failed,
    /// A connection came from this IPv4 address, or from one that is none.
    Peer(Option<u32>),
}

/// What the accepting loop is to do.
#[derive(Clone, Copy, Debug, PartialEq, Eq, Structural)]
pub enum AcceptAction {
    /// Leave the loop: wait for the workers and the console, then return.
    Stop,
    /// Try to accept a connection.
    Accept,
    /// Sleep this many milliseconds, then look again.
    Sleep(u64),
    /// Leave the loop with the error of the listener.
    Fail,
    /// Close the connection without a word, then look again.
    Close,
    /// Hand the connection from this address to a worker, then look again.
    Serve(u32),
}

/// What the accepting loop does on an event. A connection is served exactly
/// where its address is an IPv4 address that the access lists admit.
pub open spec fn accept_action(acl: AccessView, event: AcceptEvent) -> AcceptAction {
    match event {
        AcceptEvent::Ready(shutdown) => if shutdown {
            AcceptAction::Stop
        } else {
            AcceptAction::Accept
        },
        AcceptEvent::WouldBlock => AcceptAction::Sleep(POLL_INTERVAL_MS),
        AcceptEvent::Failed => AcceptAction::Fail,
        AcceptEvent::Peer(None) => AcceptAction::Close,
        AcceptEvent::Peer(Some(ip)) => if acl.admits(ip) {
            AcceptAction::Serve(ip)
        } else {
            AcceptAction::Close
        },
    }
}

/// One turn of the accepting loop.
pub fn accept_step(acl: &AccessControl, event: AcceptEvent) -> (action: AcceptAction)
    ensures
        action == accept_action(acl@, event),
        action is Serve <==> event is Peer && event->Peer_0 is Some && acl@.admits(
            event->Peer_0->Some_0,
        ),
{
    match event {
        AcceptEvent::Ready(shutdown) => {
            if shutdown {
                AcceptAction::Stop
            } else {
                AcceptAction::Accept
            }
        },
        AcceptEvent::WouldBlock => AcceptAction::Sleep(POLL_INTERVAL_MS),
        AcceptEvent::Failed => AcceptAction::Fail,
        AcceptEvent::Peer(None) => AcceptAction::Close,
        AcceptEvent::Peer(Some(ip)) => {
            if acl.admits(ip) {
                AcceptAction::Serve(ip)
            } else {
                AcceptAction::Close
            }
        },
    }
}

/// What the loop that waits for a request line saw.
#[derive(Clone, Copy, Debug, PartialEq, Eq, Structural)]
pub enum ReadEvent {
    /// The loop is about to try the socket; this is the shutdown flag.
    Ready(bool),
    /// The line is not there yet.
    WouldBlock,
    /// The socket failed.
    Failed,
    /// The line was read.
    Line,
}

/// What the loop that waits for a request line is to do.
#[derive(Clone, Copy, Debug, PartialEq, Eq, Structural)]
pub enum ReadAction {
    /// Close the control socket and drop the connection.
    Close,
    /// Try to read the line.
    Read,
    /// Sleep this many milliseconds, then look again.
    Sleep(u64),
    /// Drop the connection with the error of the socket.
    Abort,
    /// Go on to serve the request.
    Dispatch,
}

/// What the waiting loop does on an event. Once the shutdown flag is seen,
/// the connection is closed; it is never left waiting.
pub open spec fn read_action(event: ReadEvent) -> ReadAction {
    match event {
        ReadEvent::Ready(shutdown) => if shutdown {
            ReadAction::Close
        } else {
            ReadAction::Read
        },
        ReadEvent::WouldBlock => ReadAction::Sleep(POLL_INTERVAL_MS),
        ReadEvent::Failed => ReadAction::Abort,
        ReadEvent::Line => ReadAction::Dispatch,
    }
}

/// One turn of the loop that waits for a request line.
pub fn read_step(event: ReadEvent) -> (action: ReadAction)
    ensures
        action == read_action(event),
{
    match event {
        ReadEvent::Ready(shutdown) => {
            if shutdown {
                ReadAction::Close
            } else {
                ReadAction::Read
            }
        },
        ReadEvent::WouldBlock => ReadAction::Sleep(POLL_INTERVAL_MS),
        ReadEvent::Failed => ReadAction::Abort,
        ReadEvent::Line => ReadAction::Dispatch,
    }
}

/// What a server is made of. The caller binds the listener, runs the loops
/// and, when the server stops, writes the two sets under their names into
/// the directory for the lists, where there is one.
pub struct FileTransferServer {
    pub command_server_address: SocketAddress,
    pub data_directory: String,
    pub serialized_lists_directory: Option<String>,
    pub access: AccessControl,
    pub white_list_name: String,
    pub ban_list_name: String,
    /// The pool of data ports, where one was asked for.
    pub port_allocator: Option<PortAllocator>,
}

/// Puts a server together setting by setting.
pub struct FileTransferServerBuilder {
    pub command_server_address: SocketAddress,
    pub data_directory: String,
    pub serialized_lists_directory: Option<String>,
    pub active_list: ActiveList,
    pub white_list: HashSet<u32>,
    pub ban_list: HashSet<u32>,
    pub white_list_name: String,
    pub ban_list_name: String,
    pub port_allocator: Option<PortAllocator>,
}

/// The port of the control listener where none is set.
pub const DEFAULT_COMMAND_PORT: u16 = 8080;

/// The data directory where none is set.
pub const DEFAULT_DATA_DIRECTORY: &'static str = "./";

impl FileTransferServerBuilder {
    /// A builder with the settings of a server that nothing was said
    /// about: every interface at port 8080, the working directory for the
    /// data, no directory for the lists, both sets empty, the allow set
    /// active, and no pool of ports.
    pub fn new() -> (builder: Self)
        ensures
            builder.command_server_address == (SocketAddress {
                ip: 0,
                port: DEFAULT_COMMAND_PORT,
            }),
            builder.data_directory@ == DEFAULT_DATA_DIRECTORY@,
            builder.serialized_lists_directory is None,
            builder.active_list == ActiveList::WhiteList,
            builder.white_list@ == Set::<u32>::empty(),
            builder.ban_list@ == Set::<u32>::empty(),
            builder.white_list_name@ == Seq::<char>::empty(),
            builder.ban_list_name@ == Seq::<char>::empty(),
            builder.port_allocator is None,
    {
        FileTransferServerBuilder {
            command_server_address: SocketAddress { ip: 0, port: DEFAULT_COMMAND_PORT },
            data_directory: DEFAULT_DATA_DIRECTORY.to_owned(),
            serialized_lists_directory: None,
            active_list: ActiveList::WhiteList,
            white_list: HashSet::new(),
            ban_list: HashSet::new(),
            white_list_name: String::new(),
            ban_list_name: String::new(),
            port_allocator: None,
        }
    }

    pub fn command_server_address(self, address: SocketAddress) -> (builder: Self)
        ensures
            builder == (FileTransferServerBuilder { command_server_address: address, ..self }),
    {
        let mut builder = self;
        builder.command_server_address = address;
        builder
    }

    pub fn command_ipv4(self, ip: u32) -> (builder: Self)
        ensures
            builder == (FileTransferServerBuilder {
                command_server_address: SocketAddress {
                    ip,
                    port: self.command_server_address.port,
                },
                ..self
            }),
    {
        let mut builder = self;
        builder.command_server_address = SocketAddress {
            ip,
            port: builder.command_server_address.port,
        };
        builder
    }

    pub fn command_port(self, port: u16) -> (builder: Self)
        ensures
            builder == (FileTransferServerBuilder {
                command_server_address: SocketAddress {
                    ip: self.command_server_address.ip,
                    port,
                },
                ..self
            }),
    {
        let mut builder = self;
        builder.command_server_address = SocketAddress {
            ip: builder.command_server_address.ip,
            port,
        };
        builder
    }

    /// Sets the data directory. The caller makes the directory.
    pub fn data_directory(self, dir: String) -> (builder: Self)
        ensures
            builder == (FileTransferServerBuilder { data_directory: dir, ..self }),
    {
        let mut builder = self;
        builder.data_directory = dir;
        builder
    }

    pub fn activate_ban_list(self) -> (builder: Self)
        ensures
            builder == (FileTransferServerBuilder { active_list: ActiveList::BanList, ..self }),
    {
        let mut builder = self;
        builder.active_list = ActiveList::BanList;
        builder
    }

    pub fn activate_white_list(self) -> (builder: Self)
        ensures
            builder == (FileTransferServerBuilder { active_list: ActiveList::WhiteList, ..self }),
    {
        let mut builder = self;
        builder.active_list = ActiveList::WhiteList;
        builder
    }

    /// Sets the directory in which the two sets are kept. The caller makes
    /// the directory.
    pub fn serialized_lists_directory(self, dir: String) -> (builder: Self)
        ensures
            builder == (FileTransferServerBuilder {
                serialized_lists_directory: Some(dir),
                ..self
            }),
    {
        let mut builder = self;
        builder.serialized_lists_directory = Some(dir);
        builder
    }

    /// Names the files of the two sets and takes what the caller read from
    /// them: `None` for a file that is missing or cannot be read, which
    /// counts as the empty set. Without a directory for the lists, only the
    /// names are taken and the sets stay as they are.
    pub fn load_lists(
        self,
        white_list_name: &str,
        ban_list_name: &str,
        white_list: Option<HashSet<u32>>,
        ban_list: Option<HashSet<u32>>,
    ) -> (builder: Self)
        ensures
            builder.white_list_name@ == white_list_name@,
            builder.ban_list_name@ == ban_list_name@,
            builder.white_list@ == if self.serialized_lists_directory is None {
                self.white_list@
            } else if white_list is Some {
                white_list->Some_0@
            } else {
                Set::<u32>::empty()
            },
            builder.ban_list@ == if self.serialized_lists_directory is None {
                self.ban_list@
            } else if ban_list is Some {
                ban_list->Some_0@
            } else {
                Set::<u32>::empty()
            },
            builder.command_server_address == self.command_server_address,
            builder.data_directory == self.data_directory,
            builder.serialized_lists_directory == self.serialized_lists_directory,
            builder.active_list == self.active_list,
            builder.port_allocator == self.port_allocator,
    {
        let mut builder = self;
        builder.white_list_name = white_list_name.to_owned();
        builder.ban_list_name = ban_list_name.to_owned();
        if builder.serialized_lists_directory.is_some() {
            builder.white_list = match white_list {
                Some(set) => set,
                None => HashSet::new(),
            };
            builder.ban_list = match ban_list {
                Some(set) => set,
                None => HashSet::new(),
            };
        }
        builder
    }

    /// Makes the pool of data ports, unless the builder has one already:
    /// the first pool stays.
    pub fn init_port_allocator(self, first_port: u16, last_port: u16) -> (builder: Self)
        requires
            self.port_allocator is Some || first_port <= last_port,
            self.port_allocator is Some ==> self.port_allocator->Some_0.well_formed(),
        ensures
            builder.port_allocator is Some,
            builder.port_allocator->Some_0.well_formed(),
            self.port_allocator is Some ==> builder.port_allocator == self.port_allocator,
            self.port_allocator is None ==> builder.port_allocator->Some_0.first() == first_port
                && builder.port_allocator->Some_0.last() == last_port
                && builder.port_allocator->Some_0.free() == port_range(first_port, last_port),
            builder.command_server_address == self.command_server_address,
            builder.data_directory == self.data_directory,
            builder.serialized_lists_directory == self.serialized_lists_directory,
            builder.active_list == self.active_list,
            builder.white_list == self.white_list,
            builder.ban_list == self.ban_list,
            builder.white_list_name == self.white_list_name,
            builder.ban_list_name == self.ban_list_name,
    {
        let mut builder = self;
        if builder.port_allocator.is_none() {
            builder.port_allocator = Some(PortAllocator::new(first_port, last_port));
        }
        builder
    }

    pub fn build(self) -> (server: FileTransferServer)
        ensures
            server.command_server_address == self.command_server_address,
            server.data_directory == self.data_directory,
            server.serialized_lists_directory == self.serialized_lists_directory,
            server.access@ == (AccessView {
                active: self.active_list,
                allowed: self.white_list@,
                banned: self.ban_list@,
            }),
            server.white_list_name == self.white_list_name,
            server.ban_list_name == self.ban_list_name,
            server.port_allocator == self.port_allocator,
    {
        FileTransferServer {
            command_server_address: self.command_server_address,
            data_directory: self.data_directory,
            serialized_lists_directory: self.serialized_lists_directory,
            access: AccessControl::new(self.active_list, self.white_list, self.ban_list),
            white_list_name: self.white_list_name,
            ban_list_name: self.ban_list_name,
            port_allocator: self.port_allocator,
        }
    }
}

} // verus!
