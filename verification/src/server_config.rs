//! The settings of a server, as they are read from its configuration.

use vstd::prelude::*;

verus! {

/// An IPv4 address and a port.
#[derive(Clone, Copy, Debug, PartialEq, Eq, Structural)]
pub struct SocketAddress {
    /// The address as a number, first octet highest.
    pub ip: u32,
    pub port: u16,
}

impl SocketAddress {
    /// The address that stands for every interface, with a port that the
    /// system picks.
    pub open spec fn ephemeral() -> SocketAddress {
        SocketAddress { ip: 0, port: 0 }
    }

    /// Every interface, at a port that the system picks.
    pub fn ephemeral_address() -> (address: SocketAddress)
        ensures
            address == Self::ephemeral(),
    {
        SocketAddress { ip: 0, port: 0 }
    }
}

/// Every setting of a server.
#[derive(Debug)]
pub struct ServerConfig {
    /// Where the control listener binds.
    pub command_address: SocketAddress,
    /// The root of all files that clients see.
    pub data_dir_path: String,
    /// Where the allow and the deny set are kept between runs.
    pub serialized_lists_path: String,
    pub white_list_file_name: String,
    pub ban_list_file_name: String,
    /// How many workers serve connections.
    pub server_num_threads: usize,
    /// The size, in bytes, of the blocks in which files are sent and
    /// uploads are read.
    pub buffer_size: usize,
    /// The first and the last port of the pool of data ports.
    pub first_port: u16,
    pub last_port: u16,
}

impl ServerConfig {
    /// Whether a server can run on these settings: at least one worker,
    /// blocks of at least one byte, and a range of ports that is not empty.
    pub open spec fn usable(&self) -> bool {
        self.server_num_threads > 0 && self.buffer_size > 0 && self.first_port <= self.last_port
    }

    pub fn is_usable(&self) -> (usable: bool)
        ensures
            usable == self.usable(),
    {
        self.server_num_threads > 0 && self.buffer_size > 0 && self.first_port <= self.last_port
    }

    pub fn get_command_address(&self) -> (address: SocketAddress)
        ensures
            address == self.command_address,
    {
        self.command_address
    }

    pub fn get_data_dir_path(&self) -> (path: String)
        ensures
            path == self.data_dir_path,
    {
        self.data_dir_path.clone()
    }

    pub fn get_serialized_lists_path(&self) -> (path: String)
        ensures
            path == self.serialized_lists_path,
    {
        self.serialized_lists_path.clone()
    }

    pub fn get_white_list_file_name(&self) -> (name: String)
        ensures
            name == self.white_list_file_name,
    {
        self.white_list_file_name.clone()
    }

    pub fn get_ban_list_file_name(&self) -> (name: String)
        ensures
            name == self.ban_list_file_name,
    {
        self.ban_list_file_name.clone()
    }

    pub fn get_server_num_threads(&self) -> (count: usize)
        ensures
            count == self.server_num_threads,
    {
        self.server_num_threads
    }

    pub fn get_buffer_size(&self) -> (size: usize)
        ensures
            size == self.buffer_size,
    {
        self.buffer_size
    }

    pub fn get_first_port(&self) -> (port: u16)
        ensures
            port == self.first_port,
    {
        self.first_port
    }

    pub fn get_last_port(&self) -> (port: u16)
        ensures
            port == self.last_port,
    {
        self.last_port
    }
}

impl Default for ServerConfig {
    /// Settings to start from: no worker and no buffer yet, and the two
    /// ports 1 and 2.
    fn default() -> (config: Self)
        ensures
            config.command_address == SocketAddress::ephemeral(),
            config.data_dir_path@ == Seq::<char>::empty(),
            config.serialized_lists_path@ == Seq::<char>::empty(),
            config.white_list_file_name@ == Seq::<char>::empty(),
            config.ban_list_file_name@ == Seq::<char>::empty(),
            config.server_num_threads == 0,
            config.buffer_size == 0,
            config.first_port == 1,
            config.last_port == 2,
    {
        ServerConfig {
            command_address: SocketAddress::ephemeral_address(),
            data_dir_path: String::new(),
            serialized_lists_path: String::new(),
            white_list_file_name: String::new(),
            ban_list_file_name: String::new(),
            server_num_threads: 0,
            buffer_size: 0,
            first_port: 1,
            last_port: 2,
        }
    }
}

} // verus!
