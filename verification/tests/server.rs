use file_transfer::access::ActiveList::{BanList, WhiteList};
use file_transfer::access::AccessControl;
use file_transfer::server::{
    accept_step, read_step, AcceptAction, AcceptEvent, FileTransferServerBuilder, ReadAction,
    ReadEvent, POLL_INTERVAL_MS,
};
use file_transfer::server_config::{ServerConfig, SocketAddress};
use std::collections::HashSet;

fn ip(a: u8, b: u8, c: u8, d: u8) -> u32 {
    u32::from_be_bytes([a, b, c, d])
}

fn set_of(ips: &[u32]) -> HashSet<u32> {
    ips.iter().copied().collect()
}

#[test]
fn test_deny_admission() {
    let acl = AccessControl::new(BanList, HashSet::new(), set_of(&[ip(9, 9, 9, 9)]));
    assert_eq!(accept_step(&acl, AcceptEvent::Peer(Some(ip(9, 9, 9, 9)))), AcceptAction::Close);
    assert_eq!(
        accept_step(&acl, AcceptEvent::Peer(Some(ip(1, 1, 1, 1)))),
        AcceptAction::Serve(ip(1, 1, 1, 1))
    );
}

#[test]
fn test_allow_admission() {
    let acl = AccessControl::new(WhiteList, set_of(&[ip(1, 2, 3, 4)]), HashSet::new());
    assert_eq!(
        accept_step(&acl, AcceptEvent::Peer(Some(ip(1, 2, 3, 4)))),
        AcceptAction::Serve(ip(1, 2, 3, 4))
    );
    assert_eq!(accept_step(&acl, AcceptEvent::Peer(Some(ip(4, 3, 2, 1)))), AcceptAction::Close);
}

#[test]
fn test_peer_without_ipv4_address_is_closed() {
    let acl = AccessControl::new(BanList, HashSet::new(), HashSet::new());
    assert_eq!(accept_step(&acl, AcceptEvent::Peer(None)), AcceptAction::Close);
}

#[test]
fn test_accept_loop_polls() {
    let acl = AccessControl::new(BanList, HashSet::new(), HashSet::new());
    assert_eq!(accept_step(&acl, AcceptEvent::Ready(false)), AcceptAction::Accept);
    assert_eq!(accept_step(&acl, AcceptEvent::Ready(true)), AcceptAction::Stop);
    assert_eq!(accept_step(&acl, AcceptEvent::WouldBlock), AcceptAction::Sleep(100));
    assert_eq!(accept_step(&acl, AcceptEvent::Failed), AcceptAction::Fail);
    assert_eq!(POLL_INTERVAL_MS, 100);
}

#[test]
fn test_read_loop() {
    assert_eq!(read_step(ReadEvent::Ready(false)), ReadAction::Read);
    assert_eq!(read_step(ReadEvent::Ready(true)), ReadAction::Close);
    assert_eq!(read_step(ReadEvent::WouldBlock), ReadAction::Sleep(100));
    assert_eq!(read_step(ReadEvent::Failed), ReadAction::Abort);
    assert_eq!(read_step(ReadEvent::Line), ReadAction::Dispatch);
}

#[test]
fn test_builder_defaults() {
    let server = FileTransferServerBuilder::new().build();
    assert_eq!(server.command_server_address, SocketAddress { ip: 0, port: 8080 });
    assert_eq!(server.data_directory, "./");
    assert_eq!(server.serialized_lists_directory, None);
    assert_eq!(server.access.active_list(), WhiteList);
    assert!(server.access.white_list().is_empty());
    assert!(server.access.ban_list().is_empty());
    assert_eq!(server.white_list_name, "");
    assert_eq!(server.ban_list_name, "");
    assert!(server.port_allocator.is_none());
}

#[test]
fn test_builder_settings() {
    let server = FileTransferServerBuilder::new()
        .command_server_address(SocketAddress { ip: ip(127, 0, 0, 1), port: 9000 })
        .data_directory("/tmp/data".to_string())
        .activate_ban_list()
        .serialized_lists_directory("/tmp/lists".to_string())
        .load_lists("white.json", "ban.json", None, Some(set_of(&[ip(9, 9, 9, 9)])))
        .init_port_allocator(5000, 5004)
        .build();
    assert_eq!(server.command_server_address, SocketAddress { ip: ip(127, 0, 0, 1), port: 9000 });
    assert_eq!(server.data_directory, "/tmp/data");
    assert_eq!(server.serialized_lists_directory, Some("/tmp/lists".to_string()));
    assert_eq!(server.access.active_list(), BanList);
    assert!(server.access.white_list().is_empty());
    assert_eq!(server.access.ban_list(), &set_of(&[ip(9, 9, 9, 9)]));
    assert_eq!(server.white_list_name, "white.json");
    assert_eq!(server.ban_list_name, "ban.json");
    assert_eq!(server.port_allocator.unwrap().pool_size(), 5);
}

#[test]
fn test_builder_address_parts() {
    let builder = FileTransferServerBuilder::new().command_ipv4(ip(10, 0, 0, 1));
    assert_eq!(builder.command_server_address, SocketAddress { ip: ip(10, 0, 0, 1), port: 8080 });
    let builder = builder.command_port(21);
    assert_eq!(builder.command_server_address, SocketAddress { ip: ip(10, 0, 0, 1), port: 21 });
    let builder = builder.activate_ban_list().activate_white_list();
    assert_eq!(builder.active_list, WhiteList);
}

#[test]
fn test_lists_are_not_loaded_without_a_directory() {
    let builder = FileTransferServerBuilder::new().load_lists(
        "w",
        "b",
        Some(set_of(&[1])),
        Some(set_of(&[2])),
    );
    assert!(builder.white_list.is_empty());
    assert!(builder.ban_list.is_empty());
    assert_eq!(builder.white_list_name, "w");
    assert_eq!(builder.ban_list_name, "b");
}

#[test]
fn test_first_port_allocator_stays() {
    let server = FileTransferServerBuilder::new()
        .init_port_allocator(1, 2)
        .init_port_allocator(10, 19)
        .build();
    let allocator = server.port_allocator.unwrap();
    assert_eq!(allocator.pool_size(), 2);
    assert_eq!(allocator.first_port(), 1);
    assert_eq!(allocator.last_port(), 2);
}

#[test]
fn test_default_config() {
    let config = ServerConfig::default();
    assert_eq!(config.get_command_address(), SocketAddress { ip: 0, port: 0 });
    assert_eq!(config.get_data_dir_path(), "");
    assert_eq!(config.get_serialized_lists_path(), "");
    assert_eq!(config.get_white_list_file_name(), "");
    assert_eq!(config.get_ban_list_file_name(), "");
    assert_eq!(config.get_server_num_threads(), 0);
    assert_eq!(config.get_buffer_size(), 0);
    assert_eq!(config.get_first_port(), 1);
    assert_eq!(config.get_last_port(), 2);
    assert!(!config.is_usable());
}

#[test]
pub fn test_server_config_1() {
    let server_config = config_as_read();

    assert_eq!(server_config.get_buffer_size(), 8192);
    assert_eq!(server_config.get_server_num_threads(), 10);
    assert_eq!(server_config.get_data_dir_path(), "./data");
}

/// The settings of a configuration file.
fn config_as_read() -> ServerConfig {
    ServerConfig {
        command_address: SocketAddress { ip: ip(127, 0, 0, 1), port: 8080 },
        data_dir_path: "./data".to_string(),
        serialized_lists_path: "./lists".to_string(),
        white_list_file_name: "white.json".to_string(),
        ban_list_file_name: "ban.json".to_string(),
        server_num_threads: 10,
        buffer_size: 8192,
        first_port: 5000,
        last_port: 5100,
    }
}

#[test]
fn test_config_getters() {
    let config = ServerConfig {
        command_address: SocketAddress { ip: ip(127, 0, 0, 1), port: 8080 },
        data_dir_path: "./data".to_string(),
        serialized_lists_path: "./lists".to_string(),
        white_list_file_name: "white.json".to_string(),
        ban_list_file_name: "ban.json".to_string(),
        server_num_threads: 10,
        buffer_size: 8192,
        first_port: 5000,
        last_port: 5100,
    };
    assert_eq!(config.get_buffer_size(), 8192);
    assert_eq!(config.get_server_num_threads(), 10);
    assert_eq!(config.get_data_dir_path(), "./data");
    assert_eq!(config.get_serialized_lists_path(), "./lists");
    assert_eq!(config.get_white_list_file_name(), "white.json");
    assert_eq!(config.get_ban_list_file_name(), "ban.json");
    assert_eq!(config.get_first_port(), 5000);
    assert_eq!(config.get_last_port(), 5100);
    assert!(config.is_usable());
}

#[test]
fn test_config_that_cannot_be_used() {
    let mut config = ServerConfig::default();
    config.server_num_threads = 1;
    config.buffer_size = 1;
    assert!(config.is_usable());
    config.first_port = 3;
    assert!(!config.is_usable());
    config.first_port = 2;
    assert!(config.is_usable());
    config.buffer_size = 0;
    assert!(!config.is_usable());
}
