use file_transfer::access::ActiveList::{BanList, WhiteList};
use file_transfer::access::AccessControl;
use file_transfer::console::{console_help_text, console_step, list_heading, ConsoleReply};
use std::collections::HashSet;

fn ip(a: u8, b: u8, c: u8, d: u8) -> u32 {
    u32::from_be_bytes([a, b, c, d])
}

fn deny_all_of(ips: &[u32]) -> AccessControl {
    AccessControl::new(BanList, HashSet::new(), ips.iter().copied().collect())
}

#[test]
fn test_shutdown() {
    let mut acl = deny_all_of(&[]);
    assert_eq!(console_step(&mut acl, b"SHUTDOWN"), ConsoleReply::Shutdown);
    assert_eq!(console_step(&mut acl, b"shutdown now"), ConsoleReply::Shutdown);
}

#[test]
fn test_add_puts_the_address_into_the_current_list() {
    let mut acl = deny_all_of(&[]);
    assert_eq!(console_step(&mut acl, b"ADD 9.9.9.9"), ConsoleReply::Done);
    assert!(acl.ban_list().contains(&ip(9, 9, 9, 9)));
    assert!(acl.white_list().is_empty());
    assert!(!acl.admits(ip(9, 9, 9, 9)));
    assert!(acl.admits(ip(1, 1, 1, 1)));
}

#[test]
fn test_add_with_bad_input() {
    let mut acl = deny_all_of(&[]);
    assert_eq!(console_step(&mut acl, b"ADD"), ConsoleReply::WrongInput);
    assert_eq!(console_step(&mut acl, b"ADD 1.2.3"), ConsoleReply::WrongInput);
    assert_eq!(console_step(&mut acl, b"ADD 1.2.3.4 5.6.7.8"), ConsoleReply::WrongInput);
    assert_eq!(console_step(&mut acl, b"ADD 01.2.3.4"), ConsoleReply::WrongInput);
    assert_eq!(console_step(&mut acl, b"ADD localhost"), ConsoleReply::WrongInput);
    assert!(acl.ban_list().is_empty());
    assert!(acl.white_list().is_empty());
}

#[test]
fn test_remove_takes_the_address_out_of_the_current_list() {
    let mut acl = deny_all_of(&[ip(9, 9, 9, 9), ip(8, 8, 8, 8)]);
    assert_eq!(console_step(&mut acl, b"remove 9.9.9.9\n"), ConsoleReply::Done);
    assert!(!acl.ban_list().contains(&ip(9, 9, 9, 9)));
    assert!(acl.ban_list().contains(&ip(8, 8, 8, 8)));
    assert_eq!(console_step(&mut acl, b"REMOVE 7.7.7.7"), ConsoleReply::Done);
    assert_eq!(acl.ban_list().len(), 1);
    assert_eq!(console_step(&mut acl, b"REMOVE x"), ConsoleReply::WrongInput);
}

#[test]
fn test_switch_toggles_once_for_each_command() {
    let mut acl = deny_all_of(&[ip(9, 9, 9, 9)]);
    assert_eq!(console_step(&mut acl, b"SWITCH"), ConsoleReply::Switched);
    assert_eq!(acl.active_list(), WhiteList);
    assert_eq!(console_step(&mut acl, b"SWITCH"), ConsoleReply::Switched);
    assert_eq!(acl.active_list(), BanList);
    assert!(acl.ban_list().contains(&ip(9, 9, 9, 9)));
}

#[test]
fn test_add_after_switch_goes_to_the_other_list() {
    let mut acl = deny_all_of(&[]);
    assert_eq!(console_step(&mut acl, b"switch"), ConsoleReply::Switched);
    assert_eq!(console_step(&mut acl, b"add 1.2.3.4"), ConsoleReply::Done);
    assert!(acl.white_list().contains(&ip(1, 2, 3, 4)));
    assert!(acl.ban_list().is_empty());
    assert!(acl.admits(ip(1, 2, 3, 4)));
    assert!(!acl.admits(ip(1, 2, 3, 5)));
}

#[test]
fn test_list_names_the_current_list() {
    let mut acl = deny_all_of(&[]);
    assert_eq!(console_step(&mut acl, b"LIST"), ConsoleReply::List(BanList));
    console_step(&mut acl, b"SWITCH");
    assert_eq!(console_step(&mut acl, b"list"), ConsoleReply::List(WhiteList));
    assert_eq!(list_heading(BanList), "Banned ips:");
    assert_eq!(list_heading(WhiteList), "Allowed ips:");
}

#[test]
fn test_other_commands() {
    let mut acl = deny_all_of(&[]);
    assert_eq!(console_step(&mut acl, b"SHOW_CONFIG"), ConsoleReply::ShowConfig);
    assert_eq!(console_step(&mut acl, b"help"), ConsoleReply::Help);
    assert_eq!(console_step(&mut acl, b""), ConsoleReply::Unrecognized);
    assert_eq!(console_step(&mut acl, b"   "), ConsoleReply::Unrecognized);
    assert_eq!(console_step(&mut acl, b"GET a"), ConsoleReply::Unrecognized);
    assert_eq!(console_step(&mut acl, b"EMPTY"), ConsoleReply::Unrecognized);
    assert_eq!(acl.active_list(), BanList);
}

#[test]
fn test_console_help_text() {
    let expected = "Usage: SHUTDOWN --- Shuts down the server and all active connections.\n\
Usage: ADD <ipv4 address> --- Adds a new IP to the white/ban list\n\
Usage: REMOVE<ipv4 address> --- Removes an IP from the white/ban list\n\
Usage: LIST --- Lists the white/ban list\n\
Usage: SWITCH --- Switches from the current list to the opposite\n\
Usage: SHOW_CONFIG --- Shows current server configuration\n";
    assert_eq!(console_help_text(), expected.as_bytes().to_vec());
}
