//! The operator console: one command per line of standard input.
//!
//! A line is put in upper case and split at white space. `ADD` and `REMOVE`
//! take one address in dotted form and work on the set that gates admission
//! at that moment; `SWITCH` puts the other set in its place. The caller reads
//! the lines and prints what a command answers.

use crate::access::{AccessControl, AccessView, ActiveList};
use crate::constants::{
    ADD_IP, BAN_LIST_DESC, HELP, INPUT_DESCRIPTIONS, LIST_IP, REMOVE_IP, SHOW_CONFIG, SHUTDOWN,
    SWITCH, WHITE_LIST_DESC,
};
use crate::ipv4::{dotted, lemma_dotted_names_one_address, parse_ipv4};
use crate::text::{is_text, split_words, to_upper, upper, views, words};
use crate::transfer::{lines_of, lines_text};
use vstd::prelude::*;
use vstd::string::StringSliceAdditionalSpecFns;

verus! {

/// What the console answers to a line.
#[derive(Clone, Copy, Debug, PartialEq, Eq, Structural)]
pub enum ConsoleReply {
    /// Raise the shutdown flag and stop reading.
    Shutdown,
    /// The address was put into, or taken out of, the current set.
    Done,
    /// The line did not hold one address in dotted form.
    WrongInput,
    /// Print the heading of this set, then its addresses.
    List(ActiveList),
    /// The other set gates admission from now on.
    Switched,
    /// Print the configuration.
    ShowConfig,
    /// Print the usage lines of the console.
    Help,
    /// The line is no command.
    Unrecognized,
}

/// The address that a line names: the second of exactly two words, where it
/// is an address in dotted form.
pub open spec fn address_in(parts: Seq<Seq<u8>>) -> Option<u32> {
    if parts.len() == 2 && exists|ip: u32| parts[1] == #[trigger] dotted(ip) {
        Some(choose|ip: u32| parts[1] == #[trigger] dotted(ip))
    } else {
        None
    }
}

/// The access lists after a line, and the answer to it. `parts` are the
/// words of the line in upper case.
pub open spec fn console_effect(acl: AccessView, parts: Seq<Seq<u8>>) -> (
    AccessView,
    ConsoleReply,
) {
    if parts.len() == 0 {
        (acl, ConsoleReply::Unrecognized)
    } else if parts[0] == SHUTDOWN.spec_bytes() {
        (acl, ConsoleReply::Shutdown)
    } else if parts[0] == ADD_IP.spec_bytes() {
        match address_in(parts) {
            Some(ip) => (acl.with_current(acl.current().insert(ip)), ConsoleReply::Done),
            None => (acl, ConsoleReply::WrongInput),
        }
    } else if parts[0] == REMOVE_IP.spec_bytes() {
        match address_in(parts) {
            Some(ip) => (acl.with_current(acl.current().remove(ip)), ConsoleReply::Done),
            None => (acl, ConsoleReply::WrongInput),
        }
    } else if parts[0] == LIST_IP.spec_bytes() {
        (acl, ConsoleReply::List(acl.active))
    } else if parts[0] == SWITCH.spec_bytes() {
        (AccessView { active: acl.active.toggled(), ..acl }, ConsoleReply::Switched)
    } else if parts[0] == SHOW_CONFIG.spec_bytes() {
        (acl, ConsoleReply::ShowConfig)
    } else if parts[0] == HELP.spec_bytes() {
        (acl, ConsoleReply::Help)
    } else {
        (acl, ConsoleReply::Unrecognized)
    }
}

/// The words of a console line: those of the line in upper case.
pub open spec fn console_words(line: Seq<u8>) -> Seq<Seq<u8>> {
    words(upper(line))
}

/// The heading under which a set is listed.
pub open spec fn heading_of(list: ActiveList) -> Seq<u8> {
    match list {
        ActiveList::WhiteList => WHITE_LIST_DESC.spec_bytes(),
        ActiveList::BanList => BAN_LIST_DESC.spec_bytes(),
    }
}

/// The usage lines of the console, each ended by a line feed.
pub open spec fn console_help_of() -> Seq<u8> {
    lines_of(INPUT_DESCRIPTIONS@)
}

/// Reads the address that a line names.
fn read_address(parts: &Vec<Vec<u8>>) -> (address: Option<u32>)
    ensures
        address == address_in(views(parts@)),
{
    if parts.len() != 2 {
        return None;
    }
    match parse_ipv4(parts[1].as_slice()) {
        Some(ip) => {
            proof {
                let chosen = choose|other: u32| views(parts@)[1] == #[trigger] dotted(other);
                lemma_dotted_names_one_address(ip, chosen);
            }
            Some(ip)
        },
        None => None,
    }
}

/// Carries out one line of the console.
pub fn console_step(acl: &mut AccessControl, line: &[u8]) -> (reply: ConsoleReply)
    ensures
        (final(acl)@, reply) == console_effect(old(acl)@, console_words(line@)),
{
    let shouted = to_upper(line);
    let parts = split_words(shouted.as_slice());
    if parts.len() == 0 {
        return ConsoleReply::Unrecognized;
    }
    let verb = parts[0].as_slice();
    if is_text(verb, SHUTDOWN) {
        ConsoleReply::Shutdown
    } else if is_text(verb, ADD_IP) {
        match read_address(&parts) {
            Some(ip) => {
                acl.add(ip);
                ConsoleReply::Done
            },
            None => ConsoleReply::WrongInput,
        }
    } else if is_text(verb, REMOVE_IP) {
        match read_address(&parts) {
            Some(ip) => {
                acl.remove(ip);
                ConsoleReply::Done
            },
            None => ConsoleReply::WrongInput,
        }
    } else if is_text(verb, LIST_IP) {
        ConsoleReply::List(acl.active_list())
    } else if is_text(verb, SWITCH) {
        acl.switch();
        ConsoleReply::Switched
    } else if is_text(verb, SHOW_CONFIG) {
        ConsoleReply::ShowConfig
    } else if is_text(verb, HELP) {
        ConsoleReply::Help
    } else {
        ConsoleReply::Unrecognized
    }
}

/// The heading under which a set is listed.
pub fn list_heading(list: ActiveList) -> (heading: &'static str)
    ensures
        heading.spec_bytes() == heading_of(list),
{
    match list {
        ActiveList::WhiteList => WHITE_LIST_DESC,
        ActiveList::BanList => BAN_LIST_DESC,
    }
}

/// The usage lines of the console.
pub fn console_help_text() -> (bytes: Vec<u8>)
    ensures
        bytes@ == console_help_of(),
{
    lines_text(&INPUT_DESCRIPTIONS)
}

} // verus!
