//! Fixed strings of the wire protocol and of the operator console, and the
//! units in which buffer sizes are written.

use vstd::prelude::*;

verus! {

// Replies sent on the data channel.
pub const FILE_NOT_FOUND: &'static str = "File not found\n";

pub const DELETE_SUCCESSFUL: &'static str = "Deleted file successfully\n";

pub const DELETE_FAILED: &'static str = "Failed to delete file\n";

pub const ALREADY_EXISTS: &'static str = "File already exists\n";

pub const READY_TO_RECEIVE: &'static str = "File ready to receive\n";

pub const QUIT_MESSAGE: &'static str = "Bye!\n";

pub const UNRECOGNIZED_MESSAGE: &'static str = "Unrecognized command. Use HELP command for info.\n";

// Miscellaneous.
pub const FILE_TYPE_DIRECTORY: &'static str = "Directory";

pub const FILE_TYPE_FILE: &'static str = "File";

pub const FILE_TYPE_OTHER: &'static str = "Other";

pub const EMPTY: &'static str = "EMPTY";

pub const WRONG_INPUT: &'static str = "Wrong input!";

pub const BAN_LIST_DESC: &'static str = "Banned ips:";

pub const WHITE_LIST_DESC: &'static str = "Allowed ips:";

pub const CONFIG_LOAD_ERROR: &'static str = "Failed to load config file";

pub const UNRECOGNIZED_INPUT: &'static str = "Unrecognized input";

pub const SHUTTING_DOWN: &'static str = "Shutting down";

// Verbs of the control channel.
pub const GET: &'static str = "GET";

pub const DELETE: &'static str = "DELETE";

pub const LIST: &'static str = "LIST";

pub const LIST_OWNED: &'static str = "LIST_OWNED";

pub const CREATE: &'static str = "CREATE";

pub const UPDATE: &'static str = "UPDATE";

pub const QUIT: &'static str = "QUIT";

pub const HELP: &'static str = "HELP";

/// Every verb.
pub const VERBS: [&'static str; 8] = [GET, DELETE, LIST, CREATE, UPDATE, QUIT, HELP, LIST_OWNED];

// Usage lines of the verbs; `HELP` sends those of `VERB_DESCRIPTIONS`, in
// their order.
pub const GET_DESC: &'static str = "Usage: GET <filename>";

pub const DELETE_DESC: &'static str = "Usage: DELETE <filename>";

pub const LIST_DESC: &'static str = "Usage: LIST";

pub const LIST_OWNED_DESC: &'static str = "Usage: LIST_OWNED";

pub const CREATE_DESC: &'static str = "Usage: CREATE <filename>";

pub const UPDATE_DESC: &'static str = "Usage: UPDATE <filename>";

pub const QUIT_DESC: &'static str = "Usage: QUIT";

pub const VERB_DESCRIPTIONS: [&'static str; 7] = [
    GET_DESC,
    DELETE_DESC,
    LIST_DESC,
    CREATE_DESC,
    UPDATE_DESC,
    QUIT_DESC,
    LIST_OWNED_DESC,
];

// Commands of the operator console.
pub const SHUTDOWN: &'static str = "SHUTDOWN";

pub const ADD_IP: &'static str = "ADD";

pub const REMOVE_IP: &'static str = "REMOVE";

pub const LIST_IP: &'static str = "LIST";

pub const SWITCH: &'static str = "SWITCH";

pub const SHOW_CONFIG: &'static str = "SHOW_CONFIG";

/// Every command of the console.
pub const INPUTS: [&'static str; 7] = [
    SHUTDOWN,
    ADD_IP,
    REMOVE_IP,
    LIST_IP,
    HELP,
    SWITCH,
    SHOW_CONFIG,
];

// Usage lines of the console commands.
pub const SHUTDOWN_DESC: &'static str =
    "Usage: SHUTDOWN --- Shuts down the server and all active connections.";

pub const ADD_IP_DESC: &'static str =
    "Usage: ADD <ipv4 address> --- Adds a new IP to the white/ban list";

pub const REMOVE_IP_DESC: &'static str =
    "Usage: REMOVE<ipv4 address> --- Removes an IP from the white/ban list";

pub const LIST_IP_DESC: &'static str = "Usage: LIST --- Lists the white/ban list";

pub const SWITCH_DESC: &'static str =
    "Usage: SWITCH --- Switches from the current list to the opposite";

pub const SHOW_CONFIG_DESC: &'static str =
    "Usage: SHOW_CONFIG --- Shows current server configuration";

pub const INPUT_DESCRIPTIONS: [&'static str; 6] = [
    SHUTDOWN_DESC,
    ADD_IP_DESC,
    REMOVE_IP_DESC,
    LIST_IP_DESC,
    SWITCH_DESC,
    SHOW_CONFIG_DESC,
];

/// Name of the environment variable that holds the path of the configuration.
pub const CONFIG_PATH_ENV: &'static str = "CONFIG_PATH";

// Units of memory.
pub const BYTE: usize = 1;

pub const KILOBYTE: usize = 1024 * BYTE;

pub const MEGABYTE: usize = 1024 * KILOBYTE;

} // verus!
