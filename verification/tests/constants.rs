use file_transfer::constants::{
    ALREADY_EXISTS, BYTE, DELETE_FAILED, DELETE_SUCCESSFUL, FILE_NOT_FOUND, INPUTS,
    INPUT_DESCRIPTIONS, KILOBYTE, MEGABYTE, QUIT_MESSAGE, READY_TO_RECEIVE, UNRECOGNIZED_MESSAGE,
    VERBS, VERB_DESCRIPTIONS,
};

#[test]
pub fn test_memory_representation_1() {
    assert_eq!(34 * BYTE, 34)
}

#[test]
pub fn test_memory_representation_2() {
    assert_eq!(128 * KILOBYTE, 128 * 1024 * BYTE)
}

#[test]
pub fn test_memory_representation_3() {
    assert_eq!(1000 * MEGABYTE, 1000 * 1024 * KILOBYTE * BYTE)
}

#[test]
pub fn test_units_have_exact_values() {
    assert_eq!(BYTE, 1);
    assert_eq!(KILOBYTE, 1024);
    assert_eq!(MEGABYTE, 1_048_576);
}

#[test]
pub fn test_replies_are_byte_exact() {
    assert_eq!(FILE_NOT_FOUND.as_bytes(), b"File not found\n");
    assert_eq!(DELETE_SUCCESSFUL.as_bytes(), b"Deleted file successfully\n");
    assert_eq!(DELETE_FAILED.as_bytes(), b"Failed to delete file\n");
    assert_eq!(ALREADY_EXISTS.as_bytes(), b"File already exists\n");
    assert_eq!(READY_TO_RECEIVE.as_bytes(), b"File ready to receive\n");
    assert_eq!(QUIT_MESSAGE.as_bytes(), b"Bye!\n");
    assert_eq!(
        UNRECOGNIZED_MESSAGE.as_bytes(),
        b"Unrecognized command. Use HELP command for info.\n"
    );
}

#[test]
pub fn test_verbs_and_their_usage_lines() {
    assert_eq!(VERBS, ["GET", "DELETE", "LIST", "CREATE", "UPDATE", "QUIT", "HELP", "LIST_OWNED"]);
    assert_eq!(
        VERB_DESCRIPTIONS,
        [
            "Usage: GET <filename>",
            "Usage: DELETE <filename>",
            "Usage: LIST",
            "Usage: CREATE <filename>",
            "Usage: UPDATE <filename>",
            "Usage: QUIT",
            "Usage: LIST_OWNED",
        ]
    );
}

#[test]
pub fn test_console_commands() {
    assert_eq!(INPUTS, ["SHUTDOWN", "ADD", "REMOVE", "LIST", "HELP", "SWITCH", "SHOW_CONFIG"]);
    assert_eq!(INPUT_DESCRIPTIONS.len(), 6);
}
