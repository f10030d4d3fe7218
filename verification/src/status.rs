//! The reply codes of FTP.

use vstd::prelude::*;

verus! {

/// The data connection is already open; the transfer starts.
pub const ALREADY_OPEN: u32 = 125;

/// The file status is okay; the data connection is about to be opened.
pub const ABOUT_TO_SEND: u32 = 150;

/// The command is okay.
pub const COMMAND_OK: u32 = 200;

/// The status of a file.
pub const FILE: u32 = 213;

/// The service is ready for a new user.
pub const READY: u32 = 220;

/// The service closes the control connection.
pub const CLOSING: u32 = 221;

/// The service closes the data connection; the file action was successful.
pub const CLOSING_DATA_CONNECTION: u32 = 226;

/// The service enters passive mode.
pub const PASSIVE_MODE: u32 = 227;

/// The user is logged in.
pub const LOGGED_IN: u32 = 230;

/// The security mechanism is accepted.
pub const AUTH_OK: u32 = 234;

/// The file action is okay and completed.
pub const REQUESTED_FILE_ACTION_OK: u32 = 250;

/// The path was created.
pub const PATH_CREATED: u32 = 257;

/// The user name is okay; a password is needed.
pub const NEED_PASSWORD: u32 = 331;

/// The file action awaits further information.
pub const REQUEST_FILE_PENDING: u32 = 350;

/// The action was not taken, because there is no such file.
pub const FILE_UNAVAILABLE: u32 = 550;

} // verus!
