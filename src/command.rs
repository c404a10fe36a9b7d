//! What the client is asked to do.
use vstd::prelude::*;
use std::path::PathBuf;
use crate::frame::TransferError;
use crate::names::{is_valid_name, validate_name};

verus! {

#[verifier::external_type_specification]
#[verifier::external_body]
pub struct ExPathBuf(PathBuf);

/// One client operation: fetch a remote file into a local directory, send
/// a local file from a directory, or list the server's files.
pub enum Commands {
    Download { file: String, directory: PathBuf },
    Upload { file: String, directory: PathBuf },
    List,
}

/// Whether the remote name that a command carries, if any, stays inside
/// the server's root.
pub open spec fn command_is_contained(cmd: &Commands) -> bool {
    match cmd {
        Commands::Download { file, .. } => is_valid_name(file@),
        Commands::Upload { file, .. } => is_valid_name(file@),
        Commands::List => true,
    }
}

/// Checks a command's remote name before the client touches any file or
/// opens any stream.
pub fn check_command(cmd: &Commands) -> (r: Result<(), TransferError>)
    ensures
        r is Ok <==> command_is_contained(cmd),
        r is Err ==> r == Err::<(), TransferError>(TransferError::PathViolation),
{
    match cmd {
        Commands::Download { file, .. } => validate_name(file.as_str()),
        Commands::Upload { file, .. } => validate_name(file.as_str()),
        Commands::List => Ok(()),
    }
}

} // verus!
