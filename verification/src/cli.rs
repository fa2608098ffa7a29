use vstd::prelude::*;

use crate::error::RdrError;
use crate::session::{ensure_supported_host, supported_host, HostPlatform};

verus! {

/// A command of the command line, with its arguments.
#[derive(Clone, Debug, PartialEq, Eq)]
pub enum Command {
    /// List indexed objects without scanning the complete image.
    List { image: String, json: bool },
    /// Scan record headers and report discovered objects.
    Inspect { image: String, max_records: Option<u64> },
    /// Extract one object as a sparse raw image.
    Extract { image: String, object: u32, output: String, force: bool },
    /// Serve one object as a read-only raw file over localhost NFSv3.
    Serve { image: String, object: u32, listen: String, ready_file: Option<String> },
    /// Attach an indexed object and mount its recognized volumes read-only.
    Mount { image: String, object: Option<u32>, json: bool },
    /// Detach a mount session by session id or image path.
    Unmount { target: String, json: bool },
    /// Show known mount sessions.
    Status { json: bool },
}

/// How the extraction opens its output file.
#[derive(Clone, Copy, Debug, PartialEq, Eq)]
pub enum OutputMode {
    /// Create the file; refuse one that exists.
    CreateNew,
    /// Create the file, or empty one that exists.
    CreateOrTruncate,
}

/// The operation that a command asks for, ready to be carried out.
#[derive(Clone, Debug, PartialEq, Eq)]
pub enum Operation {
    List { image: String, json: bool },
    Inspect { image: String, max_records: Option<u64> },
    Extract { image: String, object: u32, output: String, mode: OutputMode },
    Serve { image: String, object: u32, listen: String, ready_file: Option<String> },
    Mount { image: String, object: Option<u32>, json: bool, platform: HostPlatform },
    Unmount { target: String, json: bool, platform: HostPlatform },
    Status { json: bool },
}

/// The operation of `command` on a host whose operating system is `os`:
/// the arguments pass through, an extraction replaces an existing output
/// only when forced, and mounting and unmounting are refused on hosts other
/// than macOS and Linux.
pub fn run(command: Command, os: &str) -> (r: Result<Operation, RdrError>)
    ensures
        match command {
            Command::List { image, json } => r == Ok::<Operation, RdrError>(
                Operation::List { image, json },
            ),
            Command::Inspect { image, max_records } => r == Ok::<Operation, RdrError>(
                Operation::Inspect { image, max_records },
            ),
            Command::Extract { image, object, output, force } => r == Ok::<Operation, RdrError>(
                Operation::Extract {
                    image,
                    object,
                    output,
                    mode: if force {
                        OutputMode::CreateOrTruncate
                    } else {
                        OutputMode::CreateNew
                    },
                },
            ),
            Command::Serve { image, object, listen, ready_file } => r == Ok::<Operation, RdrError>(
                Operation::Serve { image, object, listen, ready_file },
            ),
            Command::Mount { image, object, json } => match supported_host(os@) {
                Ok(platform) => r == Ok::<Operation, RdrError>(
                    Operation::Mount { image, object, json, platform },
                ),
                Err(e) => r == Err::<Operation, RdrError>(e),
            },
            Command::Unmount { target, json } => match supported_host(os@) {
                Ok(platform) => r == Ok::<Operation, RdrError>(
                    Operation::Unmount { target, json, platform },
                ),
                Err(e) => r == Err::<Operation, RdrError>(e),
            },
            Command::Status { json } => r == Ok::<Operation, RdrError>(Operation::Status { json }),
        },
{
    match command {
        Command::List { image, json } => Ok(Operation::List { image, json }),
        Command::Inspect { image, max_records } => Ok(Operation::Inspect { image, max_records }),
        Command::Extract { image, object, output, force } => {
            let mode = if force {
                OutputMode::CreateOrTruncate
            } else {
                OutputMode::CreateNew
            };
            Ok(Operation::Extract { image, object, output, mode })
        },
        Command::Serve { image, object, listen, ready_file } => Ok(
            Operation::Serve { image, object, listen, ready_file },
        ),
        Command::Mount { image, object, json } => match ensure_supported_host(os) {
            Ok(platform) => Ok(Operation::Mount { image, object, json, platform }),
            Err(e) => Err(e),
        },
        Command::Unmount { target, json } => match ensure_supported_host(os) {
            Ok(platform) => Ok(Operation::Unmount { target, json, platform }),
            Err(e) => Err(e),
        },
        Command::Status { json } => Ok(Operation::Status { json }),
    }
}

} // verus!
