//! What loading a `.env` file ends in: a file that does not exist is no
//! error; any other failure becomes a `Dotenv` error with the path and cause.

use vstd::prelude::*;

use crate::error::{EnvLockError, ErrorView};

verus! {

/// How an attempt to load a `.env` file ended.
pub enum LoadOutcome {
    /// The file was read and its variables were set.
    Loaded,
    /// There is no file at the path.
    NotFound,
    /// The file could not be read or parsed; the text of the cause.
    Failed(String),
}

/// The result of loading the file at `path` (shown as `path`): `Ok` when it
/// was loaded or does not exist, otherwise a `Dotenv` error with the path
/// and the cause.
pub fn load_result(path: String, outcome: LoadOutcome) -> (r: Result<(), EnvLockError>)
    ensures
        match outcome {
            LoadOutcome::Loaded => r is Ok,
            LoadOutcome::NotFound => r is Ok,
            LoadOutcome::Failed(cause) => r matches Err(e) && e@ == (ErrorView::Dotenv {
                path: path@,
                cause: cause@,
                hint: None,
            }),
        },
{
    match outcome {
        LoadOutcome::Loaded => Ok(()),
        LoadOutcome::NotFound => Ok(()),
        LoadOutcome::Failed(cause) => Err(EnvLockError::dotenv(path, cause)),
    }
}

} // verus!
