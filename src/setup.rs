//! The checks made before a build starts.
use vstd::prelude::*;
use crate::errors::{DirExistsError, InitializationError, MissingDirectoryError, MissingIndexError};

verus! {

/// Checks the directories of a build, given what the file system shows: the
/// vault must exist, the output directory must not exist yet, and the vault
/// must hold its index file. The first failing check gives the error.
pub fn validate_build_args(
    input_dir: &str,
    input_exists: bool,
    output_dir: &str,
    output_exists: bool,
    index_file: &str,
    index_exists: bool,
) -> (r: Result<(), InitializationError>)
    ensures
        !input_exists ==> (r matches Err(InitializationError::MissingDirectory(MissingDirectoryError(d))) && d@ == input_dir@),
        input_exists && output_exists ==> (r matches Err(InitializationError::OutputDirExists(DirExistsError(d))) && d@ == output_dir@),
        input_exists && !output_exists && !index_exists ==> (r matches Err(InitializationError::MissingIndexError(MissingIndexError(i, d)))
            && i@ == index_file@ && d@ == input_dir@),
        input_exists && !output_exists && index_exists ==> r is Ok,
{
    if !input_exists {
        return Err(InitializationError::MissingDirectory(MissingDirectoryError(input_dir.to_owned())));
    }
    if output_exists {
        return Err(InitializationError::OutputDirExists(DirExistsError(output_dir.to_owned())));
    }
    if !index_exists {
        return Err(InitializationError::MissingIndexError(MissingIndexError(index_file.to_owned(), input_dir.to_owned())));
    }
    Ok(())
}

} // verus!
