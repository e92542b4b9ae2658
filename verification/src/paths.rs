//! Where the credentials file is kept.

use crate::error::Error;
use vstd::prelude::*;

verus! {

/// The path of the credentials file of the user whose home directory is
/// `home`.
pub open spec fn credentials_path_in(home: Seq<char>) -> Seq<char> {
    home + "/.aws/credentials"@
}

/// Calls `dirs::home_dir`, which asks the environment and the operating
/// system for the home directory of the current user, and hands its answer on
/// as a string. Nothing is claimed of the answer: it may be absent, and it is
/// absent too when the path is not valid Unicode.
#[verifier::external_body]
fn home_directory() -> (home: Option<String>) {
    dirs::home_dir().and_then(|path| path.to_str().map(|text| text.to_owned()))
}

/// The path of the credentials file, given the home directory of the user or
/// nothing if that directory is not known.
pub fn default_path_for(home: Option<String>) -> (outcome: Result<String, Error>)
    ensures
        match home {
            Some(directory) => outcome matches Ok(path) && path@ == credentials_path_in(
                directory@,
            ),
            None => outcome == Err::<String, Error>(Error::HomeDirNotFound),
        },
{
    match home {
        Some(directory) => {
            let mut path = directory;
            path.append("/.aws/credentials");
            Ok(path)
        },
        None => Err(Error::HomeDirNotFound),
    }
}

/// The path of the credentials file of the current user:
/// `.aws/credentials` under the home directory, whatever that is.
pub fn default_path() -> (outcome: Result<String, Error>)
    ensures
        match outcome {
            Ok(path) => exists|home: Seq<char>| path@ == credentials_path_in(home),
            Err(error) => error == Error::HomeDirNotFound,
        },
{
    let home = home_directory();
    default_path_for(home)
}

} // verus!
