//! The credentials of one file, held in memory.

use crate::codec::{parse, parse_text, serialize, serialize_text};
use crate::credentials::{Credentials, CredentialsView};
use crate::error::Error;
use crate::setter::CredentialsSetter;
use crate::store::{contains_name, distinct_names, lookup, upsert, without, ProfileStore, ProfileView};
use vstd::prelude::*;

verus! {

/// What an `AWSCredentials` holds, as mathematical values: the path of its
/// file, and its profiles in the order in which they are written.
pub struct FileView {
    pub path: Seq<char>,
    pub profiles: Seq<ProfileView>,
}

/// Contains a mapping of profiles to AWS credentials, and the path of the
/// file that they belong to.
#[derive(Debug)]
pub struct AWSCredentials {
    file_path: String,
    credentials: ProfileStore,
}

impl View for AWSCredentials {
    type V = FileView;

    closed spec fn view(&self) -> FileView {
        FileView { path: self.file_path@, profiles: self.credentials@ }
    }
}

impl AWSCredentials {
    /// Creates a new AWSCredentials instance, without profiles, for the file
    /// at `path`. The file is not touched.
    pub fn new(path: &str) -> (fresh: AWSCredentials)
        ensures
            fresh@ == (FileView { path: path@, profiles: Seq::empty() }),
    {
        AWSCredentials { file_path: path.to_owned(), credentials: ProfileStore::new() }
    }

    /// The path of the file that these credentials belong to.
    pub fn file_path(&self) -> (path: &str)
        ensures
            path@ == self@.path,
    {
        self.file_path.as_str()
    }

    /// Gets the credentials for the specified profile.
    pub fn get_profile(&self, profile: &str) -> (found: Option<Credentials>)
        ensures
            match found {
                Some(credentials) => lookup(self@.profiles, profile@) == Some(credentials@),
                None => lookup(self@.profiles, profile@) is None,
            },
    {
        self.credentials.get(profile)
    }

    /// Gets a mutable reference to the credentials for the specified profile.
    /// The profile ends up holding whatever the caller leaves in them.
    pub fn get_profile_mut(&mut self, profile: &str) -> (found: Option<&mut Credentials>)
        ensures
            match found {
                Some(credentials) => lookup(old(self)@.profiles, profile@) == Some(credentials@)
                    && final(self)@ == (FileView {
                    profiles: upsert(old(self)@.profiles, profile@, final(credentials)@),
                    ..old(self)@
                }),
                None => lookup(old(self)@.profiles, profile@) is None && final(self)@ == old(
                    self,
                )@,
            },
    {
        self.credentials.get_mut(profile)
    }

    /// Sets the credentials for the specified profile.
    pub fn set_profile(&mut self, profile: &str, credentials: &Credentials)
        ensures
            final(self)@ == (FileView {
                profiles: upsert(old(self)@.profiles, profile@, credentials@),
                ..old(self)@
            }),
    {
        self.credentials.insert(profile, credentials.clone());
    }

    /// Returns a profiles credentials setter, if the profile does not exist, it will be created.
    pub fn with_profile(&mut self, profile: &str) -> (setter: CredentialsSetter<'_>)
        ensures
            setter.profile_name@ == profile@,
            setter.aws_credentials@ == (FileView {
                profiles: if contains_name(old(self)@.profiles, profile@) {
                    old(self)@.profiles
                } else {
                    old(self)@.profiles.push(
                        ProfileView { name: profile@, credentials: CredentialsView::unset() },
                    )
                },
                ..old(self)@
            }),
            *final(self) == *final(setter.aws_credentials),
    {
        if !self.credentials.contains(profile) {
            self.credentials.insert(profile, Credentials::default());
        }
        CredentialsSetter::new(self, profile)
    }

    /// Checks if the specified profile exists.
    pub fn profile_exists(&self, profile: &str) -> (found: bool)
        ensures
            found == contains_name(self@.profiles, profile@),
    {
        self.credentials.contains(profile)
    }

    /// Removes the specified profile and hands back what it held.
    pub fn remove_profile(&mut self, profile: &str) -> (removed: Option<Credentials>)
        ensures
            final(self)@ == (FileView {
                profiles: without(old(self)@.profiles, profile@),
                ..old(self)@
            }),
            match removed {
                Some(credentials) => lookup(old(self)@.profiles, profile@) == Some(credentials@),
                None => lookup(old(self)@.profiles, profile@) is None,
            },
    {
        self.credentials.remove(profile)
    }

    /// The credentials of the file at `file_path`, given what reading that
    /// file brought: its text, or nothing if it could not be read.
    pub fn load_from_contents(file_path: &str, contents: Option<String>) -> (outcome: Result<
        AWSCredentials,
        Error,
    >)
        ensures
            match contents {
                Some(text) => outcome matches Ok(loaded) && loaded@ == (FileView {
                    path: file_path@,
                    profiles: parse_text(text@),
                }),
                None => outcome matches Err(Error::FileNotFound(path)) && path@ == file_path@,
            },
    {
        match contents {
            None => Err(Error::FileNotFound(file_path.to_owned())),
            Some(text) => match parse(text.as_str()) {
                Ok(credentials) => Ok(
                    AWSCredentials { file_path: file_path.to_owned(), credentials },
                ),
                Err(_) => Err(Error::FailedToParse),
            },
        }
    }

    /// The text to write to the file: one section for each profile. The
    /// profiles have distinct names.
    pub fn serialize(&self) -> (text: String)
        ensures
            text@ == serialize_text(self@.profiles),
            distinct_names(self@.profiles),
    {
        serialize(&self.credentials)
    }
}

} // verus!
