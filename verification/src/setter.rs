//! Setting the fields of one profile, one call after the other.

use crate::credentials::CredentialsView;
use crate::manager::{AWSCredentials, FileView};
use crate::store::{distinct_names, lemma_lookup_upsert, lemma_upsert_distinct, lookup, upsert};
use vstd::prelude::*;

verus! {

/// A setter which could be used to set key-value pair in a specified section.
///
/// Each call looks the profile up again: if the profile is no longer there,
/// the call changes nothing.
pub struct CredentialsSetter<'a> {
    pub aws_credentials: &'a mut AWSCredentials,
    pub profile_name: String,
}

/// The file after the profile `name`, if there is one, has been given the
/// credentials that `change` makes of its own.
pub open spec fn changed(
    file: FileView,
    name: Seq<char>,
    change: spec_fn(CredentialsView) -> CredentialsView,
) -> FileView {
    match lookup(file.profiles, name) {
        Some(credentials) => FileView {
            profiles: upsert(file.profiles, name, change(credentials)),
            ..file
        },
        None => file,
    }
}

/// After such a change the profile `name`, if there is one, holds what
/// `change` made of its credentials; every other profile holds what it held,
/// and no profile has come or gone.
pub proof fn lemma_changed_lookup(
    file: FileView,
    name: Seq<char>,
    change: spec_fn(CredentialsView) -> CredentialsView,
    other: Seq<char>,
)
    requires
        distinct_names(file.profiles),
    ensures
        distinct_names(changed(file, name, change).profiles),
        changed(file, name, change).path == file.path,
        lookup(changed(file, name, change).profiles, other) == match lookup(
            file.profiles,
            other,
        ) {
            Some(credentials) => Some(
                if other == name {
                    change(credentials)
                } else {
                    credentials
                },
            ),
            None => None,
        },
{
    match lookup(file.profiles, name) {
        Some(credentials) => {
            lemma_upsert_distinct(file.profiles, name, change(credentials));
            lemma_lookup_upsert(file.profiles, name, change(credentials), other);
        },
        None => {},
    }
}

impl<'a> CredentialsSetter<'a> {
    pub(crate) fn new(aws_credentials: &'a mut AWSCredentials, profile_name: &str) -> (setter:
        CredentialsSetter<'a>)
        ensures
            setter.profile_name@ == profile_name@,
            *setter.aws_credentials == *old(aws_credentials),
            *final(aws_credentials) == *final(setter.aws_credentials),
    {
        CredentialsSetter { aws_credentials, profile_name: profile_name.to_owned() }
    }

    pub fn set_secret_access_key(&'a mut self, value: &str) -> (same: &'a mut CredentialsSetter<
        'a,
    >)
        ensures
            same.profile_name == old(self).profile_name,
            same.aws_credentials@ == changed(
                old(self).aws_credentials@,
                old(self).profile_name@,
                |credentials: CredentialsView|
                    CredentialsView { secret_access_key: value@, ..credentials },
            ),
            *final(same.aws_credentials) == *final(old(self).aws_credentials),
            *final(self) == *final(same),
    {
        if let Some(credentials) = self.aws_credentials.get_profile_mut(
            self.profile_name.as_str(),
        ) {
            credentials.set_secret_access_key(value.to_owned());
        }
        self
    }

    pub fn set_access_key_id(&'a mut self, value: &str) -> (same: &'a mut CredentialsSetter<'a>)
        ensures
            same.profile_name == old(self).profile_name,
            same.aws_credentials@ == changed(
                old(self).aws_credentials@,
                old(self).profile_name@,
                |credentials: CredentialsView|
                    CredentialsView { access_key_id: value@, ..credentials },
            ),
            *final(same.aws_credentials) == *final(old(self).aws_credentials),
            *final(self) == *final(same),
    {
        if let Some(credentials) = self.aws_credentials.get_profile_mut(
            self.profile_name.as_str(),
        ) {
            credentials.set_access_key_id(value.to_owned());
        }
        self
    }

    pub fn set_session_token(&'a mut self, value: Option<String>) -> (same: &'a mut CredentialsSetter<
        'a,
    >)
        ensures
            same.profile_name == old(self).profile_name,
            same.aws_credentials@ == changed(
                old(self).aws_credentials@,
                old(self).profile_name@,
                |credentials: CredentialsView|
                    CredentialsView {
                        session_token: match value {
                            Some(token) => Some(token@),
                            None => None,
                        },
                        ..credentials
                    },
            ),
            *final(same.aws_credentials) == *final(old(self).aws_credentials),
            *final(self) == *final(same),
    {
        if let Some(credentials) = self.aws_credentials.get_profile_mut(
            self.profile_name.as_str(),
        ) {
            credentials.set_session_token(value);
        }
        self
    }

    pub fn clear_session_token(&'a mut self) -> (same: &'a mut CredentialsSetter<'a>)
        ensures
            same.profile_name == old(self).profile_name,
            same.aws_credentials@ == changed(
                old(self).aws_credentials@,
                old(self).profile_name@,
                |credentials: CredentialsView|
                    CredentialsView { session_token: None, ..credentials },
            ),
            *final(same.aws_credentials) == *final(old(self).aws_credentials),
            *final(self) == *final(same),
    {
        if let Some(credentials) = self.aws_credentials.get_profile_mut(
            self.profile_name.as_str(),
        ) {
            credentials.set_session_token(None);
        }
        self
    }
}

} // verus!
