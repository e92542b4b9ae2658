//! One profile's credentials.

use vstd::prelude::*;

verus! {

/// What a set of credentials holds, as mathematical values.
pub struct CredentialsView {
    pub secret_access_key: Seq<char>,
    pub access_key_id: Seq<char>,
    pub session_token: Option<Seq<char>>,
}

impl CredentialsView {
    /// The credentials of a profile in which nothing has been set: both keys
    /// empty, no session token.
    pub open spec fn unset() -> CredentialsView {
        CredentialsView {
            secret_access_key: Seq::empty(),
            access_key_id: Seq::empty(),
            session_token: None,
        }
    }
}

/// Represents AWS credentials with fields for access and secret keys.
#[derive(Debug)]
pub struct Credentials {
    pub secret_access_key: String,
    pub access_key_id: String,
    pub session_token: Option<String>,
}

impl View for Credentials {
    type V = CredentialsView;

    open spec fn view(&self) -> CredentialsView {
        CredentialsView {
            secret_access_key: self.secret_access_key@,
            access_key_id: self.access_key_id@,
            session_token: match self.session_token {
                Some(token) => Some(token@),
                None => None,
            },
        }
    }
}

impl Clone for Credentials {
    fn clone(&self) -> (copy: Self)
        ensures
            copy@ == self@,
    {
        Credentials {
            secret_access_key: self.secret_access_key.clone(),
            access_key_id: self.access_key_id.clone(),
            session_token: match &self.session_token {
                Some(token) => Some(token.clone()),
                None => None,
            },
        }
    }
}

impl Default for Credentials {
    fn default() -> (fresh: Self)
        ensures
            fresh@ == CredentialsView::unset(),
    {
        Credentials {
            secret_access_key: String::new(),
            access_key_id: String::new(),
            session_token: None,
        }
    }
}

impl Credentials {
    pub(crate) fn set_secret_access_key(&mut self, value: String)
        ensures
            final(self)@ == (CredentialsView { secret_access_key: value@, ..old(self)@ }),
    {
        self.secret_access_key = value;
    }

    pub(crate) fn set_access_key_id(&mut self, value: String)
        ensures
            final(self)@ == (CredentialsView { access_key_id: value@, ..old(self)@ }),
    {
        self.access_key_id = value;
    }

    pub(crate) fn set_session_token(&mut self, value: Option<String>)
        ensures
            final(self)@ == (CredentialsView {
                session_token: match value {
                    Some(token) => Some(token@),
                    None => None,
                },
                ..old(self)@
            }),
    {
        self.session_token = value;
    }

    /// Credentials made of the three values of a temporary session, all of
    /// them present.
    pub fn from_session(
        secret_access_key: String,
        access_key_id: String,
        session_token: String,
    ) -> (credentials: Credentials)
        ensures
            credentials@ == (CredentialsView {
                secret_access_key: secret_access_key@,
                access_key_id: access_key_id@,
                session_token: Some(session_token@),
            }),
    {
        Credentials { secret_access_key, access_key_id, session_token: Some(session_token) }
    }

    /// Credentials made of values that may be missing. Both keys are needed;
    /// the session token is optional. A missing secret access key is reported
    /// before a missing access key id.
    pub fn from_optional(
        secret_access_key: Option<String>,
        access_key_id: Option<String>,
        session_token: Option<String>,
    ) -> (outcome: Result<Credentials, &'static str>)
        ensures
            match (secret_access_key, access_key_id) {
                (Some(secret), Some(id)) => outcome matches Ok(credentials) && credentials@ == (
                CredentialsView {
                    secret_access_key: secret@,
                    access_key_id: id@,
                    session_token: match session_token {
                        Some(token) => Some(token@),
                        None => None,
                    },
                }),
                (None, _) => outcome matches Err(reason) && reason@
                    == "Missing secret access key"@,
                (Some(_), None) => outcome matches Err(reason) && reason@
                    == "Missing access key id"@,
            },
    {
        match secret_access_key {
            None => Err("Missing secret access key"),
            Some(secret_access_key) => match access_key_id {
                None => Err("Missing access key id"),
                Some(access_key_id) => Ok(
                    Credentials { secret_access_key, access_key_id, session_token },
                ),
            },
        }
    }
}

} // verus!
