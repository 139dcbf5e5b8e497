//! Accounts that users are logged into.

use vstd::prelude::*;

verus! {

/// Access to the account a user is logged into.
#[derive(Clone, Copy, Debug)]
pub struct AccountAPI;

/// What is known of an account.
#[derive(Clone, Debug)]
pub struct AccountDetails {
    pub name: String,
}

impl AccountAPI {
    /// The account interface.
    pub fn new() -> (r: Self) {
        Self
    }

    /// The account name of a user, given what the core reported for it:
    /// none where it reported no name or an empty one.
    pub fn account_name_from(&self, raw: Option<String>) -> (r: Option<String>)
        ensures
            r is Some <==> (raw matches Some(x) && x@.len() > 0),
            r matches Some(s) ==> raw matches Some(x) && s@ == x@,
    {
        match raw {
            Some(s) => {
                if s.as_str().is_empty() {
                    None
                } else {
                    Some(s)
                }
            },
            None => None,
        }
    }

    /// Whether a user with the given account name is logged in.
    pub fn is_logged_in_as(&self, name: &Option<String>) -> (r: bool)
        ensures
            r == name is Some,
    {
        name.is_some()
    }

    /// The details of the account with the given name.
    pub fn account_details_from(&self, name: Option<String>) -> (r: Option<AccountDetails>)
        ensures
            r is Some <==> name is Some,
            r matches Some(d) ==> name matches Some(n) && d.name@ == n@,
    {
        match name {
            Some(n) => Some(AccountDetails { name: n }),
            None => None,
        }
    }
}

impl Default for AccountAPI {
    fn default() -> (r: Self) {
        Self::new()
    }
}

} // verus!
