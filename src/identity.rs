use vstd::prelude::*;

use crate::token::{sign_person_search_results, token_signature, PersonSearchResult, SignedPersonSearchResultDto};

verus! {

/// Tokens the identity provider hands out for a signed-in user.
pub struct OAuthResponse {
    pub access_token: String,
    pub refresh_token: String,
}

/// The people a directory search found.
pub struct PersonSearchResponse {
    pub users: Vec<PersonSearchResult>,
}

impl PersonSearchResponse {
    /// Signs every person found for election `election_id`, in order.
    pub fn sign_for_election(self, election_id: i32, signing_key: &[u8]) -> (r: Vec<
        SignedPersonSearchResultDto,
    >)
        ensures
            r@.len() == self.users@.len(),
            forall|i: int|
                0 <= i < r@.len() ==> {
                    &&& (#[trigger] r@[i]).username == self.users@[i].username
                    &&& r@[i].display_name == self.users@[i].name
                    &&& r@[i].signature@ == token_signature(
                        signing_key@,
                        election_id,
                        self.users@[i].username@,
                        self.users@[i].name@,
                    )
                },
    {
        sign_person_search_results(election_id, self.users, signing_key)
    }
}

} // verus!
