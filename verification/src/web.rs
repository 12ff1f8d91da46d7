//! The computable edges of the remote fetch: the endpoint address built
//! from the configuration values, and the meaning of a response status.
//! The request itself is transport work and stays outside the library.

use vstd::prelude::*;
use vstd::string::StringExecFns;

verus! {

/// The address of the provider's "list project variables" endpoint for the
/// given base address, project identifier and access token, the token as a
/// query parameter.
pub fn variables_url(base_url: &str, project_id: &str, token: &str) -> (r: String)
    ensures
        r@ == base_url@ + "/api/v4/projects/"@ + project_id@ + "/variables?private_token="@
            + token@,
{
    let mut url = base_url.to_owned();
    url.append("/api/v4/projects/");
    url.append(project_id);
    url.append("/variables?private_token=");
    url.append(token);
    url
}

/// The fixed value identifying this client, attached as the agent header of
/// every request.
pub fn client_agent() -> (r: String)
    ensures
        r@ == "blue.bird"@,
{
    "blue.bird".to_owned()
}

/// A response status grants success exactly in the 2xx range; anything else
/// calls for a status error before any decode is attempted.
pub fn status_is_success(status: u16) -> (r: bool)
    ensures
        r == (200 <= status < 300),
{
    200 <= status && status < 300
}

} // verus!
