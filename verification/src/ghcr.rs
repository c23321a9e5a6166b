//! Tag lists of images in the GitHub container registry.

use vstd::prelude::*;
use vstd::string::*;
use crate::docker::{authorization, base64_standard, bearer, TagListRequest};
use crate::environment::{lookup, Environment, Lookup, LookupView};

verus! {

/// The images of one owner in the GitHub container registry.
#[derive(Debug, Clone, PartialEq, Eq)]
pub struct Ghcr {
    pub registry: String,
}

/// The address at which the registry lists the tags of `image` of the owner
/// `registry`.
pub open spec fn ghcr_endpoint(registry: Seq<char>, image: Seq<char>) -> Seq<char> {
    "https://ghcr.io/v2/"@ + registry + "/"@ + image + "/tags/list"@
}

impl Ghcr {
    /// The images of the owner `registry`.
    pub fn new(registry: String) -> (r: Self)
        ensures
            r.registry == registry,
    {
        Ghcr { registry }
    }

    /// The request for the tags of `image`. Its credential is the value of
    /// the variable `GH_PASSWORD`; without one there is no request.
    pub fn list_tags(&self, image: &str, environment: &Environment) -> (r: Option<TagListRequest>)
        ensures
            match r {
                Some(request) => match lookup(environment@, "GH_PASSWORD"@) {
                    LookupView::Found(token) => request.endpoint@ == ghcr_endpoint(
                        self.registry@,
                        image@,
                    ) && request.authorization@ == bearer(base64_standard(token)),
                    _ => false,
                },
                None => !(lookup(environment@, "GH_PASSWORD"@) is Found),
            },
    {
        let token = match environment.var("GH_PASSWORD") {
            Lookup::Found(token) => token,
            _ => {
                return None;
            },
        };
        let mut endpoint = "https://ghcr.io/v2/".to_owned();
        endpoint.append(self.registry.as_str());
        endpoint.append("/");
        endpoint.append(image);
        endpoint.append("/tags/list");
        Some(TagListRequest { endpoint, authorization: authorization(token.as_str()) })
    }
}

} // verus!
