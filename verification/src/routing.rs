//! Routing a request path to the HTML file that answers it.

use vstd::prelude::*;
use vstd::string::StringExecFns;
use crate::text::str_eq;

verus! {

/// The file a request path maps to: the index for the root, otherwise
/// the HTML file named after the path.
pub open spec fn spec_routed(request_path: Seq<char>) -> Seq<char> {
    if request_path == "/"@ {
        "html"@ + "/index.html"@
    } else {
        "html"@ + request_path + ".html"@
    }
}

/// Get the file path to the HTML answering `request_path`.
pub fn handle_routing(request_path: String) -> (r: String)
    ensures
        r@ == spec_routed(request_path@),
{
    let mut path = String::from_str("html");

    if str_eq(request_path.as_str(), "/") {
        path.append("/index.html");
    } else {
        path.append(request_path.as_str());
        path.append(".html");
    }

    path
}

} // verus!
