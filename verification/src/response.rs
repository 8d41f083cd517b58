//! Building the response for a parsed request: route the request path
//! to a file on disk, and render the response head around the file's
//! contents. Reading the file itself is the caller's business; the
//! functions here only decide which file and lay out the bytes.

use vstd::prelude::*;
use vstd::string::StrSliceExecFns;
use vstd::string::StringExecFns;
use vstd::string::StringSliceAdditionalSpecFns;
use crate::request::Request;
use crate::text::dec_str;
use crate::text::dec_u64;
use crate::text::opt_view;
use crate::text::str_eq;

verus! {

/// The status of a response: the file was found, or it was not.
#[derive(Clone, Copy, Debug, PartialEq, Eq, Structural)]
pub enum Status {
    Okay,
    NotFound,
}

/// The status line belonging to a status.
pub open spec fn status_text(s: Status) -> Seq<char> {
    match s {
        Status::Okay => "HTTP/1.1 200 OK"@,
        Status::NotFound => "HTTP/1.1 404 NOT FOUND"@,
    }
}

impl Status {
    /// The status line, ready to send.
    pub fn to_string(self) -> (r: String)
        ensures
            r@ == status_text(self),
    {
        match self {
            Status::Okay => String::from_str("HTTP/1.1 200 OK"),
            Status::NotFound => String::from_str("HTTP/1.1 404 NOT FOUND"),
        }
    }
}

/// Whether a request path names an icon file.
pub open spec fn spec_ends_ico(path: Seq<char>) -> bool {
    path.len() >= 4 && path.skip(path.len() - 4) == ".ico"@
}

/// The file a request path routes to: icon requests go to the missing
/// page, the root goes to the index, and anything else to the HTML
/// file of the same name.
pub open spec fn spec_route_path(path: Seq<char>) -> Seq<char> {
    if spec_ends_ico(path) {
        "html/404.html"@
    } else if path == "/"@ {
        "html/index.html"@
    } else {
        "html"@ + path + ".html"@
    }
}

/// The status a request path routes to.
pub open spec fn spec_route_status(path: Seq<char>) -> Status {
    if spec_ends_ico(path) {
        Status::NotFound
    } else {
        Status::Okay
    }
}

/// Whether `path` ends in the four characters of ".ico".
fn ends_with_ico(path: &str) -> (r: bool)
    ensures
        r == spec_ends_ico(path@),
{
    let n = path.unicode_len();
    if n < 4 {
        false
    } else {
        let c0 = path.get_char(n - 4);
        let c1 = path.get_char(n - 3);
        let c2 = path.get_char(n - 2);
        let c3 = path.get_char(n - 1);
        let r = c0 == '.' && c1 == 'i' && c2 == 'c' && c3 == 'o';
        proof {
            reveal_strlit(".ico");
            let tail = path@.skip(n - 4);
            assert(tail.len() == 4);
            assert(tail[0] == c0 && tail[1] == c1 && tail[2] == c2 && tail[3] == c3);
            if r {
                assert(tail =~= ".ico"@);
            } else {
                if tail == ".ico"@ {
                    assert(tail[0] == '.' && tail[1] == 'i' && tail[2] == 'c' && tail[3] == 'o');
                }
            }
        }
        r
    }
}

/// The response head around a body: the status line, the body's byte
/// length, a blank line, then the body.
pub open spec fn rendered(status: Status, contents: Seq<char>, byte_len: nat) -> Seq<char> {
    status_text(status) + "\r\nContent-Length: "@ + dec_str(byte_len) + "\r\n\r\n"@ + contents
}

/// An HTTP response: which file holds its body, and its status.
#[derive(Debug)]
pub struct Response {
    pub html_path: Option<String>,
    pub status: Status,
}

impl Response {
    /// Decide which file answers a request. The request must have made
    /// it through parsing, so it carries a path.
    pub fn from_request(request: Request) -> (r: Response)
        requires
            request.path is Some,
        ensures
            r.status == spec_route_status(request.path.unwrap()@),
            opt_view(r.html_path) == Some(spec_route_path(request.path.unwrap()@)),
    {
        let path = match request.path {
            Some(p) => p,
            None => {
                proof {
                    assert(false);
                }
                String::new()
            },
        };
        let mut html_path = String::new();
        let mut status = Status::NotFound;

        if ends_with_ico(path.as_str()) {
            html_path.append("html/404.html");
            proof {
                assert(html_path@ =~= "html/404.html"@);
            }
        } else if str_eq(path.as_str(), "/") {
            html_path.append("html/index.html");
            status = Status::Okay;
            proof {
                assert(html_path@ =~= "html/index.html"@);
            }
        } else {
            html_path.append("html");
            html_path.append(path.as_str());
            html_path.append(".html");
            status = Status::Okay;
            proof {
                assert(html_path@ =~= "html"@ + path@ + ".html"@);
            }
        }

        Response { html_path: Some(html_path), status }
    }

    /// The response sent when the request could not be parsed at all.
    pub fn from_error() -> (r: Response)
        ensures
            r.html_path is None,
            r.status == Status::NotFound,
    {
        Response { html_path: None, status: Status::NotFound }
    }

    /// The file whose contents become the body: the routed file on
    /// success, the missing page otherwise. A response that claims
    /// success must carry a path.
    pub fn file_path(&self) -> (p: String)
        requires
            self.status is Okay ==> self.html_path is Some,
        ensures
            p@ == (match self.status {
                Status::Okay => self.html_path.unwrap()@,
                Status::NotFound => "html/404.html"@,
            }),
    {
        match self.status {
            Status::Okay => match &self.html_path {
                Some(p) => p.clone(),
                None => {
                    proof {
                        assert(false);
                    }
                    String::new()
                },
            },
            Status::NotFound => String::from_str("html/404.html"),
        }
    }

    /// Lay the response out as one string: status line, the body's
    /// byte length, a blank line, the body.
    pub fn text(self, contents: &str) -> (r: String)
        requires
            contents.spec_bytes().len() <= usize::MAX,
        ensures
            r@ == rendered(self.status, contents@, contents.spec_bytes().len()),
    {
        let mut r = self.status.to_string();
        r.append("\r\nContent-Length: ");
        let len_str = dec_u64(contents.len() as u64);
        r.append(len_str.as_str());
        r.append("\r\n\r\n");
        r.append(contents);
        proof {
            assert(r@ =~= rendered(self.status, contents@, contents.spec_bytes().len()));
        }
        r
    }
}

} // verus!
