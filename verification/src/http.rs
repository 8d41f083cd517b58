//! The buffer-level HTTP types: a request that is still the raw bytes
//! the transport read, and the response built from the path those
//! bytes carry. The hello page answers the root; everything else gets
//! the missing page.

use vstd::prelude::*;
use vstd::string::StrSliceExecFns;
use vstd::string::StringExecFns;
use vstd::string::StringSliceAdditionalSpecFns;
use crate::text::ascii_to_string;
use crate::text::ascii_view;
use crate::text::dec_str;
use crate::text::dec_u64;
use crate::text::opt_view;
use crate::text::piece;
use crate::text::split_chars;
use crate::text::split_str;
use crate::text::str_eq;

verus! {

/// HTTP request: the raw bytes of one read from the connection.
pub struct HTTPRequest {
    pub buffer: [u8; 1024],
}

/// The request path: what stands between the first space of the buffer
/// and the next, the way `GET /path HTTP/1.1` carries it.
pub open spec fn spec_path(buffer: Seq<u8>) -> Seq<char> {
    piece(split_chars(ascii_view(buffer), " "@), 1)
}

impl HTTPRequest {
    /// Create new HTTP request from a buffer.
    pub fn new(buffer: [u8; 1024]) -> (r: Self)
        ensures
            r.buffer@ == buffer@,
    {
        HTTPRequest { buffer }
    }

    /// Get the path that was requested. The buffer must be ASCII and
    /// hold at least one space, so that a path token exists; the
    /// transport rejects a read that does not.
    pub fn get_path(self) -> (r: String)
        requires
            forall|i: int| 0 <= i < self.buffer@.len() ==> self.buffer@[i] < 128,
            split_chars(ascii_view(self.buffer@), " "@).len() >= 2,
        ensures
            r@ == spec_path(self.buffer@),
    {
        let s = ascii_to_string(self.buffer.as_slice());
        proof {
            reveal_strlit(" ");
        }
        let parts = split_str(s.as_str(), " ");
        proof {
            assert(parts.deep_view().len() == parts@.len());
            assert(parts@[1]@ == piece(split_chars(ascii_view(self.buffer@), " "@), 1));
        }
        parts[1].clone()
    }
}

/// HTTP response status.
#[derive(Clone, Copy, Debug, PartialEq, Eq, Structural)]
pub enum HTTPResponseStatus {
    Okay,
    NotFound,
}

/// The status line belonging to a status.
pub open spec fn spec_status_text(s: HTTPResponseStatus) -> Seq<char> {
    match s {
        HTTPResponseStatus::Okay => "HTTP/1.1 200 OK"@,
        HTTPResponseStatus::NotFound => "HTTP/1.1 404 NOT FOUND"@,
    }
}

impl HTTPResponseStatus {
    /// Get the response status as a string.
    pub fn text(self) -> (r: String)
        ensures
            r@ == spec_status_text(self),
    {
        match self {
            HTTPResponseStatus::Okay => String::from_str("HTTP/1.1 200 OK"),
            HTTPResponseStatus::NotFound => String::from_str("HTTP/1.1 404 NOT FOUND"),
        }
    }
}

/// The file answering a request path: the hello page for the root,
/// the missing page for everything else.
pub open spec fn spec_file_for(path: Seq<char>) -> Seq<char> {
    if path == "/"@ {
        "html/hello.html"@
    } else {
        "html/404.html"@
    }
}

/// The status answering a request path.
pub open spec fn spec_status_for(path: Seq<char>) -> HTTPResponseStatus {
    if path == "/"@ {
        HTTPResponseStatus::Okay
    } else {
        HTTPResponseStatus::NotFound
    }
}

/// HTTP response: which file holds its body, and its status.
pub struct HTTPResponse {
    pub html_path: Option<String>,
    pub status: HTTPResponseStatus,
}

impl HTTPResponse {
    /// Create the response answering a request: the hello page for the
    /// root path, the missing page for any other. The request buffer
    /// must satisfy what [`HTTPRequest::get_path`] asks.
    pub fn new(request: HTTPRequest) -> (r: Self)
        requires
            forall|i: int| 0 <= i < request.buffer@.len() ==> request.buffer@[i] < 128,
            split_chars(ascii_view(request.buffer@), " "@).len() >= 2,
        ensures
            r.status == spec_status_for(spec_path(request.buffer@)),
            opt_view(r.html_path) == Some(spec_file_for(spec_path(request.buffer@))),
    {
        let path = request.get_path();

        let (html_path, status) = if str_eq(path.as_str(), "/") {
            ("html/hello.html", HTTPResponseStatus::Okay)
        } else {
            ("html/404.html", HTTPResponseStatus::NotFound)
        };
        let html_path = String::from_str(html_path);

        HTTPResponse { html_path: Some(html_path), status }
    }

    /// The response sent when the request could not be handled.
    pub fn from_error() -> (r: Self)
        ensures
            r.html_path is None,
            r.status == HTTPResponseStatus::NotFound,
    {
        HTTPResponse { html_path: None, status: HTTPResponseStatus::NotFound }
    }

    /// The file whose contents become the body. A response built for a
    /// request always carries one; asking an error response for its
    /// file is a caller mistake.
    pub fn file_path(&self) -> (p: String)
        requires
            self.html_path is Some,
        ensures
            p@ == self.html_path.unwrap()@,
    {
        match &self.html_path {
            Some(p) => p.clone(),
            None => {
                proof {
                    assert(false);
                }
                String::new()
            },
        }
    }

    /// Get the response as one string: status line, the body's byte
    /// length, a blank line, the body.
    pub fn text(self, contents: &str) -> (r: String)
        requires
            contents.spec_bytes().len() <= usize::MAX,
        ensures
            r@ == spec_status_text(self.status) + "\r\nContent-Length: "@
                + dec_str(contents.spec_bytes().len()) + "\r\n\r\n"@ + contents@,
    {
        let mut r = self.status.text();
        r.append("\r\nContent-Length: ");
        let len_str = dec_u64(contents.len() as u64);
        r.append(len_str.as_str());
        r.append("\r\n\r\n");
        r.append(contents);
        proof {
            assert(r@ =~= spec_status_text(self.status) + "\r\nContent-Length: "@
                + dec_str(contents.spec_bytes().len()) + "\r\n\r\n"@ + contents@);
        }
        r
    }
}

} // verus!
