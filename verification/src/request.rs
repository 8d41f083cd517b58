//! Parsing an HTTP request out of the fixed-size buffer the transport
//! layer read from a connection. The buffer splits into lines on CRLF;
//! the first line carries method, path and version, and every later
//! line that looks like a known header field is kept, the last
//! occurrence winning.

use vstd::prelude::*;
use vstd::string::StringExecFns;
use crate::text::ascii_to_string;
use crate::text::ascii_view;
use crate::text::opt_view;
use crate::text::piece;
use crate::text::split_chars;
use crate::text::split_str;
use crate::text::str_eq;

verus! {

/// The request method, as far as this server cares: GET or not GET.
#[derive(Clone, Copy, Debug, PartialEq, Eq, Structural)]
pub enum Protocol {
    Get,
    Invalid,
}

impl Protocol {
    /// Which variant a method token names.
    pub open spec fn spec_from(s: Seq<char>) -> Protocol {
        if s == "GET"@ {
            Protocol::Get
        } else {
            Protocol::Invalid
        }
    }

    pub fn from_str(protocol: &str) -> (r: Self)
        ensures
            r == Protocol::spec_from(protocol@),
    {
        if str_eq(protocol, "GET") {
            Protocol::Get
        } else {
            Protocol::Invalid
        }
    }
}

/// The protocol version: HTTP/1.1 or anything else.
#[derive(Clone, Copy, Debug, PartialEq, Eq, Structural)]
pub enum Version {
    Http1_1,
    Invalid,
}

impl Version {
    /// Which variant a version token names.
    pub open spec fn spec_from(s: Seq<char>) -> Version {
        if s == "HTTP/1.1"@ {
            Version::Http1_1
        } else {
            Version::Invalid
        }
    }

    pub fn from_str(version: &str) -> (r: Self)
        ensures
            r == Version::spec_from(version@),
    {
        if str_eq(version, "HTTP/1.1") {
            Version::Http1_1
        } else {
            Version::Invalid
        }
    }
}

/// The line separator of the wire format.
pub open spec fn crlf() -> Seq<char> {
    "\r\n"@
}

/// The token separator of the request line.
pub open spec fn space() -> Seq<char> {
    " "@
}

/// What separates a header name from its value.
pub open spec fn header_sep() -> Seq<char> {
    ": "@
}

/// The buffer's characters, split into lines on CRLF.
pub open spec fn request_lines(buffer: Seq<u8>) -> Seq<Seq<char>> {
    split_chars(ascii_view(buffer), crlf())
}

/// The value of the header named `name` among `lines`, where the value
/// is what stands between the first name-value separator and the
/// second, or the empty sequence where a line is all name. The last
/// occurrence wins, as it does when the parser overwrites on its way
/// down the buffer.
pub open spec fn header_value(lines: Seq<Seq<char>>, name: Seq<char>) -> Option<Seq<char>>
    decreases lines.len(),
{
    if lines.len() == 0 {
        None
    } else {
        let ps = split_chars(lines.last(), header_sep());
        if piece(ps, 0) == name {
            Some(piece(ps, 1))
        } else {
            header_value(lines.drop_last(), name)
        }
    }
}

/// An HTTP request, parsed: the request line's three tokens, and the
/// header fields this server knows about.
#[derive(Debug)]
pub struct Request {
    pub protocol: Protocol,
    pub path: Option<String>,
    pub version: Version,
    pub host: Option<String>,
    pub user_agent: Option<String>,
    pub accept: Option<String>,
    pub accept_language: Option<String>,
    pub accept_encoding: Option<String>,
    pub dnt: Option<String>,
    pub connection: Option<String>,
    pub upgrade_insecure_requests: Option<String>,
    pub sec_fetch_dest: Option<String>,
    pub sec_fetch_mode: Option<String>,
    pub sec_fetch_site: Option<String>,
    pub sec_fetch_user: Option<String>,
}

impl Request {
    /// Parse a request out of the buffer the transport read. The
    /// buffer must be ASCII; the transport rejects a connection whose
    /// bytes are not.
    pub fn from_buffer(buffer: [u8; 1024]) -> (r: Request)
        requires
            forall|i: int| 0 <= i < buffer@.len() ==> buffer@[i] < 128,
        ensures
            ({
                let lines = request_lines(buffer@);
                let first = split_chars(piece(lines, 0), space());
                let headers = lines.drop_first();
                &&& r.protocol == Protocol::spec_from(piece(first, 0))
                &&& opt_view(r.path) == Some(piece(first, 1))
                &&& r.version == Version::spec_from(piece(first, 2))
                &&& opt_view(r.host) == header_value(headers, "Host"@)
                &&& opt_view(r.user_agent) == header_value(headers, "User-Agent"@)
                &&& opt_view(r.accept) == header_value(headers, "Accept"@)
                &&& opt_view(r.accept_language) == header_value(headers, "Accept-Language"@)
                &&& opt_view(r.accept_encoding) == header_value(headers, "Accept-Encoding"@)
                &&& opt_view(r.dnt) == header_value(headers, "DNT"@)
                &&& opt_view(r.connection) == header_value(headers, "Connection"@)
                &&& opt_view(r.upgrade_insecure_requests)
                    == header_value(headers, "Upgrade-Insecure-Requests"@)
                &&& opt_view(r.sec_fetch_dest) == header_value(headers, "Sec-Fetch-Dest"@)
                &&& opt_view(r.sec_fetch_mode) == header_value(headers, "Sec-Fetch-Mode"@)
                &&& opt_view(r.sec_fetch_site) == header_value(headers, "Sec-Fetch-Site"@)
                &&& opt_view(r.sec_fetch_user) == header_value(headers, "Sec-Fetch-User"@)
            }),
    {
        let s = ascii_to_string(buffer.as_slice());
        proof {
            reveal_strlit("\r\n");
            reveal_strlit(" ");
            reveal_strlit(": ");
            reveal_strlit("");
        }
        let lines = split_str(s.as_str(), "\r\n");
        proof {
            assert(lines.deep_view().len() == lines@.len());
            assert(lines.deep_view()[0] == lines@[0]@);
            assert(piece(request_lines(buffer@), 0) == lines@[0]@);
        }
        let first = split_str(lines[0].as_str(), " ");
        let ghost first_spec = split_chars(piece(request_lines(buffer@), 0), space());
        proof {
            assert(first.deep_view() == first_spec);
            assert(first.deep_view().len() == first@.len());
        }
        let protocol = Protocol::from_str(first[0].as_str());
        proof {
            assert(first@[0]@ == piece(first_spec, 0));
        }
        let path = if first.len() > 1 {
            proof {
                assert(first@[1]@ == piece(first_spec, 1));
            }
            Some(first[1].clone())
        } else {
            proof {
                assert(piece(first_spec, 1) =~= ""@);
            }
            Some(String::from_str(""))
        };
        let version = if first.len() > 2 {
            proof {
                assert(first@[2]@ == piece(first_spec, 2));
            }
            Version::from_str(first[2].as_str())
        } else {
            proof {
                assert(piece(first_spec, 2) =~= ""@);
            }
            Version::from_str("")
        };

        let mut host: Option<String> = None;
        let mut user_agent: Option<String> = None;
        let mut accept: Option<String> = None;
        let mut accept_language: Option<String> = None;
        let mut accept_encoding: Option<String> = None;
        let mut dnt: Option<String> = None;
        let mut connection: Option<String> = None;
        let mut upgrade_insecure_requests: Option<String> = None;
        let mut sec_fetch_dest: Option<String> = None;
        let mut sec_fetch_mode: Option<String> = None;
        let mut sec_fetch_site: Option<String> = None;
        let mut sec_fetch_user: Option<String> = None;

        let ghost all = lines.deep_view();
        let n = lines.len();
        let mut j: usize = 1;
        proof {
            assert(all.subrange(1, 1) =~= Seq::<Seq<char>>::empty());
        }
        while j < n
            invariant
                n == lines@.len(),
                1 <= j <= n,
                all == lines.deep_view(),
                forall|k: int| 0 <= k < lines@.len()
                    ==> vstd::utf8::is_ascii_chars(#[trigger] lines@[k]@),
                opt_view(host) == header_value(all.subrange(1, j as int), "Host"@),
                opt_view(user_agent) == header_value(all.subrange(1, j as int), "User-Agent"@),
                opt_view(accept) == header_value(all.subrange(1, j as int), "Accept"@),
                opt_view(accept_language)
                    == header_value(all.subrange(1, j as int), "Accept-Language"@),
                opt_view(accept_encoding)
                    == header_value(all.subrange(1, j as int), "Accept-Encoding"@),
                opt_view(dnt) == header_value(all.subrange(1, j as int), "DNT"@),
                opt_view(connection) == header_value(all.subrange(1, j as int), "Connection"@),
                opt_view(upgrade_insecure_requests)
                    == header_value(all.subrange(1, j as int), "Upgrade-Insecure-Requests"@),
                opt_view(sec_fetch_dest)
                    == header_value(all.subrange(1, j as int), "Sec-Fetch-Dest"@),
                opt_view(sec_fetch_mode)
                    == header_value(all.subrange(1, j as int), "Sec-Fetch-Mode"@),
                opt_view(sec_fetch_site)
                    == header_value(all.subrange(1, j as int), "Sec-Fetch-Site"@),
                opt_view(sec_fetch_user)
                    == header_value(all.subrange(1, j as int), "Sec-Fetch-User"@),
            decreases n - j,
        {
            proof {
                reveal_strlit(": ");
            }
            let ps = split_str(lines[j].as_str(), ": ");
            let ghost ps_spec = split_chars(all[j as int], header_sep());
            proof {
                assert(ps.deep_view() == ps_spec);
                assert(ps.deep_view().len() == ps@.len());
                assert(ps@[0]@ == piece(ps_spec, 0));
            }
            let value = if ps.len() > 1 {
                proof {
                    assert(ps@[1]@ == piece(ps_spec, 1));
                }
                ps[1].clone()
            } else {
                proof {
                    assert(piece(ps_spec, 1) =~= Seq::<char>::empty());
                }
                String::new()
            };
            let name = &ps[0];
            let is_host = str_eq(name.as_str(), "Host");
            if is_host {
                host = Some(value.clone());
            }
            let is_user_agent = str_eq(name.as_str(), "User-Agent");
            if is_user_agent {
                user_agent = Some(value.clone());
            }
            let is_accept = str_eq(name.as_str(), "Accept");
            if is_accept {
                accept = Some(value.clone());
            }
            let is_accept_language = str_eq(name.as_str(), "Accept-Language");
            if is_accept_language {
                accept_language = Some(value.clone());
            }
            let is_accept_encoding = str_eq(name.as_str(), "Accept-Encoding");
            if is_accept_encoding {
                accept_encoding = Some(value.clone());
            }
            let is_dnt = str_eq(name.as_str(), "DNT");
            if is_dnt {
                dnt = Some(value.clone());
            }
            let is_connection = str_eq(name.as_str(), "Connection");
            if is_connection {
                connection = Some(value.clone());
            }
            let is_uir = str_eq(name.as_str(), "Upgrade-Insecure-Requests");
            if is_uir {
                upgrade_insecure_requests = Some(value.clone());
            }
            let is_sfd = str_eq(name.as_str(), "Sec-Fetch-Dest");
            if is_sfd {
                sec_fetch_dest = Some(value.clone());
            }
            let is_sfm = str_eq(name.as_str(), "Sec-Fetch-Mode");
            if is_sfm {
                sec_fetch_mode = Some(value.clone());
            }
            let is_sfs = str_eq(name.as_str(), "Sec-Fetch-Site");
            if is_sfs {
                sec_fetch_site = Some(value.clone());
            }
            let is_sfu = str_eq(name.as_str(), "Sec-Fetch-User");
            if is_sfu {
                sec_fetch_user = Some(value.clone());
            }
            proof {
                let prev = all.subrange(1, j as int);
                let next = all.subrange(1, j as int + 1);
                assert(next.drop_last() =~= prev);
                assert(next.last() == all[j as int]);
            }
            j = j + 1;
        }
        proof {
            assert(all.subrange(1, n as int) =~= all.drop_first());
        }
        Request {
            protocol,
            path,
            version,
            host,
            user_agent,
            accept,
            accept_language,
            accept_encoding,
            dnt,
            connection,
            upgrade_insecure_requests,
            sec_fetch_dest,
            sec_fetch_mode,
            sec_fetch_site,
            sec_fetch_user,
        }
    }
}

} // verus!
