//! The decisions around a FlareSolverr request: which endpoint to use, what
//! to ask for, and what its reply means. BGG browse pages sit behind
//! Cloudflare's challenge; FlareSolverr (default port 8191) fetches them.
//! Sending the request and decoding the JSON reply are the caller's part.
use vstd::prelude::*;
use crate::text::{append_chars, append_str, chars_eq, chars_of, decimal, decimal_chars, string_of};

verus! {

/// The endpoint used when none is configured.
pub open spec fn default_endpoint() -> Seq<char> {
    "http://localhost:8191/v1"@
}

/// The configured endpoint (`FLARESOLVERR_ENDPOINT`) if there is one, else
/// the default.
pub fn endpoint_or_default(configured: Option<String>) -> (r: String)
    ensures
        r@ == match configured {
            Some(e) => e@,
            None => default_endpoint(),
        },
{
    match configured {
        Some(e) => e,
        None => string_of(chars_of("http://localhost:8191/v1").as_slice()),
    }
}

/// A FlareSolverr command.
pub struct SolverRequest {
    pub cmd: String,
    pub url: String,
    pub max_timeout: u32,
}

impl SolverRequest {
    /// The command that fetches `url`, waiting up to a minute.
    pub fn get(url: &str) -> (r: SolverRequest)
        ensures
            r.cmd@ == "request.get"@,
            r.url@ == url@,
            r.max_timeout == 60000,
    {
        SolverRequest {
            cmd: string_of(chars_of("request.get").as_slice()),
            url: string_of(chars_of(url).as_slice()),
            max_timeout: 60000,
        }
    }
}

/// The page FlareSolverr fetched, with the upstream HTTP status.
pub struct Solution {
    pub response: String,
    pub status: u16,
}

/// FlareSolverr's reply.
pub struct SolverReply {
    pub status: String,
    pub message: Option<String>,
    pub solution: Option<Solution>,
}

/// Why a FlareSolverr request gave no page.
pub enum SolverError {
    /// FlareSolverr's status was not `ok`; its message, or `unknown`.
    Refused { message: String },
    /// The reply carried no solution.
    NoSolution,
    /// The upstream server answered with an HTTP error status.
    Upstream { status: u16, url: String },
}

/// What a reply means: the page when FlareSolverr says `ok` and the
/// upstream status is below 400.
pub open spec fn reply_outcome(reply: SolverReply, url: Seq<char>) -> Result<Seq<char>, SolverErrorView> {
    if reply.status@ != "ok"@ {
        Err(SolverErrorView::Refused(match reply.message {
            Some(m) => m@,
            None => "unknown"@,
        }))
    } else {
        match reply.solution {
            None => Err(SolverErrorView::NoSolution),
            Some(sol) => if sol.status >= 400 {
                Err(SolverErrorView::Upstream(sol.status, url))
            } else {
                Ok(sol.response@)
            },
        }
    }
}

/// The view of a `SolverError`.
pub enum SolverErrorView {
    Refused(Seq<char>),
    NoSolution,
    Upstream(u16, Seq<char>),
}

impl View for SolverError {
    type V = SolverErrorView;

    open spec fn view(&self) -> SolverErrorView {
        match self {
            SolverError::Refused { message } => SolverErrorView::Refused(message@),
            SolverError::NoSolution => SolverErrorView::NoSolution,
            SolverError::Upstream { status, url } => SolverErrorView::Upstream(*status, url@),
        }
    }
}

impl SolverError {
    /// The error as a message.
    pub fn message(&self) -> (r: String)
        ensures
            r@ == match self.view() {
                SolverErrorView::Refused(m) => "flaresolverr: "@ + m,
                SolverErrorView::NoSolution => "flaresolverr returned no solution"@,
                SolverErrorView::Upstream(s, u) => "upstream HTTP "@ + decimal(s as nat) + " for "@ + u,
            },
    {
        match self {
            SolverError::Refused { message } => {
                let mut r = chars_of("flaresolverr: ");
                append_str(&mut r, message.as_str());
                string_of(r.as_slice())
            },
            SolverError::NoSolution => string_of(chars_of("flaresolverr returned no solution").as_slice()),
            SolverError::Upstream { status, url } => {
                let mut r = chars_of("upstream HTTP ");
                append_chars(&mut r, decimal_chars(*status as u64).as_slice());
                append_str(&mut r, " for ");
                append_str(&mut r, url.as_str());
                string_of(r.as_slice())
            },
        }
    }
}

/// The page that a FlareSolverr reply carries for `url`, or why there is
/// none.
pub fn page_from_reply(reply: SolverReply, url: &str) -> (r: Result<String, SolverError>)
    ensures
        match r {
            Ok(page) => reply_outcome(reply, url@) == Ok::<Seq<char>, SolverErrorView>(page@),
            Err(e) => reply_outcome(reply, url@) == Err::<Seq<char>, SolverErrorView>(e.view()),
        },
{
    let status = chars_of(reply.status.as_str());
    let ok = chars_of("ok");
    if !chars_eq(status.as_slice(), ok.as_slice()) {
        let message = match reply.message {
            Some(m) => m,
            None => string_of(chars_of("unknown").as_slice()),
        };
        return Err(SolverError::Refused { message });
    }
    match reply.solution {
        None => Err(SolverError::NoSolution),
        Some(sol) => if sol.status >= 400 {
            Err(SolverError::Upstream { status: sol.status, url: string_of(chars_of(url).as_slice()) })
        } else {
            Ok(sol.response)
        },
    }
}

} // verus!
