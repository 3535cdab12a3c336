//! Server configuration and the rules a hosted deployment must meet.
use vstd::prelude::*;

use crate::text::{has_char, trimmed};

verus! {

/// How a hosted deployment grants planning capabilities.
#[derive(Debug, Clone, Copy, PartialEq, Eq, Structural)]
pub enum HostedAccessMode {
    /// Everyone has full access.
    Beta,
    /// Full access comes with a subscription.
    Subscription,
}

pub struct ServerConfig {
    /// Strict hosted origin and cookie protections.
    pub hosted: bool,
    pub access_mode: HostedAccessMode,
    /// Local development mail sink directory; never available in hosted mode.
    pub local_mail_sink: Option<String>,
    /// Address the HTTP listener binds to.
    pub bind: String,
    pub database_url: String,
    pub db_pool_size: u32,
    /// How many simulation runs may execute concurrently.
    pub sim_workers: usize,
    /// Upper bound on iterations a single run may request.
    pub max_iterations: usize,
    /// Set the `Secure` attribute on session cookies.
    pub secure_cookies: bool,
    /// Origins permitted by CORS.
    pub cors_origins: Vec<String>,
}

/// The parts of a URI an origin check reads.
pub struct UriParts {
    pub scheme: Option<String>,
    pub authority: Option<String>,
    pub path: String,
    pub query: Option<String>,
}

/// What `http::Uri`'s parser makes of a text: `None` when it refuses it,
/// else its scheme, authority, path and query.
pub uninterp spec fn uri_parts(text: Seq<char>) -> Option<
    (Option<Seq<char>>, Option<Seq<char>>, Seq<char>, Option<Seq<char>>),
>;

pub open spec fn opt_view(o: Option<String>) -> Option<Seq<char>> {
    match o {
        Some(s) => Some(s@),
        None => None,
    }
}

/// Parses a URI with `http::Uri`'s `FromStr` and reads back its scheme
/// (`scheme_str`), authority (`authority().as_str()`), path and query.
/// Claims only that the result is the one `uri_parts` names for the text.
#[verifier::external_body]
fn parse_uri(text: &str) -> (r: Option<UriParts>)
    ensures
        match (r, uri_parts(text@)) {
            (Some(p), Some((scheme, authority, path, query))) => opt_view(p.scheme) == scheme
                && opt_view(p.authority) == authority && p.path@ == path && opt_view(p.query)
                == query,
            (None, None) => true,
            _ => false,
        },
{
    let uri = text.parse::<axum::http::Uri>().ok()?;
    Some(UriParts {
        scheme: uri.scheme_str().map(str::to_string),
        authority: uri.authority().map(axum::http::uri::Authority::as_str).map(str::to_string),
        path: uri.path().to_string(),
        query: uri.query().map(str::to_string),
    })
}

/// An origin a hosted deployment refuses: anything but a bare
/// `https://host[:port]` with nothing after it.
pub open spec fn bad_origin(o: Seq<char>) -> bool {
    match uri_parts(o) {
        None => true,
        Some((scheme, authority, path, query)) => {
            ||| scheme != Some("https"@)
            ||| authority is None
            ||| authority->0.contains('@')
            ||| authority->0.contains('*')
            ||| path != "/"@
            ||| query is Some
            ||| (o.len() > 0 && o.last() == '/')
            ||| trimmed(o) != o
        },
    }
}

pub open spec fn hosted_message() -> Seq<char> {
    "hosted mode requires secure cookies, explicit HTTPS origins, and no local mail sink"@
}

pub open spec fn workers_message() -> Seq<char> {
    "simulation workers must be positive"@
}

fn origin_refused(o: &str) -> (r: bool)
    ensures
        r == bad_origin(o@),
{
    let parts = match parse_uri(o) {
        Some(p) => p,
        None => return true,
    };
    let https = match &parts.scheme {
        Some(s) => crate::text::same_text(s.as_str(), "https"),
        None => false,
    };
    if !https {
        return true;
    }
    let authority_bad = match &parts.authority {
        Some(a) => has_char(a.as_str(), '@') || has_char(a.as_str(), '*'),
        None => true,
    };
    if authority_bad {
        return true;
    }
    if !crate::text::same_text(parts.path.as_str(), "/") || parts.query.is_some() {
        return true;
    }
    let n = o.unicode_len();
    if n > 0 && o.get_char(n - 1) == '/' {
        return true;
    }
    !crate::text::same_text(crate::text::trim(o), o)
}

impl ServerConfig {
    /// The rules the configuration must meet before the server starts.
    pub open spec fn hosted_refused(&self) -> bool {
        self.hosted && (!self.secure_cookies || self.local_mail_sink is Some
            || self.cors_origins@.len() == 0 || exists|i: int|
            0 <= i < self.cors_origins@.len() && bad_origin(#[trigger] self.cors_origins@[i]@))
    }

    pub fn validate(&self) -> (r: Result<(), String>)
        ensures
            match r {
                Ok(()) => !self.hosted_refused() && self.sim_workers > 0,
                Err(m) => if self.hosted_refused() {
                    m@ == hosted_message()
                } else {
                    self.sim_workers == 0 && m@ == workers_message()
                },
            },
    {
        if self.hosted {
            let mut refused = !self.secure_cookies || self.local_mail_sink.is_some()
                || self.cors_origins.len() == 0;
            let mut i: usize = 0;
            while i < self.cors_origins.len() && !refused
                invariant
                    i <= self.cors_origins@.len(),
                    refused ==> self.hosted_refused(),
                    !refused ==> self.secure_cookies && self.local_mail_sink is None
                        && self.cors_origins@.len() > 0,
                    !refused ==> forall|j: int| 0 <= j < i ==> !bad_origin(#[trigger] self.cors_origins@[j]@),
                    self.hosted,
                decreases self.cors_origins@.len() - i,
            {
                if origin_refused(self.cors_origins[i].as_str()) {
                    refused = true;
                }
                i = i + 1;
            }
            if refused {
                return Err(crate::error::owned(
                    "hosted mode requires secure cookies, explicit HTTPS origins, and no local mail sink",
                ));
            }
        }
        if self.sim_workers == 0 {
            return Err(crate::error::owned("simulation workers must be positive"));
        }
        Ok(())
    }
}

} // verus!
