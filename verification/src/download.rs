//! What is asked of the network, and how its answers are read.
//!
//! The requests themselves are sent by the caller. Here it is decided
//! which address is asked with which credential, and what a status code
//! means.

use crate::catalog::{Rule, SkillEntry};
use crate::split::is_one_of;
use crate::text::chars_of;
use vstd::prelude::*;
use vstd::string::StringExecFns;

verus! {

/// Why a payload or the catalog could not be had.
#[derive(Clone, Copy, Debug, PartialEq, Eq, Structural)]
pub enum FetchError {
    /// The rule is premium and no credential was given.
    CredentialRequired,
    /// The server refused the credential (status 401 or 403).
    Denied,
    /// The server answered with another status outside 200 to 299.
    Failed(u16),
}

/// What stands between the user and a rule that is asked for by name.
#[derive(Clone, Copy, Debug, PartialEq, Eq, Structural)]
pub enum Admission {
    /// The rule is free: it is fetched at once.
    Open,
    /// The rule is premium and a credential is at hand: the credential is
    /// checked first, and the rule is fetched only if it is valid.
    Validate,
    /// The rule is premium and there is no credential: nothing is fetched.
    LoginRequired,
}

/// What is to happen before a rule is fetched for the user.
pub fn admission(premium: bool, has_credential: bool) -> (a: Admission)
    ensures
        a == (if !premium {
            Admission::Open
        } else if has_credential {
            Admission::Validate
        } else {
            Admission::LoginRequired
        }),
{
    if !premium {
        Admission::Open
    } else if has_credential {
        Admission::Validate
    } else {
        Admission::LoginRequired
    }
}

/// A request for the payload of one rule.
#[derive(Debug)]
pub struct Request {
    /// The address to get.
    pub url: String,
    /// The value of the authorization header, where one is sent.
    pub authorization: Option<String>,
}

/// A request as plain values.
pub ghost struct RequestView {
    pub url: Seq<char>,
    pub authorization: Option<Seq<char>>,
}

impl Request {
    /// The request as plain values.
    pub open spec fn view(&self) -> RequestView {
        RequestView {
            url: self.url@,
            authorization: match self.authorization {
                Some(a) => Some(a@),
                None => None,
            },
        }
    }
}

/// The decimal digit for a number below ten.
pub open spec fn digit(d: nat) -> char {
    if d == 0 {
        '0'
    } else if d == 1 {
        '1'
    } else if d == 2 {
        '2'
    } else if d == 3 {
        '3'
    } else if d == 4 {
        '4'
    } else if d == 5 {
        '5'
    } else if d == 6 {
        '6'
    } else if d == 7 {
        '7'
    } else if d == 8 {
        '8'
    } else {
        '9'
    }
}

/// The decimal writing of a number, without leading zeros.
pub open spec fn decimal(n: nat) -> Seq<char>
    decreases n,
{
    if n < 10 {
        seq![digit(n)]
    } else {
        decimal(n / 10).push(digit(n % 10))
    }
}

/// The address of the catalog.
pub open spec fn registry_address() -> Seq<char> {
    "https://raw.githubusercontent.com/cleitonaugusto/rustskill-registry/main/registry.json"@
}

/// The address under which premium payloads and credentials are served.
pub open spec fn api_address() -> Seq<char> {
    "https://api.rustskill.com/v1"@
}

/// The address of the catalog with a time stamp that keeps caches from answering.
pub open spec fn stamped_registry(stamp: nat) -> Seq<char> {
    registry_address() + "?t="@ + decimal(stamp)
}

/// The authorization header for a credential.
pub open spec fn bearer(credential: Seq<char>) -> Seq<char> {
    "Bearer "@ + credential
}

/// An address with a time stamp that keeps caches from answering: the
/// stamp is one more query parameter where the address has a query
/// already, and the query otherwise.
pub open spec fn stamped_address(url: Seq<char>, stamp: nat) -> Seq<char> {
    url + (if url.contains('?') {
        "&"@
    } else {
        "?"@
    }) + "t="@ + decimal(stamp)
}

/// The address at which the private service serves the payload of a rule.
pub open spec fn premium_address(id: Seq<char>) -> Seq<char> {
    api_address() + "/skills/content/"@ + id
}

/// The request for the payload of a rule. A premium rule is asked of the
/// private service, with the credential; without a credential, or with an
/// empty one, nothing is asked. Any other rule is asked of its own
/// address. Either address is stamped.
pub open spec fn request_for(rule: Rule, credential: Option<Seq<char>>, stamp: nat) -> Result<
    RequestView,
    FetchError,
> {
    if rule.premium {
        match credential {
            Some(c) => if c.len() > 0 {
                Ok(
                    RequestView {
                        url: stamped_address(premium_address(rule.id), stamp),
                        authorization: Some(bearer(c)),
                    },
                )
            } else {
                Err(FetchError::CredentialRequired)
            },
            None => Err(FetchError::CredentialRequired),
        }
    } else {
        Ok(RequestView { url: stamped_address(rule.url, stamp), authorization: None })
    }
}

/// What a status code means for a payload.
pub open spec fn status_meaning(status: u16) -> Result<(), FetchError> {
    if 200 <= status <= 299 {
        Ok(())
    } else if status == 401 || status == 403 {
        Err(FetchError::Denied)
    } else {
        Err(FetchError::Failed(status))
    }
}

/// The decimal digit for a number below ten.
fn digit_char(d: u64) -> (c: char)
    requires
        d < 10,
    ensures
        c == digit(d as nat),
{
    if d == 0 {
        '0'
    } else if d == 1 {
        '1'
    } else if d == 2 {
        '2'
    } else if d == 3 {
        '3'
    } else if d == 4 {
        '4'
    } else if d == 5 {
        '5'
    } else if d == 6 {
        '6'
    } else if d == 7 {
        '7'
    } else if d == 8 {
        '8'
    } else {
        '9'
    }
}

/// The part of a decimal writing that stands for the higher digits.
spec fn higher(m: nat) -> Seq<char> {
    if m > 0 {
        decimal(m)
    } else {
        Seq::empty()
    }
}

/// The decimal writing of `n`.
pub fn decimal_of(n: u64) -> (s: String)
    ensures
        s@ == decimal(n as nat),
{
    let mut out: Vec<char> = Vec::new();
    out.push(digit_char(n % 10));
    let mut m: u64 = n / 10;
    assert(decimal(n as nat) =~= higher(m as nat) + out@);
    while m > 0
        invariant
            decimal(n as nat) == higher(m as nat) + out@,
        decreases m,
    {
        let ghost before = out@;
        out.insert(0, digit_char(m % 10));
        assert(higher(m as nat) + before =~= higher((m / 10) as nat) + out@);
        m = m / 10;
    }
    assert(higher(0) + out@ =~= out@);
    crate::text::string_of(out.as_slice())
}

/// Whether a status code reports success: 200 to 299.
pub fn is_success(status: u16) -> (r: bool)
    ensures
        r == (200 <= status <= 299),
{
    200 <= status && status <= 299
}

/// What a status code means for a payload.
pub fn check_status(status: u16) -> (r: Result<(), FetchError>)
    ensures
        r == status_meaning(status),
{
    if is_success(status) {
        Ok(())
    } else if status == 401 || status == 403 {
        Err(FetchError::Denied)
    } else {
        Err(FetchError::Failed(status))
    }
}

/// What a status code means for the catalog: anything but success is a failure.
pub fn check_registry_status(status: u16) -> (r: Result<(), FetchError>)
    ensures
        r == (if 200 <= status <= 299 {
            Ok::<(), FetchError>(())
        } else {
            Err(FetchError::Failed(status))
        }),
{
    if is_success(status) {
        Ok(())
    } else {
        Err(FetchError::Failed(status))
    }
}

/// The address of the catalog, stamped.
pub fn registry_url(stamp: u64) -> (url: String)
    ensures
        url@ == stamped_registry(stamp as nat),
{
    let mut url = String::from_str(
        "https://raw.githubusercontent.com/cleitonaugusto/rustskill-registry/main/registry.json",
    );
    url.append("?t=");
    let digits = decimal_of(stamp);
    url.append(digits.as_str());
    url
}

/// The address at which a credential is checked.
pub fn validation_url() -> (url: String)
    ensures
        url@ == api_address() + "/auth/validate"@,
{
    let mut url = String::from_str("https://api.rustskill.com/v1");
    url.append("/auth/validate");
    url
}

/// The authorization header for a credential.
pub fn bearer_header(credential: &str) -> (header: String)
    ensures
        header@ == bearer(credential@),
{
    let mut header = String::from_str("Bearer ");
    header.append(credential);
    header
}

/// Adds the time stamp to an address.
pub fn stamp_address(url: String, stamp: u64) -> (stamped: String)
    ensures
        stamped@ == stamped_address(url@, stamp as nat),
{
    let address = chars_of(url.as_str());
    let mut stamped = url;
    if is_one_of('?', address.as_slice()) {
        stamped.append("&");
    } else {
        stamped.append("?");
    }
    stamped.append("t=");
    let digits = decimal_of(stamp);
    stamped.append(digits.as_str());
    stamped
}

/// The request for the payload of a rule.
pub fn plan_request(entry: &SkillEntry, credential: Option<&str>, stamp: u64) -> (r: Result<
    Request,
    FetchError,
>)
    ensures
        match r {
            Ok(request) => request_for(
                entry@,
                match credential {
                    Some(c) => Some(c@),
                    None => None,
                },
                stamp as nat,
            ) == Ok::<RequestView, FetchError>(request@),
            Err(e) => request_for(
                entry@,
                match credential {
                    Some(c) => Some(c@),
                    None => None,
                },
                stamp as nat,
            ) == Err::<RequestView, FetchError>(e),
        },
{
    if entry.premium {
        match credential {
            Some(c) => {
                if c.is_empty() {
                    return Err(FetchError::CredentialRequired);
                }
                let mut url = String::from_str("https://api.rustskill.com/v1");
                url.append("/skills/content/");
                url.append(entry.id.as_str());
                Ok(
                    Request {
                        url: stamp_address(url, stamp),
                        authorization: Some(bearer_header(c)),
                    },
                )
            },
            None => Err(FetchError::CredentialRequired),
        }
    } else {
        Ok(Request { url: stamp_address(entry.url.clone(), stamp), authorization: None })
    }
}

} // verus!
