//! The update protocol: resolving the IP address to publish, submitting the
//! update to the provider, and classifying the provider's plain-text reply
//! into a typed outcome.

use vstd::prelude::*;
use vstd::string::StringExecFns;
use crate::ip::{IpAddress, spec_parse_ip, parse_ip_chars, spec_ip_text, ip_string, lemma_ip_text_no_space, lemma_ip_text_round_trip};
use crate::text::{
    chars_of,
    string_of,
    is_space,
    lemma_ws_tokens_pair,
    spec_trim,
    trim_chars,
    ws_tokens,
    tokens_of,
    spec_starts_with,
    starts_with_lit,
    eq_lit,
    views_of,
};
use crate::http::{http_get_text, http_post_update};

verus! {

/// A failure classified from the provider's reply, or found while resolving
/// the IP address to publish. Each variant carries the context needed to
/// render a precise message.
#[derive(Debug)]
pub enum DynamicDNSUpdateError {
    /// The provider does not know the domain name.
    FQDNNotFound(String),
    /// The provider rejects the domain name as malformed.
    InvalidFQDN(String),
    /// The provider rejects the credentials; carries the username.
    InvalidCredentials(String),
    /// An existing AAAA record blocks the requested A update.
    ConflictingIPv6Record(String),
    /// An existing A record blocks the requested AAAA update.
    ConflictingIPv4Record(String),
    /// The provider rejects the submitted IP address's structure.
    InvalidIPAddress(String),
    /// The discovery response is not a parseable IP address; carries the
    /// trimmed body.
    UnableToParseIPAddress(String),
    /// Any other provider reply; carries the domain name and the IP text.
    Unknown(String, String),
}

/// The ways an update attempt can fail: a failure classified from the
/// provider's reply, a transport-level failure of the HTTP exchange itself,
/// or a success reply whose echoed IP token is missing or malformed (also
/// transport-level: it is not reclassified).
#[derive(Debug)]
pub enum UpdateFailure {
    Classified(DynamicDNSUpdateError),
    Transport(String),
    UnparseableReply(String),
}

/// What the caller supplies for one update: credentials, an optional
/// explicit IP address, and an optional discovery URL override.
pub struct DynamicDNSUpdateConfig {
    pub username: String,
    pub password: String,
    pub ip: Option<IpAddress>,
    pub url: Option<String>,
}

/// One update intent: the record's fully qualified domain name and its
/// configuration.
pub struct DynamicDNSRecord {
    pub fqdn: String,
    pub config: DynamicDNSUpdateConfig,
}

/// Whether a provider reply reports success: it begins with `good` or
/// `nochg`.
pub open spec fn is_success_body(body: Seq<char>) -> bool {
    spec_starts_with(body, "good"@) || spec_starts_with(body, "nochg"@)
}

/// The IP address echoed in a success reply: the second whitespace-separated
/// token, where it is present and parses.
pub open spec fn success_ip(body: Seq<char>) -> Option<IpAddress> {
    if ws_tokens(body).len() >= 2 {
        spec_parse_ip(ws_tokens(body)[1])
    } else {
        None
    }
}

/// How a provider reply `body` is classified, for a record `fqdn` updated as
/// `user` to the address `ip`: the outcome `r` that the reply dictates.
pub open spec fn spec_classified(
    body: Seq<char>,
    fqdn: Seq<char>,
    user: Seq<char>,
    ip: IpAddress,
    r: Result<IpAddress, UpdateFailure>,
) -> bool {
    &&& (is_success_body(body) && success_ip(body) is Some ==> r == Ok::<
        IpAddress,
        UpdateFailure,
    >(success_ip(body)->0))
    &&& (is_success_body(body) && success_ip(body) is None ==> (r matches Err(
        UpdateFailure::UnparseableReply(s),
    ) && s@ == body))
    &&& (!is_success_body(body) ==> (if body == "nohost"@ {
        r matches Err(UpdateFailure::Classified(DynamicDNSUpdateError::FQDNNotFound(s)))
            && s@ == fqdn
    } else if body == "notfqdn"@ {
        r matches Err(UpdateFailure::Classified(DynamicDNSUpdateError::InvalidFQDN(s)))
            && s@ == fqdn
    } else if body == "badauth"@ {
        r matches Err(UpdateFailure::Classified(DynamicDNSUpdateError::InvalidCredentials(s)))
            && s@ == user
    } else if body == "conflict A"@ {
        r matches Err(UpdateFailure::Classified(DynamicDNSUpdateError::ConflictingIPv6Record(s)))
            && s@ == spec_ip_text(ip)
    } else if body == "conflict AAAA"@ {
        r matches Err(UpdateFailure::Classified(DynamicDNSUpdateError::ConflictingIPv4Record(s)))
            && s@ == spec_ip_text(ip)
    } else if body == "The Target field's structure for a A-type entry is incorrect."@ {
        r matches Err(UpdateFailure::Classified(DynamicDNSUpdateError::InvalidIPAddress(s)))
            && s@ == spec_ip_text(ip)
    } else {
        r matches Err(UpdateFailure::Classified(DynamicDNSUpdateError::Unknown(f, i)))
            && f@ == fqdn && i@ == spec_ip_text(ip)
    }))
}

/// A provider reply that begins with `good` or `nochg` and whose second
/// whitespace-separated token is a valid IP address text is classified as a
/// success returning exactly that address, whatever record, user and
/// submitted address the update carried.
pub proof fn lemma_success_reply(
    body: Seq<char>,
    fqdn: Seq<char>,
    user: Seq<char>,
    ip: IpAddress,
    e: IpAddress,
    r: Result<IpAddress, UpdateFailure>,
)
    requires
        is_success_body(body),
        ws_tokens(body).len() >= 2,
        spec_parse_ip(ws_tokens(body)[1]) == Some(e),
        spec_classified(body, fqdn, user, ip, r),
    ensures
        r == Ok::<IpAddress, UpdateFailure>(e),
{
}

/// A reply of `good ` followed by any whitespace-free valid IP address text
/// is classified as a success returning exactly the address that text
/// denotes, whatever record, user and submitted address the update carried.
pub proof fn lemma_good_body_echoes(
    fqdn: Seq<char>,
    user: Seq<char>,
    ip: IpAddress,
    e: IpAddress,
    t: Seq<char>,
    r: Result<IpAddress, UpdateFailure>,
)
    requires
        t.len() > 0,
        forall|i: int| 0 <= i < t.len() ==> !is_space(t[i]),
        spec_parse_ip(t) == Some(e),
        spec_classified("good "@ + t, fqdn, user, ip, r),
    ensures
        r == Ok::<IpAddress, UpdateFailure>(e),
{
    reveal_strlit("good ");
    reveal_strlit("good");
    let body = "good "@ + t;
    assert("good "@ =~= "good"@ + seq![' ']);
    assert(body =~= "good"@ + seq![' '] + t);
    assert(forall|i: int| 0 <= i < "good"@.len() ==> !is_space("good"@[i]));
    lemma_ws_tokens_pair("good"@, t);
    assert(ws_tokens(body) == seq!["good"@, t]);
    assert(ws_tokens(body)[1] == t);
    assert(success_ip(body) == Some(e));
    assert(body.take(4) =~= "good"@);
    assert(spec_starts_with(body, "good"@));
    assert(is_success_body(body));
}

/// The reply of a provider that is already up to date: `nochg ` followed by
/// the unchanged address in its canonical text.
pub open spec fn nochg_body(ip: IpAddress) -> Seq<char> {
    "nochg "@ + spec_ip_text(ip)
}

/// An update that submits an unchanged address to an up-to-date provider is
/// idempotent: the `nochg` reply echoing that address is classified as
/// success returning exactly the same address, so two such attempts yield
/// the same outcome.
pub proof fn lemma_nochg_idempotent(
    fqdn: Seq<char>,
    user: Seq<char>,
    ip: IpAddress,
    r1: Result<IpAddress, UpdateFailure>,
    r2: Result<IpAddress, UpdateFailure>,
)
    requires
        spec_classified(nochg_body(ip), fqdn, user, ip, r1),
        spec_classified(nochg_body(ip), fqdn, user, ip, r2),
    ensures
        r1 == Ok::<IpAddress, UpdateFailure>(ip),
        r1 == r2,
{
    reveal_strlit("nochg ");
    reveal_strlit("nochg");
    let body = nochg_body(ip);
    let t = spec_ip_text(ip);
    lemma_ip_text_no_space(ip);
    lemma_ip_text_round_trip(ip);
    assert("nochg "@ =~= "nochg"@ + seq![' ']);
    assert(body =~= "nochg"@ + seq![' '] + t);
    assert(forall|i: int| 0 <= i < "nochg"@.len() ==> !is_space("nochg"@[i]));
    lemma_ws_tokens_pair("nochg"@, t);
    assert(ws_tokens(body) == seq!["nochg"@, t]);
    assert(ws_tokens(body)[1] == t);
    assert(success_ip(body) == Some(ip));
    assert(body.take(5) =~= "nochg"@);
    assert(spec_starts_with(body, "nochg"@));
    assert(is_success_body(body));
}

/// Classify a provider reply into the outcome it dictates.
///
/// A reply beginning with `good` or `nochg` is a success; the published
/// address is the one echoed as the reply's second whitespace-separated
/// token. The literal error replies map each to its own failure; any other
/// reply is `Unknown`.
pub fn classify_response(body: &str, fqdn: &str, username: &str, ip: IpAddress) -> (r: Result<
    IpAddress,
    UpdateFailure,
>)
    ensures
        spec_classified(body@, fqdn@, username@, ip, r),
{
    let b = chars_of(body);
    let bs = b.as_slice();
    if starts_with_lit(bs, "good") || starts_with_lit(bs, "nochg") {
        let toks = tokens_of(bs);
        if toks.len() >= 2 {
            proof {
                assert(views_of(toks@)[1] == toks@[1]@);
            }
            match parse_ip_chars(toks[1].as_slice()) {
                Some(e) => Ok(e),
                None => Err(UpdateFailure::UnparseableReply(String::from_str(body))),
            }
        } else {
            Err(UpdateFailure::UnparseableReply(String::from_str(body)))
        }
    } else if eq_lit(bs, "nohost") {
        Err(UpdateFailure::Classified(DynamicDNSUpdateError::FQDNNotFound(String::from_str(fqdn))))
    } else if eq_lit(bs, "notfqdn") {
        Err(UpdateFailure::Classified(DynamicDNSUpdateError::InvalidFQDN(String::from_str(fqdn))))
    } else if eq_lit(bs, "badauth") {
        Err(
            UpdateFailure::Classified(
                DynamicDNSUpdateError::InvalidCredentials(String::from_str(username)),
            ),
        )
    } else if eq_lit(bs, "conflict A") {
        Err(
            UpdateFailure::Classified(
                DynamicDNSUpdateError::ConflictingIPv6Record(ip_string(&ip)),
            ),
        )
    } else if eq_lit(bs, "conflict AAAA") {
        Err(
            UpdateFailure::Classified(
                DynamicDNSUpdateError::ConflictingIPv4Record(ip_string(&ip)),
            ),
        )
    } else if eq_lit(bs, "The Target field's structure for a A-type entry is incorrect.") {
        Err(UpdateFailure::Classified(DynamicDNSUpdateError::InvalidIPAddress(ip_string(&ip))))
    } else {
        Err(
            UpdateFailure::Classified(
                DynamicDNSUpdateError::Unknown(String::from_str(fqdn), ip_string(&ip)),
            ),
        )
    }
}

/// Read a discovery response: the body, trimmed of surrounding whitespace,
/// must be a valid IP address text.
pub fn resolve_discovery_body(body: &str) -> (r: Result<IpAddress, DynamicDNSUpdateError>)
    ensures
        spec_parse_ip(spec_trim(body@)) matches Some(e) ==> r == Ok::<
            IpAddress,
            DynamicDNSUpdateError,
        >(e),
        spec_parse_ip(spec_trim(body@)) is None ==> (r matches Err(
            DynamicDNSUpdateError::UnableToParseIPAddress(s),
        ) && s@ == spec_trim(body@)),
{
    let b = chars_of(body);
    let t = trim_chars(b.as_slice());
    match parse_ip_chars(t.as_slice()) {
        Some(e) => Ok(e),
        None => Err(DynamicDNSUpdateError::UnableToParseIPAddress(string_of(&t))),
    }
}

/// What holds of a resolver outcome `r` built from a discovery body: the
/// body's trimmed text parsed as the returned address, or failed to parse
/// and is carried in the error.
pub open spec fn discovered(body: Seq<char>, r: Result<IpAddress, UpdateFailure>) -> bool {
    match spec_parse_ip(spec_trim(body)) {
        Some(e) => r == Ok::<IpAddress, UpdateFailure>(e),
        None => r matches Err(
            UpdateFailure::Classified(DynamicDNSUpdateError::UnableToParseIPAddress(s)),
        ) && s@ == spec_trim(body),
    }
}

impl DynamicDNSUpdateConfig {
    /// The IP address to publish: the explicit address where one was given
    /// (no discovery call is made), otherwise the address read from the
    /// discovery service's response.
    pub fn resolve(&self) -> (r: Result<IpAddress, UpdateFailure>)
        ensures
            self.ip matches Some(e) ==> r == Ok::<IpAddress, UpdateFailure>(e),
            self.ip is None ==> (r matches Err(UpdateFailure::Transport(_)) || exists|
                body: Seq<char>,
            | #[trigger] discovered(body, r)),
    {
        match &self.ip {
            Some(e) => Ok(*e),
            None => {
                let url: &str = match &self.url {
                    Some(u) => u.as_str(),
                    None => "https://api.ipify.org/?format=text",
                };
                match http_get_text(url) {
                    Err(t) => Err(UpdateFailure::Transport(t)),
                    Ok(body) => match resolve_discovery_body(body.as_str()) {
                        Ok(e) => {
                            let r = Ok(e);
                            proof {
                                assert(discovered(body@, r));
                            }
                            r
                        },
                        Err(de) => {
                            let r = Err(UpdateFailure::Classified(de));
                            proof {
                                assert(discovered(body@, r));
                            }
                            r
                        },
                    },
                }
            },
        }
    }
}

/// What holds of an update outcome `r` once the address `ip` was resolved:
/// either the HTTP exchange failed, or some provider reply dictated `r`.
pub open spec fn update_outcome(
    fqdn: Seq<char>,
    user: Seq<char>,
    ip: IpAddress,
    r: Result<IpAddress, UpdateFailure>,
) -> bool {
    ||| r matches Err(UpdateFailure::Transport(_))
    ||| exists|body: Seq<char>| #[trigger] spec_classified(body, fqdn, user, ip, r)
}

impl DynamicDNSRecord {
    /// Update the record: resolve the IP address to publish, submit it to
    /// the provider's update endpoint, and classify the reply. On resolver
    /// failure the provider is not contacted and the resolver's error is
    /// returned.
    pub fn update(&self) -> (r: Result<IpAddress, UpdateFailure>)
        ensures
            self.config.ip matches Some(e) ==> update_outcome(
                self.fqdn@,
                self.config.username@,
                e,
                r,
            ),
            self.config.ip is None ==> {
                ||| r matches Err(UpdateFailure::Transport(_))
                ||| exists|dbody: Seq<char>| #[trigger] discovered(dbody, r) && spec_parse_ip(
                    spec_trim(dbody),
                ) is None
                ||| exists|dbody: Seq<char>|
                    #![trigger spec_parse_ip(spec_trim(dbody))]
                    spec_parse_ip(spec_trim(dbody)) is Some && update_outcome(
                        self.fqdn@,
                        self.config.username@,
                        spec_parse_ip(spec_trim(dbody))->0,
                        r,
                    )
            },
    {
        let rres = self.config.resolve();
        let new_ip = match rres {
            Ok(ip) => ip,
            Err(e) => {
                proof {
                    if self.config.ip is None {
                        let rr = Err::<IpAddress, UpdateFailure>(e);
                        if !(rr matches Err(UpdateFailure::Transport(_))) {
                            let dbody = choose|body: Seq<char>| discovered(body, rr);
                            assert(discovered(dbody, rr));
                            assert(spec_parse_ip(spec_trim(dbody)) is None);
                        }
                    }
                }
                return Err(e);
            },
        };
        let myip = ip_string(&new_ip);
        let r = match http_post_update(
            "https://infomaniak.com/nic/update",
            self.config.username.as_str(),
            self.config.password.as_str(),
            self.fqdn.as_str(),
            myip.as_str(),
        ) {
            Ok(body) => {
                let r = classify_response(
                    body.as_str(),
                    self.fqdn.as_str(),
                    self.config.username.as_str(),
                    new_ip,
                );
                proof {
                    assert(spec_classified(
                        body@,
                        self.fqdn@,
                        self.config.username@,
                        new_ip,
                        r,
                    ));
                }
                r
            },
            Err(t) => Err(UpdateFailure::Transport(t)),
        };
        proof {
            assert(update_outcome(self.fqdn@, self.config.username@, new_ip, r));
            if self.config.ip is None {
                let rr = Ok::<IpAddress, UpdateFailure>(new_ip);
                let dbody = choose|body: Seq<char>| discovered(body, rr);
                assert(discovered(dbody, rr));
                assert(spec_parse_ip(spec_trim(dbody)) == Some(new_ip));
            }
        }
        r
    }
}

} // verus!
