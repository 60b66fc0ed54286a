//! Cloudflare challenge detection: recognising JS challenges, Turnstile
//! (managed) challenges and block pages from a response.

use vstd::prelude::*;
use crate::response::{header_value, HttpResponse};
use crate::text::{ascii_lower_all, ascii_lowercase, contains, contains_str, utf8};

verus! {

/// Cloudflare challenge type.
#[derive(Debug, Clone, Copy, PartialEq, Eq, Structural)]
pub enum ChallengeType {
    /// 503 + JS computation challenge ("Just a moment...").
    JsChallenge,
    /// Turnstile / managed CAPTCHA.
    Turnstile,
    /// IP or country block ("you have been blocked").
    Block,
}

/// The display name of a challenge type.
pub open spec fn challenge_name(t: ChallengeType) -> Seq<char> {
    match t {
        ChallengeType::JsChallenge => "js_challenge"@,
        ChallengeType::Turnstile => "managed_challenge"@,
        ChallengeType::Block => "block"@,
    }
}

impl ChallengeType {
    /// The challenge type's display name.
    pub fn to_string(&self) -> (s: String)
        ensures
            s@ == challenge_name(*self),
    {
        match self {
            ChallengeType::JsChallenge => "js_challenge".to_owned(),
            ChallengeType::Turnstile => "managed_challenge".to_owned(),
            ChallengeType::Block => "block".to_owned(),
        }
    }
}

/// Cloudflare challenge details extracted from a response.
#[derive(Debug, Clone)]
pub struct CloudflareChallenge {
    pub challenge_type: ChallengeType,
    pub status: u16,
    pub ray_id: String,
}

/// The value of a header, or the empty string when absent.
pub open spec fn header_or_empty(resp: HttpResponse, name: Seq<char>) -> Seq<char> {
    match header_value(resp.headers@, name) {
        Some(v) => v,
        None => Seq::empty(),
    }
}

/// What kind of Cloudflare challenge a response is, if any: only 403 and 503
/// responses served by Cloudflare (server header containing "cloudflare",
/// any case) qualify; a 503 whose body mentions `challenge-platform` is a JS
/// challenge; then a Turnstile widget marks a managed challenge; then a block
/// notice marks a block page. Body markers are matched case-insensitively.
pub open spec fn challenge_kind(resp: HttpResponse) -> Option<ChallengeType> {
    let server = utf8(ascii_lower_all(header_or_empty(resp, "server"@)));
    let body = utf8(ascii_lower_all(resp.body@));
    if resp.status != 403 && resp.status != 503 {
        None
    } else if !contains(server, utf8("cloudflare"@)) {
        None
    } else if resp.status == 503 && contains(body, utf8("challenge-platform"@)) {
        Some(ChallengeType::JsChallenge)
    } else if contains(body, utf8("turnstile-wrapper"@)) || contains(body, utf8("cf-turnstile"@)) {
        Some(ChallengeType::Turnstile)
    } else if contains(body, utf8("you have been blocked"@)) || contains(
        body,
        utf8("cf-error-details"@),
    ) {
        Some(ChallengeType::Block)
    } else {
        None
    }
}

/// Inspect a response for Cloudflare challenge markers. Returns `None` if the
/// response is not a Cloudflare challenge; otherwise the challenge type, the
/// response status and the `cf-ray` header (empty when absent).
pub fn detect_cloudflare(resp: &HttpResponse) -> (r: Option<CloudflareChallenge>)
    ensures
        match r {
            Some(c) => challenge_kind(*resp) == Some(c.challenge_type) && c.status == resp.status
                && c.ray_id@ == header_or_empty(*resp, "cf-ray"@),
            None => challenge_kind(*resp) is None,
        },
{
    if resp.status != 403 && resp.status != 503 {
        return None;
    }
    let server = match resp.header("server") {
        Some(v) => v,
        None => "",
    };
    proof {
        reveal_strlit("");
        assert(""@ =~= Seq::<char>::empty());
    }
    let server_lower = ascii_lowercase(server);
    if !contains_str(server_lower.as_str(), "cloudflare") {
        return None;
    }
    let body = ascii_lowercase(resp.body.as_str());
    let ray_id = match resp.header("cf-ray") {
        Some(v) => v.to_owned(),
        None => String::new(),
    };
    if resp.status == 503 && contains_str(body.as_str(), "challenge-platform") {
        return Some(
            CloudflareChallenge { challenge_type: ChallengeType::JsChallenge, status: resp.status, ray_id },
        );
    }
    if contains_str(body.as_str(), "turnstile-wrapper") || contains_str(body.as_str(), "cf-turnstile") {
        return Some(
            CloudflareChallenge { challenge_type: ChallengeType::Turnstile, status: resp.status, ray_id },
        );
    }
    if contains_str(body.as_str(), "you have been blocked") || contains_str(
        body.as_str(),
        "cf-error-details",
    ) {
        return Some(
            CloudflareChallenge { challenge_type: ChallengeType::Block, status: resp.status, ray_id },
        );
    }
    None
}

/// A JS challenge is only ever reported for a 503 response, and only a 403
/// or a 503 from a Cloudflare server is reported at all.
pub proof fn law_challenge_statuses(resp: HttpResponse)
    ensures
        challenge_kind(resp) == Some(ChallengeType::JsChallenge) ==> resp.status == 503,
        challenge_kind(resp) is Some ==> resp.status == 403 || resp.status == 503,
        challenge_kind(resp) is Some ==> contains(
            utf8(ascii_lower_all(header_or_empty(resp, "server"@))),
            utf8("cloudflare"@),
        ),
{
}


/// Which challenge a Cloudflare 403/503 response is, by the markers its
/// body carries (case-insensitively): a 503 with the challenge-platform
/// scripts is a JS challenge; otherwise a Turnstile widget
/// (`turnstile-wrapper` or `cf-turnstile`) is a managed challenge; otherwise
/// a block notice (`you have been blocked` or `cf-error-details`) is a
/// block page; a page with none of these is no challenge.
pub proof fn law_challenge_markers(resp: HttpResponse)
    ensures
        ({
            let server = utf8(ascii_lower_all(header_or_empty(resp, "server"@)));
            let body = utf8(ascii_lower_all(resp.body@));
            let from_cf = (resp.status == 403 || resp.status == 503) && contains(server, utf8("cloudflare"@));
            let js = resp.status == 503 && contains(body, utf8("challenge-platform"@));
            let turnstile = contains(body, utf8("turnstile-wrapper"@)) || contains(body, utf8("cf-turnstile"@));
            let blocked = contains(body, utf8("you have been blocked"@)) || contains(body, utf8("cf-error-details"@));
            &&& (from_cf && js) ==> challenge_kind(resp) == Some(ChallengeType::JsChallenge)
            &&& (from_cf && !js && turnstile) ==> challenge_kind(resp) == Some(ChallengeType::Turnstile)
            &&& (from_cf && !js && !turnstile && blocked) ==> challenge_kind(resp) == Some(ChallengeType::Block)
            &&& (!from_cf || (!js && !turnstile && !blocked)) ==> challenge_kind(resp) is None
        }),
{
}

} // verus!
