//! How one HTTP attempt is sent: its method, which proxy (if any) it goes
//! through, and when a failed proxied attempt is retried directly.

use vstd::prelude::*;
use vstd::string::*;
use crate::text::{str_eq, to_uppercase, uppercase_of};

verus! {

/// The request methods an attempt can use.
#[derive(Debug, Clone, Copy, PartialEq, Eq, Structural)]
pub enum HttpMethod {
    Get,
    Post,
    Put,
    Delete,
    Patch,
    Head,
}

/// The method named by an (uppercased) method string; anything unknown is a
/// GET.
pub open spec fn method_named(upper: Seq<char>) -> HttpMethod {
    if upper == "POST"@ {
        HttpMethod::Post
    } else if upper == "PUT"@ {
        HttpMethod::Put
    } else if upper == "DELETE"@ {
        HttpMethod::Delete
    } else if upper == "PATCH"@ {
        HttpMethod::Patch
    } else if upper == "HEAD"@ {
        HttpMethod::Head
    } else {
        HttpMethod::Get
    }
}

/// The method of a request, matched case-insensitively (by its Unicode
/// uppercase form).
pub fn http_method(method: &str) -> (m: HttpMethod)
    ensures
        m == method_named(uppercase_of(method@)),
{
    let up = to_uppercase(method);
    let u = up.as_str();
    if str_eq(u, "POST") {
        HttpMethod::Post
    } else if str_eq(u, "PUT") {
        HttpMethod::Put
    } else if str_eq(u, "DELETE") {
        HttpMethod::Delete
    } else if str_eq(u, "PATCH") {
        HttpMethod::Patch
    } else if str_eq(u, "HEAD") {
        HttpMethod::Head
    } else {
        HttpMethod::Get
    }
}

/// Which proxy an attempt goes through.
#[derive(Debug)]
pub enum ProxyRoute {
    /// No proxy: the direct fallback, or no proxy configured at all.
    Direct,
    /// The request's own proxy.
    Explicit(String),
    /// The next proxy of the rotating pool.
    FromPool,
    /// The proxy built into the client.
    StaticClient,
}

/// The route of an attempt: the direct fallback never uses a proxy; else
/// the request's own proxy wins, then the rotating pool, then the client's
/// built-in proxy.
pub fn proxy_route(
    skip_proxy: bool,
    request_proxy: &Option<String>,
    has_pool: bool,
    client_has_static_proxy: bool,
) -> (r: ProxyRoute)
    ensures
        skip_proxy ==> r is Direct,
        !skip_proxy ==> match request_proxy {
            Some(p) => r matches ProxyRoute::Explicit(q) && q@ == p@,
            None => if has_pool {
                r is FromPool
            } else if client_has_static_proxy {
                r is StaticClient
            } else {
                r is Direct
            },
        },
{
    if skip_proxy {
        return ProxyRoute::Direct;
    }
    match request_proxy {
        Some(p) => ProxyRoute::Explicit(p.clone()),
        None => if has_pool {
            ProxyRoute::FromPool
        } else if client_has_static_proxy {
            ProxyRoute::StaticClient
        } else {
            ProxyRoute::Direct
        },
    }
}

/// Whether the first attempt of a request goes through some proxy.
pub fn first_attempt_uses_proxy(has_request_proxy: bool, has_pool: bool, client_has_static_proxy: bool) -> (r: bool)
    ensures
        r == (has_request_proxy || has_pool || client_has_static_proxy),
{
    has_request_proxy || has_pool || client_has_static_proxy
}

/// A failed attempt is retried without a proxy only when a direct client
/// exists, the attempt was proxied, and its failure is a provable failure to
/// reach the proxy itself.
pub fn falls_back_to_direct(has_direct_client: bool, used_proxy: bool, proxy_dial_failed: bool) -> (r: bool)
    ensures
        r == (has_direct_client && used_proxy && proxy_dial_failed),
{
    has_direct_client && used_proxy && proxy_dial_failed
}

/// A client needs a direct (no-proxy) sibling when any path can route a
/// request through a proxy: a static proxy, a rotating pool, or a
/// residential proxy used on retries.
pub fn needs_direct_fallback(has_static_proxy: bool, has_pool: bool, has_residential_proxy: bool) -> (r: bool)
    ensures
        r == (has_static_proxy || has_pool || has_residential_proxy),
{
    has_static_proxy || has_pool || has_residential_proxy
}

} // verus!
