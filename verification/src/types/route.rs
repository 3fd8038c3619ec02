//! Routing rules.

use super::listener::ListenerId;
use crate::text::owned;
use vstd::prelude::*;

verus! {

/// Unique identifier for a route.
#[derive(Debug, PartialEq, Eq, Hash)]
pub struct RouteId(pub String);

impl Clone for RouteId {
    fn clone(&self) -> (r: Self)
        ensures
            r == *self,
    {
        RouteId(self.0.clone())
    }
}

/// A routing rule: match an incoming request and decide what to do with it.
///
/// Matching precedence is resolved by the compiled route table: exact host
/// beats wildcard host, and within a host the longest matching path prefix
/// (or an exact path) wins.
#[derive(Debug, PartialEq, Eq)]
pub struct Route {
    pub id: RouteId,
    /// Which listener this route applies to.
    pub listener: ListenerId,
    /// Host match: an exact name (`api.example.org`), a single-label
    /// wildcard (`*.example.org`), or `*` for any host.
    pub host: String,
    /// Path prefix match (`/`, `/api/`). Defaults to `/` (match all).
    pub path_prefix: String,
    /// What to do with a matching request.
    pub action: RouteAction,
}

/// The path prefix of a route that names none.
pub fn default_path_prefix() -> (r: String)
    ensures
        r@ == "/"@,
{
    owned("/")
}

/// The action taken when a route matches.
#[derive(Debug, PartialEq, Eq)]
pub enum RouteAction {
    /// Forward to the named upstream pool.
    Forward(String),
    /// Respond with a redirect (e.g. HTTP to HTTPS).
    Redirect(RedirectAction),
    /// Respond with a fixed status and no upstream call.
    Fixed(FixedAction),
}

impl Clone for RouteAction {
    fn clone(&self) -> (r: Self)
        ensures
            r == *self,
    {
        match self {
            RouteAction::Forward(pool) => RouteAction::Forward(pool.clone()),
            RouteAction::Redirect(a) => RouteAction::Redirect(a.clone()),
            RouteAction::Fixed(a) => RouteAction::Fixed(a.clone()),
        }
    }
}

/// A redirect response.
#[derive(Debug, PartialEq, Eq)]
pub struct RedirectAction {
    /// Target scheme (`https` is the common case for HTTP to HTTPS redirects).
    pub scheme: String,
    /// Redirect status code (301, 302, 307, 308). Defaults to 308.
    pub status: u16,
}

/// The status of a redirect that names none.
pub fn default_redirect_status() -> (r: u16)
    ensures
        r == 308,
{
    308
}

impl Clone for RedirectAction {
    fn clone(&self) -> (r: Self)
        ensures
            r == *self,
    {
        RedirectAction { scheme: self.scheme.clone(), status: self.status }
    }
}

/// A fixed-status response with no upstream call.
#[derive(Debug, PartialEq, Eq)]
pub struct FixedAction {
    pub status: u16,
    pub body: String,
}

impl Clone for FixedAction {
    fn clone(&self) -> (r: Self)
        ensures
            r == *self,
    {
        FixedAction { status: self.status, body: self.body.clone() }
    }
}

impl Clone for Route {
    fn clone(&self) -> (r: Self)
        ensures
            r == *self,
    {
        Route {
            id: self.id.clone(),
            listener: self.listener.clone(),
            host: self.host.clone(),
            path_prefix: self.path_prefix.clone(),
            action: self.action.clone(),
        }
    }
}

}
