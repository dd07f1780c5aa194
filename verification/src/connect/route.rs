//! Matching of HTTP requests to routes, and the state of a server's
//! address.

use crate::external::{derive_accept_key, websocket_accept_key};
use vstd::prelude::*;

verus! {

/// Empty parameters of a route.
#[derive(Debug, Clone, Copy, PartialEq, Eq, Structural)]
pub struct NoParameters {}

/// A route matched a request but could not process it.
#[derive(Debug)]
pub struct RouteError {
    /// Path of the request.
    pub path: String,
    /// Query of the request.
    pub query: String,
    /// The reason of the failure.
    pub reason: String,
}

impl RouteError {
    /// Creates an error from the parameters of a request and the reason.
    pub fn new(path: &str, query: &str, reason: &str) -> (e: Self)
        ensures
            e.path@ == path@,
            e.query@ == query@,
            e.reason@ == reason@,
    {
        RouteError { path: path.to_owned(), query: query.to_owned(), reason: reason.to_owned() }
    }

    /// The message of the error.
    pub open spec fn text(&self) -> Seq<char> {
        "route error [path = "@ + self.path@ + ", query = "@ + self.query@ + "]: "@ + self.reason@
    }

    /// Describes the error:
    /// `route error [path = <path>, query = <query>]: <reason>`.
    pub fn to_string(&self) -> (s: String)
        ensures
            s@ == self.text(),
    {
        let s = String::from_str("route error [path = ");
        let s = s.concat(self.path.as_str());
        let s = s.concat(", query = ");
        let s = s.concat(self.query.as_str());
        let s = s.concat("]: ");
        s.concat(self.reason.as_str())
    }
}

/// Is `path` one of `paths`?
pub open spec fn path_listed(paths: Seq<&str>, path: Seq<char>) -> bool {
    exists|i: int| 0 <= i < paths.len() && paths[i]@ == path
}

/// Matches a request against a route's plain paths. A listed path gives the
/// request's query (empty when it has none), which the route parses into its
/// parameters; an unlisted path gives `None`: the route does not apply.
pub fn direct_path_query(paths: &[&str], path: &str, query: Option<&str>) -> (r: Option<String>)
    ensures
        match r {
            Some(q) => path_listed(paths@, path@) && q@ == (match query {
                Some(q0) => q0@,
                None => ""@,
            }),
            None => !path_listed(paths@, path@),
        },
{
    let wanted = path.to_owned();
    let mut i: usize = 0;
    while i < paths.len()
        invariant
            i <= paths@.len(),
            wanted@ == path@,
            forall|j: int| 0 <= j < i ==> (#[trigger] paths@[j])@ != path@,
        decreases paths@.len() - i,
    {
        let candidate = paths[i].to_owned();
        if candidate == wanted {
            let q = match query {
                Some(q0) => q0.to_owned(),
                None => "".to_owned(),
            };
            return Some(q);
        }
        i = i + 1;
    }
    None
}

/// The next step of offering a request to the routes of a server, in the
/// order in which they were added.
#[derive(Debug, Clone, Copy, PartialEq, Eq, Structural)]
pub enum RouteStep {
    /// Offer the request to the route at this position.
    Try(usize),
    /// The route at this position took the request.
    Take(usize),
    /// No route took it.
    NoRoute,
}

/// The first step for `count` routes: the first route, if there is any.
pub fn first_route_step(count: usize) -> (s: RouteStep)
    ensures
        s == (if count > 0 {
            RouteStep::Try(0)
        } else {
            RouteStep::NoRoute
        }),
{
    if count > 0 {
        RouteStep::Try(0)
    } else {
        RouteStep::NoRoute
    }
}

/// The step after the route at `index` was offered the request: it takes the
/// request when it accepted it; otherwise the next route is tried, and when
/// there is none no route took it.
pub fn route_step(index: usize, count: usize, accepted: bool) -> (s: RouteStep)
    requires
        index < count,
    ensures
        s == (if accepted {
            RouteStep::Take(index)
        } else if index + 1 < count {
            RouteStep::Try((index + 1) as usize)
        } else {
            RouteStep::NoRoute
        }),
{
    if accepted {
        RouteStep::Take(index)
    } else if index + 1 < count {
        RouteStep::Try(index + 1)
    } else {
        RouteStep::NoRoute
    }
}

/// The route that takes a request when the routes from position `i` on are
/// offered it in order, given which of them accept it; that is what the
/// steps above lead to.
pub open spec fn route_scan(accepts: Seq<bool>, i: int) -> Option<int>
    decreases accepts.len() - i,
{
    if i < 0 || i >= accepts.len() {
        None
    } else if accepts[i] {
        Some(i)
    } else {
        route_scan(accepts, i + 1)
    }
}

/// **Law (first accepting route).** Offered to the routes in order, a
/// request is taken by the first route that accepts it, and by none when no
/// route accepts it.
pub proof fn law_route_scan_takes_first_accepting(accepts: Seq<bool>, i: int)
    requires
        0 <= i <= accepts.len(),
    ensures
        match route_scan(accepts, i) {
            Some(k) => i <= k < accepts.len() && accepts[k] && forall|j: int| i <= j < k ==> !accepts[j],
            None => forall|j: int| i <= j < accepts.len() ==> !accepts[j],
        },
    decreases accepts.len() - i,
{
    if i < accepts.len() && !accepts[i] {
        law_route_scan_takes_first_accepting(accepts, i + 1);
    }
}

/// How the routing of a request ended.
#[derive(Debug, Clone, Copy, PartialEq, Eq, Structural)]
pub enum RouteOutcome {
    /// No route accepted the request.
    NoRoute,
    /// The accepting route failed.
    Failed,
    /// The accepting route responded with the status code.
    Responded(u16),
}

/// The status code of the response: `404` when no route accepted the
/// request, `500` when the route failed, else the route's own status.
pub fn response_status(outcome: RouteOutcome) -> (code: u16)
    ensures
        code == (match outcome {
            RouteOutcome::NoRoute => 404,
            RouteOutcome::Failed => 500,
            RouteOutcome::Responded(c) => c,
        }),
{
    match outcome {
        RouteOutcome::NoRoute => 404,
        RouteOutcome::Failed => 500,
        RouteOutcome::Responded(c) => c,
    }
}

/// The response to a matched WebSocket request.
#[derive(Debug, Clone)]
pub struct UpgradePlan {
    /// The status code of the response.
    pub status: u16,
    /// The value of the `Sec-WebSocket-Accept` header, when there is one.
    pub accept: Option<String>,
}

/// The answer to a matched WebSocket request, given the accept value derived
/// from its key: the protocol is switched (`101`, with `Connection: upgrade`
/// and `Upgrade: websocket`), whether or not the request carried an
/// `Upgrade` header, and the accept header carries the derived value.
pub fn ws_upgrade_answer(_has_upgrade_header: bool, accept: Option<String>) -> (p: UpgradePlan)
    ensures
        p.status == 101,
        p.accept == accept,
{
    UpgradePlan { status: 101, accept }
}

/// Plans the response to a matched WebSocket request: the accept value is
/// derived from the request's `Sec-WebSocket-Key` when it carried one.
pub fn ws_upgrade_plan(has_upgrade_header: bool, key: Option<&[u8]>) -> (p: UpgradePlan)
    ensures
        p.status == 101,
        match key {
            Some(k) => p.accept matches Some(a) && a@ == websocket_accept_key(k@),
            None => p.accept is None,
        },
{
    let accept = match key {
        Some(k) => Some(derive_accept_key(k)),
        None => None,
    };
    ws_upgrade_answer(has_upgrade_header, accept)
}

/// Whether a failed listener is restarted, and after how many seconds: only
/// when the server is not terminating, the listener failed, and a retry
/// interval is set.
pub fn restart_delay(terminating: bool, failed: bool, retry_interval: Option<u64>) -> (r: Option<u64>)
    ensures
        r == (if !terminating && failed {
            retry_interval
        } else {
            None
        }),
{
    if !terminating && failed {
        retry_interval
    } else {
        None
    }
}

/// The address of a server, once it is bound, with the listeners waiting for it.
pub enum AddrState<A, L> {
    /// Not bound yet: the listeners wait.
    NotAssignedYet {
        /// The waiting listeners, in order of arrival.
        listeners: Vec<L>,
    },
    /// Bound to `addr`.
    Assigned {
        /// The address.
        addr: A,
    },
}

impl<A: Copy, L> AddrState<A, L> {
    /// The waiting listeners (empty once assigned).
    pub open spec fn waiting(&self) -> Seq<L> {
        match self {
            AddrState::NotAssignedYet { listeners } => listeners@,
            AddrState::Assigned { .. } => Seq::empty(),
        }
    }

    /// The address, once assigned.
    pub open spec fn address(&self) -> Option<A> {
        match self {
            AddrState::NotAssignedYet { .. } => None,
            AddrState::Assigned { addr } => Some(*addr),
        }
    }

    /// Not bound, nobody waiting.
    pub fn new() -> (s: Self)
        ensures
            s.address() is None,
            s.waiting().len() == 0,
    {
        AddrState::NotAssignedYet { listeners: Vec::new() }
    }

    /// A listener asks for the address: answered at once (returned with the
    /// address) when it is known, else queued.
    pub fn wait(&mut self, listener: L) -> (answered: Option<(L, A)>)
        ensures
            final(self).address() == old(self).address(),
            match old(self).address() {
                Some(a) => answered == Some((listener, a)) && final(self).waiting() == old(self).waiting(),
                None => answered is None && final(self).waiting() == old(self).waiting().push(listener),
            },
    {
        match self {
            AddrState::NotAssignedYet { listeners } => {
                listeners.push(listener);
                None
            },
            AddrState::Assigned { addr } => Some((listener, *addr)),
        }
    }

    /// The server is bound to `addr`: returns the listeners to answer, in
    /// order of arrival. Later requests are answered at once.
    pub fn assign(&mut self, addr: A) -> (to_answer: Vec<L>)
        ensures
            final(self).address() == Some(addr),
            final(self).waiting().len() == 0,
            to_answer@ == old(self).waiting(),
    {
        let mut state = AddrState::Assigned { addr };
        std::mem::swap(self, &mut state);
        match state {
            AddrState::NotAssignedYet { listeners } => listeners,
            AddrState::Assigned { .. } => Vec::new(),
        }
    }
}

} // verus!
