//! The relay's routing decisions: how a node joins its cluster, and which
//! broadcasts a connection may publish and consume.
use vstd::prelude::*;

use crate::origin::OriginProducer;
use crate::table::find;
use crate::text::{compare_paths, owned, PathOrder};
use crate::token::Payload;

verus! {

/// The prefix of cluster announcements when none is configured.
pub const DEFAULT_PATH: &'static str = "internal/origins";

/// How this node takes part in a cluster.
#[derive(Debug, Clone, PartialEq, Eq)]
pub struct ClusterConfig {
    /// Connect to this hostname in order to discover other nodes.
    pub connect: Option<String>,
    /// Use the token in this file when connecting to other nodes.
    pub token: Option<String>,
    /// Our hostname which we advertise to other nodes.
    pub advertise: Option<String>,
    /// The prefix to use for cluster announcements.
    pub prefix: Option<String>,
}

impl Default for ClusterConfig {
    fn default() -> (r: Self)
        ensures
            r.connect is None,
            r.token is None,
            r.advertise is None,
            r.prefix is None,
    {
        ClusterConfig { connect: None, token: None, advertise: None, prefix: None }
    }
}

/// The part a node plays in its cluster.
#[derive(Debug, PartialEq, Eq)]
pub enum Role {
    /// Connect to this root node and discover the other nodes through it.
    Leaf { root: String },
    /// Wait for the other nodes to connect.
    Root,
}

/// The URL of a node: `https://NODE/TOKEN`.
pub open spec fn node_url_text(node: Seq<char>, token: Seq<char>) -> Seq<char> {
    "https://"@ + node + "/"@ + token
}

/// The text of `https://NODE/TOKEN`, the URL by which a node is reached.
pub fn node_url(node: &str, token: &str) -> (r: String)
    ensures
        r@ == node_url_text(node@, token@),
{
    let mut r = owned("https://");
    r.append(node);
    r.append("/");
    r.append(token);
    r
}

/// The last URL path segment that carries a token: the token followed by
/// `.jwt`, or nothing without a token.
pub fn token_segment(token: Option<String>) -> (r: String)
    ensures
        token matches Some(t) ==> r@ == t@ + ".jwt"@,
        token is None ==> r@.len() == 0,
{
    match token {
        Some(t) => {
            let mut r = t;
            r.append(".jwt");
            r
        },
        None => String::new(),
    }
}

impl ClusterConfig {
    /// A node connects to the configured root unless it is itself that
    /// root, that is unless it advertises the same hostname.
    pub fn role(&self) -> (r: Role)
        ensures
            match self.connect {
                Some(c) => if self.advertise matches Some(a) && a@ == c@ {
                    r == Role::Root
                } else {
                    r matches Role::Leaf { root } && root@ == c@
                },
                None => r == Role::Root,
            },
    {
        match &self.connect {
            None => Role::Root,
            Some(c) => {
                let same = match &self.advertise {
                    Some(a) => compare_paths(a.as_str(), c.as_str()) == PathOrder::Equal,
                    None => false,
                };
                if same {
                    Role::Root
                } else {
                    Role::Leaf { root: owned(c.as_str()) }
                }
            },
        }
    }

    /// The prefix of cluster announcements: the configured one, else
    /// `internal/origins`.
    pub fn prefix(&self) -> (r: String)
        ensures
            match self.prefix {
                Some(p) => r@ == p@,
                None => r@ == DEFAULT_PATH@,
            },
    {
        match &self.prefix {
            Some(p) => owned(p.as_str()),
            None => owned(DEFAULT_PATH),
        }
    }

    /// The path under which this node announces itself to the root, if it
    /// advertises a hostname: `PREFIX/HOSTNAME`.
    pub fn origin_path(&self) -> (r: Option<String>)
        ensures
            self.advertise is None ==> r is None,
            self.advertise matches Some(a) ==> (r matches Some(p) && p@ == (match self.prefix {
                Some(q) => q@,
                None => DEFAULT_PATH@,
            }) + "/"@ + a@),
    {
        match &self.advertise {
            None => None,
            Some(a) => {
                let mut p = self.prefix();
                p.append("/");
                p.append(a.as_str());
                Some(p)
            },
        }
    }

    /// The prefix under which the other nodes are announced: `PREFIX/`.
    pub fn origins_prefix(&self) -> (r: String)
        ensures
            r@ == (match self.prefix {
                Some(q) => q@,
                None => DEFAULT_PATH@,
            }) + "/"@,
    {
        let mut p = self.prefix();
        p.append("/");
        p
    }

    /// A discovered node is skipped when it is this node.
    pub fn is_self(&self, node: &str) -> (r: bool)
        ensures
            r == (self.advertise matches Some(a) && a@ == node@),
    {
        match &self.advertise {
            Some(a) => compare_paths(a.as_str(), node) == PathOrder::Equal,
            None => false,
        }
    }
}

/// The broadcasts a relay node knows: those of its own clients, and those
/// of the other nodes of its cluster.
#[derive(Debug)]
pub struct Cluster {
    pub config: ClusterConfig,
    /// Broadcasts announced by local clients (users).
    pub locals: OriginProducer,
    /// Broadcasts announced by remote servers (cluster).
    pub remotes: OriginProducer,
}

impl Cluster {
    /// A node with no broadcast yet.
    pub fn new(config: ClusterConfig) -> (r: Self)
        ensures
            r.config == config,
            r.locals.wf() && r.locals.active().len() == 0 && r.locals.consumer_count() == 0,
            r.remotes.wf() && r.remotes.active().len() == 0 && r.remotes.consumer_count() == 0,
    {
        Cluster { config, locals: OriginProducer::new(), remotes: OriginProducer::new() }
    }

    /// The broadcast at a path: a local one first, else a remote one.
    pub fn get(&self, broadcast: &str) -> (r: Option<u64>)
        requires
            self.locals.wf(),
            self.remotes.wf(),
        ensures
            r == match find(self.locals.active(), broadcast@) {
                Some(b) => Some(b),
                None => find(self.remotes.active(), broadcast@),
            },
    {
        match self.locals.consume(broadcast) {
            Some(b) => Some(b),
            None => self.remotes.consume(broadcast),
        }
    }
}

/// A route between a connection's session and the relay's origins: the
/// prefix on the session's side and the prefix on the relay's side.
#[derive(Debug, PartialEq, Eq)]
pub struct Route {
    pub session: String,
    pub origin: String,
}

/// What a connection with a verified token may do.
#[derive(Debug, PartialEq, Eq)]
pub struct Routes {
    /// The broadcasts of the relay that the session receives.
    pub subscribe: Option<Route>,
    /// The broadcasts of the session that the relay takes in.
    pub publish: Option<Route>,
    /// The one broadcast of the session that the relay takes in by name.
    pub publish_force: Option<Route>,
}

/// The route for a permission of a token, if it grants it: the permitted
/// prefix on the session's side, the token's path followed by it on the
/// relay's side.
pub open spec fn route_for(path: Seq<char>, permission: Option<String>, r: Option<Route>) -> bool {
    match permission {
        None => r is None,
        Some(p) => r matches Some(route) && route.session@ == p@ && route.origin@ == path + p@,
    }
}

fn route(path: &str, permission: &Option<String>) -> (r: Option<Route>)
    ensures
        route_for(path@, *permission, r),
{
    match permission {
        None => None,
        Some(p) => {
            let mut origin = owned(path);
            origin.append(p.as_str());
            Some(Route { session: owned(p.as_str()), origin })
        },
    }
}

/// The routes of a connection, from its token: everything is relative to
/// the token's path.
pub fn connection_routes(token: &Payload) -> (r: Routes)
    ensures
        route_for(token.path@, token.subscribe, r.subscribe),
        route_for(token.path@, token.publish, r.publish),
        route_for(token.path@, token.publish_force, r.publish_force),
{
    Routes {
        subscribe: route(token.path.as_str(), &token.subscribe),
        publish: route(token.path.as_str(), &token.publish),
        publish_force: route(token.path.as_str(), &token.publish_force),
    }
}

} // verus!
