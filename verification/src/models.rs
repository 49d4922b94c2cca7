//! The typed configuration: global limits, error pages, virtual servers and
//! their routes.

use crate::error::Text;
use crate::sections::distinct_keys;
use vstd::prelude::*;

verus! {

/// Limits that hold for every server.
#[derive(Debug, Clone, Copy, PartialEq, Eq)]
pub struct GlobalConfig {
    /// The largest request body, in bytes.
    pub max_body_size: usize,
    /// The time allowed to a request, in seconds.
    pub timeout: u64,
    pub keep_alive: bool,
}

impl GlobalConfig {
    /// The limits of a configuration that sets none.
    pub open spec fn initial() -> GlobalConfig {
        GlobalConfig { max_body_size: 1_048_576, timeout: 30, keep_alive: true }
    }
}

impl Default for GlobalConfig {
    fn default() -> (out: GlobalConfig)
        ensures
            out == GlobalConfig::initial(),
    {
        GlobalConfig { max_body_size: 1_048_576, timeout: 30, keep_alive: true }
    }
}

/// Where a route sends its requests instead of serving them.
#[derive(Debug, Clone, PartialEq, Eq)]
pub struct Redirect {
    pub status: u16,
    pub target: String,
}

/// A redirect as contracts see it.
pub struct RedirectView {
    pub status: u16,
    pub target: Text,
}

impl View for Redirect {
    type V = RedirectView;

    open spec fn view(&self) -> RedirectView {
        RedirectView { status: self.status, target: self.target@ }
    }
}

impl DeepView for Redirect {
    type V = RedirectView;

    open spec fn deep_view(&self) -> RedirectView {
        self@
    }
}

/// The program that handles the files of one extension.
#[derive(Debug, Clone, PartialEq, Eq)]
pub struct CgiConfig {
    pub extension: String,
    pub executor: String,
}

/// A CGI setting as contracts see it.
pub struct CgiConfigView {
    pub extension: Text,
    pub executor: Text,
}

impl View for CgiConfig {
    type V = CgiConfigView;

    open spec fn view(&self) -> CgiConfigView {
        CgiConfigView { extension: self.extension@, executor: self.executor@ }
    }
}

impl DeepView for CgiConfig {
    type V = CgiConfigView;

    open spec fn deep_view(&self) -> CgiConfigView {
        self@
    }
}

/// A rule for the requests under one path of a server.
#[derive(Debug, Clone, PartialEq, Eq)]
pub struct Route {
    pub path: String,
    pub methods: Vec<String>,
    pub root: Option<String>,
    pub index: Option<String>,
    pub redirect: Option<Redirect>,
    pub cgi: Option<CgiConfig>,
    pub upload_dir: Option<String>,
    pub autoindex: bool,
    pub max_file_size: Option<usize>,
}

/// A route as contracts see it.
pub struct RouteView {
    pub path: Text,
    pub methods: Seq<Text>,
    pub root: Option<Text>,
    pub index: Option<Text>,
    pub redirect: Option<RedirectView>,
    pub cgi: Option<CgiConfigView>,
    pub upload_dir: Option<Text>,
    pub autoindex: bool,
    pub max_file_size: Option<usize>,
}

impl View for Route {
    type V = RouteView;

    open spec fn view(&self) -> RouteView {
        RouteView {
            path: self.path@,
            methods: self.methods.deep_view(),
            root: self.root.deep_view(),
            index: self.index.deep_view(),
            redirect: self.redirect.deep_view(),
            cgi: self.cgi.deep_view(),
            upload_dir: self.upload_dir.deep_view(),
            autoindex: self.autoindex,
            max_file_size: self.max_file_size,
        }
    }
}

impl DeepView for Route {
    type V = RouteView;

    open spec fn deep_view(&self) -> RouteView {
        self@
    }
}

/// A named binding of a host to ports, with a document root and routes.
#[derive(Debug, Clone, PartialEq, Eq)]
pub struct VirtualServer {
    pub name: String,
    pub host: String,
    pub ports: Vec<u16>,
    pub is_default: bool,
    pub root: String,
    pub routes: Vec<Route>,
}

/// A virtual server as contracts see it.
pub struct VirtualServerView {
    pub name: Text,
    pub host: Text,
    pub ports: Seq<u16>,
    pub is_default: bool,
    pub root: Text,
    pub routes: Seq<RouteView>,
}

impl View for VirtualServer {
    type V = VirtualServerView;

    open spec fn view(&self) -> VirtualServerView {
        VirtualServerView {
            name: self.name@,
            host: self.host@,
            ports: self.ports@,
            is_default: self.is_default,
            root: self.root@,
            routes: self.routes.deep_view(),
        }
    }
}

impl DeepView for VirtualServer {
    type V = VirtualServerView;

    open spec fn deep_view(&self) -> VirtualServerView {
        self@
    }
}

/// The whole configuration. Servers stand in the order in which the text
/// first names them, error pages in the order of their first code.
#[derive(Debug, Clone, PartialEq, Eq)]
pub struct ServerConfig {
    pub global: GlobalConfig,
    pub servers: Vec<VirtualServer>,
    /// The page to serve for a status code; no code occurs twice.
    pub error_pages: Vec<(u16, String)>,
}

/// A configuration as contracts see it.
pub struct ServerConfigView {
    pub global: GlobalConfig,
    pub servers: Seq<VirtualServerView>,
    pub error_pages: Seq<(u16, Text)>,
}

/// No two servers have one name.
pub open spec fn distinct_servers(servers: Seq<VirtualServerView>) -> bool {
    forall|i: int, j: int|
        0 <= i < j < servers.len() ==> (#[trigger] servers[i]).name != (#[trigger] servers[j]).name
}

impl ServerConfigView {
    /// No two servers have one name, and no two error pages one code.
    pub open spec fn well_formed(self) -> bool {
        distinct_servers(self.servers) && distinct_keys(self.error_pages)
    }
}

impl View for ServerConfig {
    type V = ServerConfigView;

    open spec fn view(&self) -> ServerConfigView {
        ServerConfigView {
            global: self.global,
            servers: self.servers.deep_view(),
            error_pages: self.error_pages.deep_view(),
        }
    }
}

impl Default for ServerConfig {
    fn default() -> (out: ServerConfig)
        ensures
            out@ == (ServerConfigView {
                global: GlobalConfig::initial(),
                servers: Seq::empty(),
                error_pages: Seq::empty(),
            }),
            out@.well_formed(),
    {
        let out = ServerConfig {
            global: GlobalConfig::default(),
            servers: Vec::new(),
            error_pages: Vec::new(),
        };
        assert(out.servers.deep_view() =~= Seq::empty());
        assert(out.error_pages.deep_view() =~= Seq::empty());
        out
    }
}

} // verus!
