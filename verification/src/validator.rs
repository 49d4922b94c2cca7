//! The validator: the checks that a built configuration must pass before a
//! server may start.
//!
//! The checks run in five stages, and the first fault ends them: the global
//! limits; the error pages, in their order; the servers as a collection;
//! each server, in order; each route of each server, in order.

use crate::error::{ConfigError, ConfigErrorView, Field, PathNeed, Text};
use crate::files::{kind_at, PathKind, PathTable};
use crate::models::{
    CgiConfigView, GlobalConfig, RedirectView, Route, RouteView, ServerConfig, ServerConfigView,
    VirtualServer, VirtualServerView,
};
use crate::text::{
    chars_of, decimal, first_index, lemma_first_index_is, same_chars, write_decimal,
};
use vstd::prelude::*;

verus! {

/// What a check has found, as contracts see it: nothing, or the fault.
pub open spec fn verdict(r: Result<(), ConfigError>) -> Option<ConfigErrorView> {
    match r {
        Ok(_) => None,
        Err(e) => Some(e@),
    }
}

/// The first of two faults.
pub open spec fn or_else(a: Option<ConfigErrorView>, b: Option<ConfigErrorView>) -> Option<
    ConfigErrorView,
> {
    if a is Some {
        a
    } else {
        b
    }
}

/// The predicate "`check` finds a fault in item `i`".
pub open spec fn faulty_at<T>(
    items: Seq<T>,
    check: spec_fn(T) -> Option<ConfigErrorView>,
) -> spec_fn(int) -> bool {
    |i: int| check(items[i]) is Some
}

/// The fault of the first of `items` in which `check` finds one.
pub open spec fn first_fault<T>(
    items: Seq<T>,
    check: spec_fn(T) -> Option<ConfigErrorView>,
) -> Option<ConfigErrorView> {
    let k = first_index(0, items.len() as int, faulty_at(items, check));
    if 0 <= k < items.len() {
        check(items[k])
    } else {
        None
    }
}

/// The fault of item `k` is the first one where the items before it have
/// none.
pub proof fn lemma_first_fault_at<T>(
    items: Seq<T>,
    check: spec_fn(T) -> Option<ConfigErrorView>,
    k: int,
)
    requires
        0 <= k < items.len(),
        forall|i: int| 0 <= i < k ==> check(#[trigger] items[i]) is None,
        check(items[k]) is Some,
    ensures
        first_fault(items, check) == check(items[k]),
{
    assert forall|i: int| 0 <= i < k implies !#[trigger] faulty_at(items, check)(i) by {
        assert(check(items[i]) is None);
    }
    lemma_first_index_is(0, items.len() as int, faulty_at(items, check), k);
}

/// There is no first fault where no item has one.
pub proof fn lemma_first_fault_none<T>(items: Seq<T>, check: spec_fn(T) -> Option<ConfigErrorView>)
    requires
        forall|i: int| 0 <= i < items.len() ==> check(#[trigger] items[i]) is None,
    ensures
        first_fault(items, check) is None,
{
    assert forall|i: int| 0 <= i < items.len() implies !#[trigger] faulty_at(items, check)(i) by {
        assert(check(items[i]) is None);
    }
    lemma_first_index_is(0, items.len() as int, faulty_at(items, check), items.len() as int);
}

/// The fault of the global limits: both must be positive.
pub open spec fn global_fault(global: GlobalConfig) -> Option<ConfigErrorView> {
    if global.max_body_size == 0 {
        Some(
            ConfigErrorView::InvalidValue {
                entity: "global"@,
                field: Field::MaxBodySize,
                raw: "0"@,
            },
        )
    } else if global.timeout == 0 {
        Some(
            ConfigErrorView::InvalidValue { entity: "global"@, field: Field::Timeout, raw: "0"@ },
        )
    } else {
        None
    }
}

/// The fault of one error page: its path must be a regular file.
pub open spec fn page_fault(page: (u16, Text), files: Map<Text, PathKind>) -> Option<
    ConfigErrorView,
> {
    if kind_at(files, page.1) != PathKind::File {
        Some(ConfigErrorView::Filesystem { path: page.1, expected: PathNeed::File })
    } else {
        None
    }
}

/// `page_fault` for the files `files`.
pub open spec fn page_check(files: Map<Text, PathKind>) -> spec_fn((u16, Text)) -> Option<
    ConfigErrorView,
> {
    |page: (u16, Text)| page_fault(page, files)
}

/// The fault of the first error page that has one.
pub open spec fn pages_fault(pages: Seq<(u16, Text)>, files: Map<Text, PathKind>) -> Option<
    ConfigErrorView,
> {
    first_fault(pages, page_check(files))
}

/// The pairs of host and port that `server` binds, in the order of its ports.
pub open spec fn bindings_of(server: VirtualServerView) -> Seq<(Text, u16)> {
    Seq::new(server.ports.len(), |i: int| (server.host, server.ports[i]))
}

/// The pairs of host and port that the first `n` servers bind, in order.
pub open spec fn bindings(servers: Seq<VirtualServerView>, n: int) -> Seq<(Text, u16)>
    decreases n,
{
    if n <= 0 {
        Seq::empty()
    } else {
        bindings(servers, n - 1) + bindings_of(servers[n - 1])
    }
}

/// The predicate "pair `j` stands at an earlier place too".
pub open spec fn repeats_at(pairs: Seq<(Text, u16)>) -> spec_fn(int) -> bool {
    |j: int| exists|i: int| 0 <= i < j && #[trigger] pairs[i] == pairs[j]
}

/// The index of the first pair that repeats an earlier one, or `pairs.len()`.
pub open spec fn first_repeat(pairs: Seq<(Text, u16)>) -> int {
    first_index(0, pairs.len() as int, repeats_at(pairs))
}

/// The number of servers among the first `n` that are marked as the default.
pub open spec fn default_count(servers: Seq<VirtualServerView>, n: int) -> nat
    decreases n,
{
    if n <= 0 {
        0
    } else if servers[n - 1].is_default {
        default_count(servers, n - 1) + 1
    } else {
        default_count(servers, n - 1)
    }
}

/// The fault of the servers as a collection: there must be one at least, no
/// pair of host and port may be bound twice, and exactly one server must be
/// the default.
pub open spec fn collection_fault(servers: Seq<VirtualServerView>) -> Option<ConfigErrorView> {
    let pairs = bindings(servers, servers.len() as int);
    let k = first_repeat(pairs);
    if servers.len() == 0 {
        Some(ConfigErrorView::MissingField { entity: "config"@, field: Field::Servers })
    } else if 0 <= k < pairs.len() {
        Some(ConfigErrorView::PortConflict { host: pairs[k].0, port: pairs[k].1 })
    } else if default_count(servers, servers.len() as int) == 0 {
        Some(ConfigErrorView::NoDefaultServer)
    } else if default_count(servers, servers.len() as int) > 1 {
        Some(ConfigErrorView::MultipleDefaultServers)
    } else {
        None
    }
}

/// The fault of one server by itself: a host that is not empty, a port at
/// least and none that is 0, and a root that is a directory.
pub open spec fn server_fault(server: VirtualServerView, files: Map<Text, PathKind>) -> Option<
    ConfigErrorView,
> {
    if server.host.len() == 0 {
        Some(
            ConfigErrorView::InvalidValue {
                entity: server.name,
                field: Field::Host,
                raw: server.host,
            },
        )
    } else if server.ports.len() == 0 {
        Some(ConfigErrorView::MissingField { entity: server.name, field: Field::Ports })
    } else if server.ports.contains(0u16) {
        Some(ConfigErrorView::InvalidValue { entity: server.name, field: Field::Ports, raw: "0"@ })
    } else if kind_at(files, server.root) != PathKind::Directory {
        Some(ConfigErrorView::Filesystem { path: server.root, expected: PathNeed::Directory })
    } else {
        None
    }
}

/// `server_fault` for the files `files`.
pub open spec fn server_check(files: Map<Text, PathKind>) -> spec_fn(VirtualServerView) -> Option<
    ConfigErrorView,
> {
    |server: VirtualServerView| server_fault(server, files)
}

/// Whether `method` is one of the six request methods that a route may name.
pub open spec fn allowed_method(method: Text) -> bool {
    ||| method == "GET"@
    ||| method == "POST"@
    ||| method == "DELETE"@
    ||| method == "PUT"@
    ||| method == "HEAD"@
    ||| method == "OPTIONS"@
}

/// Whether `status` is one of the five redirect codes.
pub open spec fn allowed_status(status: u16) -> bool {
    status == 301 || status == 302 || status == 303 || status == 307 || status == 308
}

/// The predicate "method `i` is not allowed".
pub open spec fn bad_method_at(methods: Seq<Text>) -> spec_fn(int) -> bool {
    |i: int| !allowed_method(methods[i])
}

/// The fault of the methods of the route at `path`: there must be one at
/// least, and each must be allowed.
pub open spec fn methods_fault(path: Text, methods: Seq<Text>) -> Option<ConfigErrorView> {
    let k = first_index(0, methods.len() as int, bad_method_at(methods));
    if methods.len() == 0 {
        Some(ConfigErrorView::MissingField { entity: path, field: Field::Methods })
    } else if 0 <= k < methods.len() {
        Some(ConfigErrorView::InvalidValue { entity: path, field: Field::Methods, raw: methods[k] })
    } else {
        None
    }
}

/// The fault of the CGI setting of the route at `path`: the executor must
/// exist, and the extension must start with a dot.
pub open spec fn cgi_fault(
    path: Text,
    cgi: Option<CgiConfigView>,
    files: Map<Text, PathKind>,
) -> Option<ConfigErrorView> {
    match cgi {
        None => None,
        Some(cgi) => if kind_at(files, cgi.executor) == PathKind::Missing {
            Some(ConfigErrorView::Filesystem { path: cgi.executor, expected: PathNeed::Present })
        } else if cgi.extension.len() == 0 || cgi.extension[0] != '.' {
            Some(
                ConfigErrorView::InvalidValue {
                    entity: path,
                    field: Field::CgiExtension,
                    raw: cgi.extension,
                },
            )
        } else {
            None
        },
    }
}

/// The fault of the redirect of the route at `path`: the status must be
/// allowed, and the target must not be empty.
pub open spec fn redirect_fault(path: Text, redirect: Option<RedirectView>) -> Option<
    ConfigErrorView,
> {
    match redirect {
        None => None,
        Some(redirect) => if !allowed_status(redirect.status) {
            Some(
                ConfigErrorView::InvalidValue {
                    entity: path,
                    field: Field::RedirectStatus,
                    raw: decimal(redirect.status as nat),
                },
            )
        } else if redirect.target.len() == 0 {
            Some(
                ConfigErrorView::InvalidValue {
                    entity: path,
                    field: Field::RedirectTarget,
                    raw: redirect.target,
                },
            )
        } else {
            None
        },
    }
}

/// The fault of a path that must be a directory where it is set.
pub open spec fn directory_fault(path: Option<Text>, files: Map<Text, PathKind>) -> Option<
    ConfigErrorView,
> {
    match path {
        Some(p) => if kind_at(files, p) != PathKind::Directory {
            Some(ConfigErrorView::Filesystem { path: p, expected: PathNeed::Directory })
        } else {
            None
        },
        None => None,
    }
}

/// The fault of a path that must exist where it is set.
pub open spec fn presence_fault(path: Option<Text>, files: Map<Text, PathKind>) -> Option<
    ConfigErrorView,
> {
    match path {
        Some(p) => if kind_at(files, p) == PathKind::Missing {
            Some(ConfigErrorView::Filesystem { path: p, expected: PathNeed::Present })
        } else {
            None
        },
        None => None,
    }
}

/// The fault of one route: its path must start with a slash; then come its
/// methods, its CGI setting, its redirect, its upload directory, which must
/// be a directory, and its root, which must exist.
pub open spec fn route_fault(route: RouteView, files: Map<Text, PathKind>) -> Option<
    ConfigErrorView,
> {
    if route.path.len() == 0 || route.path[0] != '/' {
        Some(
            ConfigErrorView::InvalidValue {
                entity: route.path,
                field: Field::Path,
                raw: route.path,
            },
        )
    } else {
        or_else(
            methods_fault(route.path, route.methods),
            or_else(
                cgi_fault(route.path, route.cgi, files),
                or_else(
                    redirect_fault(route.path, route.redirect),
                    or_else(
                        directory_fault(route.upload_dir, files),
                        presence_fault(route.root, files),
                    ),
                ),
            ),
        )
    }
}

/// `route_fault` for the files `files`.
pub open spec fn route_check(files: Map<Text, PathKind>) -> spec_fn(RouteView) -> Option<
    ConfigErrorView,
> {
    |route: RouteView| route_fault(route, files)
}

/// The fault of the first route of `server` that has one.
pub open spec fn routes_fault(server: VirtualServerView, files: Map<Text, PathKind>) -> Option<
    ConfigErrorView,
> {
    first_fault(server.routes, route_check(files))
}

/// `routes_fault` for the files `files`.
pub open spec fn routes_check(files: Map<Text, PathKind>) -> spec_fn(VirtualServerView) -> Option<
    ConfigErrorView,
> {
    |server: VirtualServerView| routes_fault(server, files)
}

/// The fault of the servers: that of the collection; else that of the first
/// server that has one by itself; else that of the first route that has one.
pub open spec fn servers_fault(
    servers: Seq<VirtualServerView>,
    files: Map<Text, PathKind>,
) -> Option<ConfigErrorView> {
    or_else(
        collection_fault(servers),
        or_else(first_fault(servers, server_check(files)), first_fault(servers, routes_check(files))),
    )
}

/// The first fault of a configuration, given what the file system holds;
/// `None` for a configuration that a server may start with.
pub open spec fn fault(config: ServerConfigView, files: Map<Text, PathKind>) -> Option<
    ConfigErrorView,
> {
    or_else(
        global_fault(config.global),
        or_else(pages_fault(config.error_pages, files), servers_fault(config.servers, files)),
    )
}

/// The path, where there is one.
pub open spec fn path_if(path: Option<Text>) -> Seq<Text> {
    match path {
        Some(p) => seq![p],
        None => Seq::empty(),
    }
}

/// The paths that the checks of `route` look at: its CGI executor, its
/// upload directory and its root, as far as they are set.
pub open spec fn route_paths(route: RouteView) -> Seq<Text> {
    path_if(
        match route.cgi {
            Some(cgi) => Some(cgi.executor),
            None => None,
        },
    ) + path_if(route.upload_dir) + path_if(route.root)
}

/// The paths that the checks of the first `n` of `routes` look at.
pub open spec fn routes_paths(routes: Seq<RouteView>, n: int) -> Seq<Text>
    decreases n,
{
    if n <= 0 {
        Seq::empty()
    } else {
        routes_paths(routes, n - 1) + route_paths(routes[n - 1])
    }
}

/// The paths that the checks of `server` and of its routes look at.
pub open spec fn server_paths(server: VirtualServerView) -> Seq<Text> {
    seq![server.root] + routes_paths(server.routes, server.routes.len() as int)
}

/// The paths that the checks of the first `n` of `servers` look at.
pub open spec fn servers_paths(servers: Seq<VirtualServerView>, n: int) -> Seq<Text>
    decreases n,
{
    if n <= 0 {
        Seq::empty()
    } else {
        servers_paths(servers, n - 1) + server_paths(servers[n - 1])
    }
}

/// The paths of the first `n` error pages.
pub open spec fn pages_paths(pages: Seq<(u16, Text)>, n: int) -> Seq<Text>
    decreases n,
{
    if n <= 0 {
        Seq::empty()
    } else {
        pages_paths(pages, n - 1).push(pages[n - 1].1)
    }
}

/// Every path that validation may look at: those of the error pages, then
/// those of the servers and their routes.
pub open spec fn paths_of(config: ServerConfigView) -> Seq<Text> {
    pages_paths(config.error_pages, config.error_pages.len() as int) + servers_paths(
        config.servers,
        config.servers.len() as int,
    )
}

/// Whether two strings hold the same text.
fn same_text(a: &str, b: &str) -> (eq: bool)
    ensures
        eq == (a@ == b@),
{
    same_chars(&chars_of(a), &chars_of(b))
}

/// Whether `method` is one of the six request methods that a route may name.
fn is_allowed_method(method: &str) -> (ok: bool)
    ensures
        ok == allowed_method(method@),
{
    same_text(method, "GET") || same_text(method, "POST") || same_text(method, "DELETE")
        || same_text(method, "PUT") || same_text(method, "HEAD") || same_text(method, "OPTIONS")
}

/// Whether `text` starts with the character `c`.
fn begins_with(text: &str, c: char) -> (ok: bool)
    ensures
        ok == (text@.len() > 0 && text@[0] == c),
{
    !text.is_empty() && text.get_char(0) == c
}

/// The pairs of host and port that the servers bind, in order.
fn collect_bindings(servers: &Vec<VirtualServer>) -> (pairs: Vec<(String, u16)>)
    ensures
        pairs.deep_view() == bindings(servers.deep_view(), servers@.len() as int),
{
    let ghost all = servers.deep_view();
    let mut pairs: Vec<(String, u16)> = Vec::new();
    assert(pairs.deep_view() =~= Seq::empty());
    let mut i: usize = 0;
    while i < servers.len()
        invariant
            i <= servers@.len(),
            all == servers.deep_view(),
            pairs.deep_view() == bindings(all, i as int),
        decreases servers@.len() - i,
    {
        let server = &servers[i];
        let ghost before = pairs.deep_view();
        let mut j: usize = 0;
        while j < server.ports.len()
            invariant
                j <= server.ports@.len(),
                server == servers@[i as int],
                pairs.deep_view() == before + bindings_of(server@).take(j as int),
            decreases server.ports@.len() - j,
        {
            let ghost old_pairs = pairs.deep_view();
            pairs.push((server.host.clone(), server.ports[j]));
            assert(pairs.deep_view() =~= old_pairs.push((server.host@, server.ports@[j as int])));
            assert(bindings_of(server@).take(j + 1) =~= bindings_of(server@).take(j as int).push(
                (server.host@, server.ports@[j as int]),
            ));
            assert(pairs.deep_view() =~= before + bindings_of(server@).take(j + 1));
            j = j + 1;
        }
        assert(bindings_of(server@).take(j as int) =~= bindings_of(server@));
        i = i + 1;
    }
    pairs
}

/// The index of the first pair that repeats an earlier one, or `pairs.len()`.
fn find_repeat(pairs: &Vec<(String, u16)>) -> (k: usize)
    ensures
        k == first_repeat(pairs.deep_view()),
        k <= pairs@.len(),
{
    let ghost view = pairs.deep_view();
    let mut j: usize = 0;
    while j < pairs.len()
        invariant
            j <= pairs@.len(),
            view == pairs.deep_view(),
            forall|m: int| 0 <= m < j ==> !#[trigger] repeats_at(view)(m),
        decreases pairs@.len() - j,
    {
        let mut i: usize = 0;
        while i < j
            invariant
                i <= j < pairs@.len(),
                view == pairs.deep_view(),
                forall|m: int| 0 <= m < j ==> !#[trigger] repeats_at(view)(m),
                forall|m: int| 0 <= m < i ==> #[trigger] view[m] != view[j as int],
            decreases j - i,
        {
            if pairs[i].1 == pairs[j].1 && pairs[i].0 == pairs[j].0 {
                proof {
                    assert(view[i as int] == view[j as int]);
                    assert(repeats_at(view)(j as int));
                    lemma_first_index_is(0, view.len() as int, repeats_at(view), j as int);
                }
                return j;
            }
            i = i + 1;
        }
        assert(!repeats_at(view)(j as int));
        j = j + 1;
    }
    proof {
        lemma_first_index_is(0, view.len() as int, repeats_at(view), j as int);
    }
    j
}

/// The validator.
pub struct ConfigValidator;

impl ConfigValidator {
    /// Every path that `validate` may look at for `config`. What the file
    /// system holds at these paths decides the outcome of `validate`.
    pub fn paths(config: &ServerConfig) -> (out: Vec<String>)
        ensures
            out.deep_view() == paths_of(config@),
    {
        let ghost pages = config@.error_pages;
        let ghost servers = config@.servers;
        let mut out: Vec<String> = Vec::new();
        assert(out.deep_view() =~= Seq::empty());
        let mut i: usize = 0;
        while i < config.error_pages.len()
            invariant
                i <= config.error_pages@.len(),
                pages == config.error_pages.deep_view(),
                out.deep_view() == pages_paths(pages, i as int),
            decreases config.error_pages@.len() - i,
        {
            let ghost before = out.deep_view();
            out.push(config.error_pages[i].1.clone());
            assert(out.deep_view() =~= before.push(pages[i as int].1));
            i = i + 1;
        }
        let ghost first = out.deep_view();
        assert(out.deep_view() =~= first + servers_paths(servers, 0));
        let mut i: usize = 0;
        while i < config.servers.len()
            invariant
                i <= config.servers@.len(),
                servers == config.servers.deep_view(),
                out.deep_view() == first + servers_paths(servers, i as int),
            decreases config.servers@.len() - i,
        {
            let server = &config.servers[i];
            let ghost routes = server@.routes;
            let ghost before = out.deep_view();
            out.push(server.root.clone());
            assert(out.deep_view() =~= before + (seq![server@.root] + routes_paths(routes, 0)));
            let mut j: usize = 0;
            while j < server.routes.len()
                invariant
                    j <= server.routes@.len(),
                    routes == server.routes.deep_view(),
                    routes == server@.routes,
                    out.deep_view() == before + (seq![server@.root] + routes_paths(
                        routes,
                        j as int,
                    )),
                decreases server.routes@.len() - j,
            {
                let route = &server.routes[j];
                let ghost so_far = out.deep_view();
                match &route.cgi {
                    Some(cgi) => {
                        out.push(cgi.executor.clone());
                    },
                    None => {},
                }
                match &route.upload_dir {
                    Some(dir) => {
                        out.push(dir.clone());
                    },
                    None => {},
                }
                match &route.root {
                    Some(root) => {
                        out.push(root.clone());
                    },
                    None => {},
                }
                assert(out.deep_view() =~= so_far + route_paths(route@));
                assert(so_far + route_paths(route@) =~= before + (seq![server@.root]
                    + routes_paths(routes, j + 1)));
                j = j + 1;
            }
            assert(out.deep_view() =~= first + servers_paths(servers, i + 1));
            i = i + 1;
        }
        out
    }

    /// Checks a configuration against what `files` says of the file system,
    /// and returns its first fault.
    pub fn validate(config: &ServerConfig, files: &PathTable) -> (out: Result<(), ConfigError>)
        ensures
            verdict(out) == fault(config@, files@),
    {
        match Self::validate_global(&config.global) {
            Err(e) => {
                return Err(e);
            },
            Ok(_) => {},
        }
        match Self::validate_error_pages(&config.error_pages, files) {
            Err(e) => {
                return Err(e);
            },
            Ok(_) => {},
        }
        Self::validate_servers(&config.servers, files)
    }

    /// Checks the global limits: both must be positive.
    pub fn validate_global(global: &GlobalConfig) -> (out: Result<(), ConfigError>)
        ensures
            verdict(out) == global_fault(*global),
    {
        if global.max_body_size == 0 {
            return Err(
                ConfigError::InvalidValue {
                    entity: "global".to_owned(),
                    field: Field::MaxBodySize,
                    raw: "0".to_owned(),
                },
            );
        }
        if global.timeout == 0 {
            return Err(
                ConfigError::InvalidValue {
                    entity: "global".to_owned(),
                    field: Field::Timeout,
                    raw: "0".to_owned(),
                },
            );
        }
        Ok(())
    }

    /// Checks the error pages in their order: each must be a regular file.
    pub fn validate_error_pages(pages: &Vec<(u16, String)>, files: &PathTable) -> (out: Result<
        (),
        ConfigError,
    >)
        ensures
            verdict(out) == pages_fault(pages.deep_view(), files@),
    {
        let ghost view = pages.deep_view();
        let mut i: usize = 0;
        while i < pages.len()
            invariant
                i <= pages@.len(),
                view == pages.deep_view(),
                forall|j: int| 0 <= j < i ==> page_check(files@)(#[trigger] view[j]) is None,
            decreases pages@.len() - i,
        {
            let path = &pages[i].1;
            if files.kind_of(path.as_str()) != PathKind::File {
                proof {
                    lemma_first_fault_at(view, page_check(files@), i as int);
                }
                return Err(ConfigError::Filesystem { path: path.clone(), expected: PathNeed::File });
            }
            i = i + 1;
        }
        proof {
            lemma_first_fault_none(view, page_check(files@));
        }
        Ok(())
    }

    /// Checks the servers: first as a collection, then each by itself, then
    /// the routes of each.
    pub fn validate_servers(servers: &Vec<VirtualServer>, files: &PathTable) -> (out: Result<
        (),
        ConfigError,
    >)
        ensures
            verdict(out) == servers_fault(servers.deep_view(), files@),
    {
        let ghost view = servers.deep_view();
        if servers.len() == 0 {
            return Err(
                ConfigError::MissingField { entity: "config".to_owned(), field: Field::Servers },
            );
        }
        let pairs = collect_bindings(servers);
        let k = find_repeat(&pairs);
        if k < pairs.len() {
            return Err(ConfigError::PortConflict { host: pairs[k].0.clone(), port: pairs[k].1 });
        }
        let mut defaults: usize = 0;
        let mut i: usize = 0;
        while i < servers.len()
            invariant
                i <= servers@.len(),
                view == servers.deep_view(),
                defaults == default_count(view, i as int),
                defaults <= i,
            decreases servers@.len() - i,
        {
            if servers[i].is_default {
                defaults = defaults + 1;
            }
            i = i + 1;
        }
        if defaults == 0 {
            return Err(ConfigError::NoDefaultServer);
        }
        if defaults > 1 {
            return Err(ConfigError::MultipleDefaultServers);
        }
        assert(collection_fault(view) is None);
        let mut i: usize = 0;
        while i < servers.len()
            invariant
                i <= servers@.len(),
                view == servers.deep_view(),
                collection_fault(view) is None,
                forall|j: int| 0 <= j < i ==> server_check(files@)(#[trigger] view[j]) is None,
            decreases servers@.len() - i,
        {
            match Self::validate_server(&servers[i], files) {
                Err(e) => {
                    proof {
                        lemma_first_fault_at(view, server_check(files@), i as int);
                    }
                    return Err(e);
                },
                Ok(_) => {},
            }
            i = i + 1;
        }
        proof {
            lemma_first_fault_none(view, server_check(files@));
        }
        let mut i: usize = 0;
        while i < servers.len()
            invariant
                i <= servers@.len(),
                view == servers.deep_view(),
                collection_fault(view) is None,
                first_fault(view, server_check(files@)) is None,
                forall|j: int| 0 <= j < i ==> routes_check(files@)(#[trigger] view[j]) is None,
            decreases servers@.len() - i,
        {
            match Self::validate_routes(&servers[i], files) {
                Err(e) => {
                    proof {
                        lemma_first_fault_at(view, routes_check(files@), i as int);
                    }
                    return Err(e);
                },
                Ok(_) => {},
            }
            i = i + 1;
        }
        proof {
            lemma_first_fault_none(view, routes_check(files@));
        }
        Ok(())
    }

    /// Checks one server by itself: its host, its ports and its root.
    pub fn validate_server(server: &VirtualServer, files: &PathTable) -> (out: Result<
        (),
        ConfigError,
    >)
        ensures
            verdict(out) == server_fault(server@, files@),
    {
        if server.host.as_str().is_empty() {
            return Err(
                ConfigError::InvalidValue {
                    entity: server.name.clone(),
                    field: Field::Host,
                    raw: server.host.clone(),
                },
            );
        }
        if server.ports.len() == 0 {
            return Err(
                ConfigError::MissingField { entity: server.name.clone(), field: Field::Ports },
            );
        }
        let mut i: usize = 0;
        while i < server.ports.len()
            invariant
                i <= server.ports@.len(),
                server.host@.len() > 0,
                forall|j: int| 0 <= j < i ==> server.ports@[j] != 0,
            decreases server.ports@.len() - i,
        {
            if server.ports[i] == 0 {
                assert(server@.ports[i as int] == 0u16);
                return Err(
                    ConfigError::InvalidValue {
                        entity: server.name.clone(),
                        field: Field::Ports,
                        raw: "0".to_owned(),
                    },
                );
            }
            i = i + 1;
        }
        assert(!server@.ports.contains(0u16));
        if files.kind_of(server.root.as_str()) != PathKind::Directory {
            return Err(
                ConfigError::Filesystem {
                    path: server.root.clone(),
                    expected: PathNeed::Directory,
                },
            );
        }
        Ok(())
    }

    /// Checks the routes of one server, in order.
    pub fn validate_routes(server: &VirtualServer, files: &PathTable) -> (out: Result<
        (),
        ConfigError,
    >)
        ensures
            verdict(out) == routes_fault(server@, files@),
    {
        let ghost view = server.routes.deep_view();
        let mut i: usize = 0;
        while i < server.routes.len()
            invariant
                i <= server.routes@.len(),
                view == server.routes.deep_view(),
                forall|j: int| 0 <= j < i ==> route_check(files@)(#[trigger] view[j]) is None,
            decreases server.routes@.len() - i,
        {
            match Self::validate_route(&server.routes[i], files) {
                Err(e) => {
                    proof {
                        lemma_first_fault_at(view, route_check(files@), i as int);
                    }
                    return Err(e);
                },
                Ok(_) => {},
            }
            i = i + 1;
        }
        proof {
            lemma_first_fault_none(view, route_check(files@));
        }
        Ok(())
    }

    /// Checks one route: its path, its methods, its CGI setting, its
    /// redirect, its upload directory and its root, in this order.
    pub fn validate_route(route: &Route, files: &PathTable) -> (out: Result<(), ConfigError>)
        ensures
            verdict(out) == route_fault(route@, files@),
    {
        if !begins_with(route.path.as_str(), '/') {
            return Err(
                ConfigError::InvalidValue {
                    entity: route.path.clone(),
                    field: Field::Path,
                    raw: route.path.clone(),
                },
            );
        }
        if route.methods.len() == 0 {
            return Err(
                ConfigError::MissingField { entity: route.path.clone(), field: Field::Methods },
            );
        }
        let ghost methods = route@.methods;
        let mut i: usize = 0;
        while i < route.methods.len()
            invariant
                i <= route.methods@.len(),
                methods == route.methods.deep_view(),
                route.path@.len() > 0 && route.path@[0] == '/',
                forall|j: int| 0 <= j < i ==> !#[trigger] bad_method_at(methods)(j),
            decreases route.methods@.len() - i,
        {
            if !is_allowed_method(route.methods[i].as_str()) {
                proof {
                    lemma_first_index_is(
                        0,
                        methods.len() as int,
                        bad_method_at(methods),
                        i as int,
                    );
                }
                return Err(
                    ConfigError::InvalidValue {
                        entity: route.path.clone(),
                        field: Field::Methods,
                        raw: route.methods[i].clone(),
                    },
                );
            }
            i = i + 1;
        }
        proof {
            lemma_first_index_is(0, methods.len() as int, bad_method_at(methods), i as int);
        }
        assert(methods_fault(route@.path, methods) is None);
        match &route.cgi {
            Some(cgi) => {
                if files.kind_of(cgi.executor.as_str()) == PathKind::Missing {
                    return Err(
                        ConfigError::Filesystem {
                            path: cgi.executor.clone(),
                            expected: PathNeed::Present,
                        },
                    );
                }
                if !begins_with(cgi.extension.as_str(), '.') {
                    return Err(
                        ConfigError::InvalidValue {
                            entity: route.path.clone(),
                            field: Field::CgiExtension,
                            raw: cgi.extension.clone(),
                        },
                    );
                }
            },
            None => {},
        }
        match &route.redirect {
            Some(redirect) => {
                let s = redirect.status;
                if !(s == 301 || s == 302 || s == 303 || s == 307 || s == 308) {
                    return Err(
                        ConfigError::InvalidValue {
                            entity: route.path.clone(),
                            field: Field::RedirectStatus,
                            raw: write_decimal(s as u64),
                        },
                    );
                }
                if redirect.target.as_str().is_empty() {
                    return Err(
                        ConfigError::InvalidValue {
                            entity: route.path.clone(),
                            field: Field::RedirectTarget,
                            raw: redirect.target.clone(),
                        },
                    );
                }
            },
            None => {},
        }
        match &route.upload_dir {
            Some(dir) => {
                if files.kind_of(dir.as_str()) != PathKind::Directory {
                    return Err(
                        ConfigError::Filesystem {
                            path: dir.clone(),
                            expected: PathNeed::Directory,
                        },
                    );
                }
            },
            None => {},
        }
        match &route.root {
            Some(root) => {
                if files.kind_of(root.as_str()) == PathKind::Missing {
                    return Err(
                        ConfigError::Filesystem { path: root.clone(), expected: PathNeed::Present },
                    );
                }
            },
            None => {},
        }
        Ok(())
    }
}

} // verus!
