//! The builder: from the section mapping to the typed configuration.
//!
//! The sections `global` and `error_pages` are read first, then every
//! section `server:<name>` in the order of the mapping, then every section
//! `route:<server>:<id>` in that order. The first failure ends the build.

use crate::error::{outcome, ConfigError, ConfigErrorView, Field, Text};
use crate::files::{PathKind, PathTable};
use crate::models::{
    CgiConfig, CgiConfigView, GlobalConfig, Redirect, RedirectView, Route, RouteView,
    ServerConfig, ServerConfigView, VirtualServer, VirtualServerView,
};
use crate::parser::{parse, IniParser};
use crate::sections::{
    find_section, holds_key, key_slot, lookup, put, Section, SectionView, Sections,
};
use crate::text::{
    chars_of, copy_range, find_from, first_index, lemma_chars_deep_view, lemma_first_index_is,
    parse_flag, parse_unsigned, position, read_flag, read_unsigned, split, split_on, string_of,
    strip_prefix, trim, trimmed, upper_of, uppercase, without_prefix,
};
use crate::validator::{fault, ConfigValidator};
use vstd::prelude::*;

verus! {

/// The truth value that `entries` give to `key`, if they give one.
pub open spec fn flag_at(entries: Seq<(Text, Text)>, key: Text) -> Option<bool> {
    match lookup(entries, key) {
        Some(v) => parse_flag(v),
        None => None,
    }
}

/// The unsigned number up to `max` that `entries` give to `key`, if they give
/// one.
pub open spec fn unsigned_at(entries: Seq<(Text, Text)>, key: Text, max: nat) -> Option<nat> {
    match lookup(entries, key) {
        Some(v) => parse_unsigned(v, max),
        None => None,
    }
}

/// The limits that the section `global` sets. A key that is missing, or
/// whose value is no number or truth value, leaves the initial limit.
pub open spec fn global_of(entries: Seq<(Text, Text)>) -> GlobalConfig {
    GlobalConfig {
        max_body_size: match unsigned_at(entries, "max_body_size"@, usize::MAX as nat) {
            Some(n) => n as usize,
            None => 1_048_576,
        },
        timeout: match unsigned_at(entries, "timeout"@, u64::MAX as nat) {
            Some(n) => n as u64,
            None => 30,
        },
        keep_alive: match flag_at(entries, "keep_alive"@) {
            Some(b) => b,
            None => true,
        },
    }
}

/// The error pages that the first `n` entries of the section `error_pages`
/// set. Every key must be a status code; a code that comes again replaces
/// the page and keeps its place.
pub open spec fn pages_upto(entries: Seq<(Text, Text)>, n: int) -> Result<
    Seq<(u16, Text)>,
    ConfigErrorView,
>
    decreases n,
{
    if n <= 0 {
        Ok(Seq::empty())
    } else {
        match pages_upto(entries, n - 1) {
            Ok(pages) => match parse_unsigned(entries[n - 1].0, 65535) {
                Some(code) => Ok(put(pages, code as u16, entries[n - 1].1)),
                None => Err(
                    ConfigErrorView::InvalidValue {
                        entity: "error_pages"@,
                        field: Field::ErrorCode,
                        raw: entries[n - 1].0,
                    },
                ),
            },
            Err(e) => Err(e),
        }
    }
}

/// The error pages that the section `error_pages` sets.
pub open spec fn pages_of(entries: Seq<(Text, Text)>) -> Result<Seq<(u16, Text)>, ConfigErrorView> {
    pages_upto(entries, entries.len() as int)
}

/// The ports among the first `n` of `items`: each item is trimmed, and one
/// that is no number up to 65535 is left out.
pub open spec fn ports_upto(items: Seq<Text>, n: int) -> Seq<u16>
    decreases n,
{
    if n <= 0 {
        Seq::empty()
    } else {
        match parse_unsigned(trim(items[n - 1]), 65535) {
            Some(port) => ports_upto(items, n - 1).push(port as u16),
            None => ports_upto(items, n - 1),
        }
    }
}

/// The ports that the comma-separated list `value` names.
pub open spec fn ports_of(value: Text) -> Seq<u16> {
    let items = split(value, ',');
    ports_upto(items, items.len() as int)
}

/// The server that the section `server:<name>` with these entries declares.
/// `host` and `ports` are required.
pub open spec fn server_of(name: Text, entries: Seq<(Text, Text)>) -> Result<
    VirtualServerView,
    ConfigErrorView,
> {
    match lookup(entries, "host"@) {
        None => Err(ConfigErrorView::MissingField { entity: name, field: Field::Host }),
        Some(host) => match lookup(entries, "ports"@) {
            None => Err(ConfigErrorView::MissingField { entity: name, field: Field::Ports }),
            Some(ports) => Ok(
                VirtualServerView {
                    name,
                    host,
                    ports: ports_of(ports),
                    is_default: match flag_at(entries, "default"@) {
                        Some(b) => b,
                        None => false,
                    },
                    root: match lookup(entries, "root"@) {
                        Some(root) => root,
                        None => "./www"@,
                    },
                    routes: Seq::empty(),
                },
            ),
        },
    }
}

/// The methods that the comma-separated list `value` names: each item
/// trimmed and in upper case.
pub open spec fn methods_of(value: Text) -> Seq<Text> {
    let items = split(value, ',');
    Seq::new(items.len(), |i: int| uppercase(trim(items[i])))
}

/// The CGI setting of a route: there is one where both keys are there.
pub open spec fn cgi_of(entries: Seq<(Text, Text)>) -> Option<CgiConfigView> {
    match (lookup(entries, "cgi_extension"@), lookup(entries, "cgi_executor"@)) {
        (Some(extension), Some(executor)) => Some(CgiConfigView { extension, executor }),
        _ => None,
    }
}

/// The redirect of the route in the section `section`: there is one where
/// both keys are there, and then the status must be a number up to 65535.
pub open spec fn redirect_of(section: Text, entries: Seq<(Text, Text)>) -> Result<
    Option<RedirectView>,
    ConfigErrorView,
> {
    match (lookup(entries, "redirect_status"@), lookup(entries, "redirect_target"@)) {
        (Some(status), Some(target)) => match parse_unsigned(status, 65535) {
            Some(code) => Ok(Some(RedirectView { status: code as u16, target })),
            None => Err(
                ConfigErrorView::InvalidValue {
                    entity: section,
                    field: Field::RedirectStatus,
                    raw: status,
                },
            ),
        },
        _ => Ok(None),
    }
}

/// The route that the section named `section` with these entries declares.
/// `path` is required.
pub open spec fn route_of(section: Text, entries: Seq<(Text, Text)>) -> Result<
    RouteView,
    ConfigErrorView,
> {
    match lookup(entries, "path"@) {
        None => Err(ConfigErrorView::MissingField { entity: section, field: Field::Path }),
        Some(path) => match redirect_of(section, entries) {
            Err(e) => Err(e),
            Ok(redirect) => Ok(
                RouteView {
                    path,
                    methods: match lookup(entries, "methods"@) {
                        Some(value) => methods_of(value),
                        None => seq!["GET"@],
                    },
                    root: lookup(entries, "root"@),
                    index: lookup(entries, "index"@),
                    redirect,
                    cgi: cgi_of(entries),
                    upload_dir: lookup(entries, "upload_dir"@),
                    autoindex: match flag_at(entries, "autoindex"@) {
                        Some(b) => b,
                        None => false,
                    },
                    max_file_size: match unsigned_at(
                        entries,
                        "max_file_size"@,
                        usize::MAX as nat,
                    ) {
                        Some(n) => Some(n as usize),
                        None => None,
                    },
                },
            ),
        },
    }
}

/// The predicate "server `i` has the name `name`".
pub open spec fn holds_server(servers: Seq<VirtualServerView>, name: Text) -> spec_fn(int) -> bool {
    |i: int| servers[i].name == name
}

/// The index of the first server named `name`, or `servers.len()`.
pub open spec fn server_slot(servers: Seq<VirtualServerView>, name: Text) -> int {
    first_index(0, servers.len() as int, holds_server(servers, name))
}

/// `servers` with `server` in it: in place of the one of its name where
/// there is one, at the end where there is none.
pub open spec fn put_server(servers: Seq<VirtualServerView>, server: VirtualServerView) -> Seq<
    VirtualServerView,
> {
    let k = server_slot(servers, server.name);
    if 0 <= k < servers.len() {
        servers.update(k, server)
    } else {
        servers.push(server)
    }
}

/// `server` with `route` after its other routes.
pub open spec fn with_route(server: VirtualServerView, route: RouteView) -> VirtualServerView {
    VirtualServerView {
        name: server.name,
        host: server.host,
        ports: server.ports,
        is_default: server.is_default,
        root: server.root,
        routes: server.routes.push(route),
    }
}

/// `servers` with `route` given to the server named `owner`; unchanged where
/// no server has that name.
pub open spec fn attach(servers: Seq<VirtualServerView>, owner: Text, route: RouteView) -> Seq<
    VirtualServerView,
> {
    let k = server_slot(servers, owner);
    if 0 <= k < servers.len() {
        servers.update(k, with_route(servers[k], route))
    } else {
        servers
    }
}

/// The servers that the first `n` sections declare.
pub open spec fn servers_upto(sections: Seq<SectionView>, n: int) -> Result<
    Seq<VirtualServerView>,
    ConfigErrorView,
>
    decreases n,
{
    if n <= 0 {
        Ok(Seq::empty())
    } else {
        match servers_upto(sections, n - 1) {
            Ok(servers) => match strip_prefix(sections[n - 1].name, "server:"@) {
                Some(name) => match server_of(name, sections[n - 1].entries) {
                    Ok(server) => Ok(put_server(servers, server)),
                    Err(e) => Err(e),
                },
                None => Ok(servers),
            },
            Err(e) => Err(e),
        }
    }
}

/// The server that owns the route of a section named `route:<rest>`: what
/// stands before the first colon of `rest`. Without a colon there is none.
pub open spec fn owner_of(rest: Text) -> Option<Text> {
    let k = position(rest, ':');
    if 0 <= k < rest.len() {
        Some(rest.take(k))
    } else {
        None
    }
}

/// `servers` with the routes that the first `n` sections declare. A route
/// whose owner is not among the servers is read and then dropped.
pub open spec fn routes_upto(
    sections: Seq<SectionView>,
    n: int,
    servers: Seq<VirtualServerView>,
) -> Result<Seq<VirtualServerView>, ConfigErrorView>
    decreases n,
{
    if n <= 0 {
        Ok(servers)
    } else {
        match routes_upto(sections, n - 1, servers) {
            Ok(acc) => match strip_prefix(sections[n - 1].name, "route:"@) {
                Some(rest) => match owner_of(rest) {
                    Some(owner) => match route_of(sections[n - 1].name, sections[n - 1].entries) {
                        Ok(route) => Ok(attach(acc, owner, route)),
                        Err(e) => Err(e),
                    },
                    None => Ok(acc),
                },
                None => Ok(acc),
            },
            Err(e) => Err(e),
        }
    }
}

/// The limits of the mapping: those of its section `global`, or the initial
/// ones where it has none.
pub open spec fn global_in(sections: Seq<SectionView>) -> GlobalConfig {
    match find_section(sections, "global"@) {
        Some(s) => global_of(s.entries),
        None => GlobalConfig::initial(),
    }
}

/// The error pages of the mapping: those of its section `error_pages`, or
/// none where it has no such section.
pub open spec fn pages_in(sections: Seq<SectionView>) -> Result<Seq<(u16, Text)>, ConfigErrorView> {
    match find_section(sections, "error_pages"@) {
        Some(s) => pages_of(s.entries),
        None => Ok(Seq::empty()),
    }
}

/// The configuration that the section mapping denotes, or the first failure.
pub open spec fn build(sections: Seq<SectionView>) -> Result<ServerConfigView, ConfigErrorView> {
    let global = global_in(sections);
    match pages_in(sections) {
        Err(e) => Err(e),
        Ok(error_pages) => match servers_upto(sections, sections.len() as int) {
            Err(e) => Err(e),
            Ok(bare) => match routes_upto(sections, sections.len() as int, bare) {
                Err(e) => Err(e),
                Ok(servers) => Ok(ServerConfigView { global, servers, error_pages }),
            },
        },
    }
}

/// The configuration that `text` denotes, before it is checked.
pub open spec fn build_text(text: Text) -> Result<ServerConfigView, ConfigErrorView> {
    match parse(text) {
        Ok(sections) => build(sections),
        Err(e) => Err(e),
    }
}

/// The configuration that `text` denotes, checked against what `files` says
/// of the file system: the first failure of parsing, of building or of
/// validation, or else the configuration.
pub open spec fn load_outcome(text: Text, files: Map<Text, PathKind>) -> Result<
    ServerConfigView,
    ConfigErrorView,
> {
    match build_text(text) {
        Ok(config) => match fault(config, files) {
            None => Ok(config),
            Some(e) => Err(e),
        },
        Err(e) => Err(e),
    }
}

/// A failure among the first `n` entries is the failure of all of them.
pub proof fn lemma_pages_failure_stays(entries: Seq<(Text, Text)>, n: int, m: int)
    requires
        0 <= n <= m,
        pages_upto(entries, n) is Err,
    ensures
        pages_upto(entries, m) == pages_upto(entries, n),
    decreases m - n,
{
    if n < m {
        lemma_pages_failure_stays(entries, n, m - 1);
    }
}

/// A failure among the first `n` sections is the failure of all of them.
pub proof fn lemma_servers_failure_stays(sections: Seq<SectionView>, n: int, m: int)
    requires
        0 <= n <= m,
        servers_upto(sections, n) is Err,
    ensures
        servers_upto(sections, m) == servers_upto(sections, n),
    decreases m - n,
{
    if n < m {
        lemma_servers_failure_stays(sections, n, m - 1);
    }
}

/// A failure among the first `n` sections is the failure of all of them.
pub proof fn lemma_routes_failure_stays(
    sections: Seq<SectionView>,
    n: int,
    m: int,
    servers: Seq<VirtualServerView>,
)
    requires
        0 <= n <= m,
        routes_upto(sections, n, servers) is Err,
    ensures
        routes_upto(sections, m, servers) == routes_upto(sections, n, servers),
    decreases m - n,
{
    if n < m {
        lemma_routes_failure_stays(sections, n, m - 1, servers);
    }
}

/// The truth value that `data` gives to `key`, if it gives one.
fn get_flag(data: &Section, key: &str) -> (out: Option<bool>)
    ensures
        out == flag_at(data@.entries, key@),
{
    match data.get(key) {
        Some(v) => read_flag(&chars_of(v.as_str())),
        None => None,
    }
}

/// The unsigned number up to `max` that `data` gives to `key`, if it gives
/// one.
fn get_unsigned(data: &Section, key: &str, max: u64) -> (out: Option<u64>)
    ensures
        match out {
            Some(n) => unsigned_at(data@.entries, key@, max as nat) == Some(n as nat),
            None => unsigned_at(data@.entries, key@, max as nat) is None,
        },
{
    match data.get(key) {
        Some(v) => read_unsigned(&chars_of(v.as_str()), max),
        None => None,
    }
}

/// A copy of the value that `data` gives to `key`, if it gives one.
fn get_text(data: &Section, key: &str) -> (out: Option<String>)
    ensures
        out.deep_view() == lookup(data@.entries, key@),
{
    match data.get(key) {
        Some(v) => Some(v.clone()),
        None => None,
    }
}

/// The ports that the comma-separated list `value` names.
fn read_ports(value: &str) -> (ports: Vec<u16>)
    ensures
        ports@ == ports_of(value@),
{
    let items = split_on(&chars_of(value), ',');
    let ghost texts = split(value@, ',');
    let mut ports: Vec<u16> = Vec::new();
    let mut i: usize = 0;
    while i < items.len()
        invariant
            i <= items@.len(),
            items.deep_view() == texts,
            ports@ == ports_upto(texts, i as int),
        decreases items@.len() - i,
    {
        proof {
            lemma_chars_deep_view(items@[i as int]);
        }
        match read_unsigned(&trimmed(&items[i]), 65535) {
            Some(port) => {
                ports.push(port as u16);
            },
            None => {},
        }
        i = i + 1;
    }
    ports
}

/// The methods that the comma-separated list `value` names.
fn read_methods(value: &str) -> (methods: Vec<String>)
    ensures
        methods.deep_view() == methods_of(value@),
{
    let items = split_on(&chars_of(value), ',');
    let ghost texts = split(value@, ',');
    let mut methods: Vec<String> = Vec::new();
    let mut i: usize = 0;
    while i < items.len()
        invariant
            i <= items@.len(),
            items.deep_view() == texts,
            methods@.len() == i,
            forall|j: int| 0 <= j < i ==> (#[trigger] methods@[j])@ == uppercase(trim(texts[j])),
        decreases items@.len() - i,
    {
        proof {
            lemma_chars_deep_view(items@[i as int]);
        }
        methods.push(upper_of(&trimmed(&items[i])));
        i = i + 1;
    }
    assert(methods.deep_view() =~= methods_of(value@));
    methods
}

/// The index of the page for `code`, or `pages.len()`.
fn page_slot(pages: &Vec<(u16, String)>, code: u16) -> (k: usize)
    ensures
        k == key_slot(pages.deep_view(), code),
        k <= pages@.len(),
{
    let ghost view = pages.deep_view();
    let mut i: usize = 0;
    while i < pages.len()
        invariant
            i <= pages@.len(),
            view == pages.deep_view(),
            forall|j: int| 0 <= j < i ==> !#[trigger] holds_key(view, code)(j),
        decreases pages@.len() - i,
    {
        if pages[i].0 == code {
            proof {
                lemma_first_index_is(0, view.len() as int, holds_key(view, code), i as int);
            }
            return i;
        }
        i = i + 1;
    }
    proof {
        lemma_first_index_is(0, view.len() as int, holds_key(view, code), i as int);
    }
    i
}

/// The index of the server named `name`, or `servers.len()`.
fn find_server(servers: &Vec<VirtualServer>, name: &String) -> (k: usize)
    ensures
        k == server_slot(servers.deep_view(), name@),
        k <= servers@.len(),
{
    let ghost view = servers.deep_view();
    let mut i: usize = 0;
    while i < servers.len()
        invariant
            i <= servers@.len(),
            view == servers.deep_view(),
            forall|j: int| 0 <= j < i ==> !#[trigger] holds_server(view, name@)(j),
        decreases servers@.len() - i,
    {
        if servers[i].name == *name {
            proof {
                lemma_first_index_is(0, view.len() as int, holds_server(view, name@), i as int);
            }
            return i;
        }
        i = i + 1;
    }
    proof {
        lemma_first_index_is(0, view.len() as int, holds_server(view, name@), i as int);
    }
    i
}

/// The builder.
pub struct ConfigLoader;

impl ConfigLoader {
    /// Reads the text of a configuration: parses it, builds it and checks it
    /// against what `files` says of the file system. Returns the
    /// configuration where every stage passes, and else the first failure.
    pub fn load(content: &str, files: &PathTable) -> (out: Result<ServerConfig, ConfigError>)
        ensures
            outcome(out) == load_outcome(content@, files@),
            out is Ok ==> out->Ok_0@.well_formed(),
    {
        let config = match Self::read(content) {
            Ok(config) => config,
            Err(e) => {
                return Err(e);
            },
        };
        match ConfigValidator::validate(&config, files) {
            Ok(_) => Ok(config),
            Err(e) => Err(e),
        }
    }

    /// Parses and builds the text of a configuration, without checking it.
    pub fn read(content: &str) -> (out: Result<ServerConfig, ConfigError>)
        ensures
            outcome(out) == build_text(content@),
            out is Ok ==> out->Ok_0@.well_formed(),
    {
        match IniParser::parse_str(content) {
            Ok(sections) => Self::build_config(&sections),
            Err(e) => Err(e),
        }
    }

    /// Builds the configuration that the section mapping denotes. Fails on
    /// an error page whose key is no status code, on a server without `host`
    /// or `ports`, and on a route without `path` or with a redirect status
    /// that is no number.
    pub fn build_config(sections: &Sections) -> (out: Result<ServerConfig, ConfigError>)
        ensures
            outcome(out) == build(sections@),
            out is Ok ==> out->Ok_0@.well_formed(),
    {
        let global = match sections.get("global") {
            Some(s) => match Self::parse_global(s) {
                Ok(g) => g,
                Err(e) => {
                    return Err(e);
                },
            },
            None => GlobalConfig::default(),
        };
        let error_pages = match sections.get("error_pages") {
            Some(s) => match Self::parse_error_pages(s) {
                Ok(pages) => pages,
                Err(e) => {
                    return Err(e);
                },
            },
            None => {
                let pages: Vec<(u16, String)> = Vec::new();
                assert(pages.deep_view() =~= Seq::empty());
                pages
            },
        };
        let n = sections.len();
        let server_prefix = chars_of("server:");
        let mut servers: Vec<VirtualServer> = Vec::new();
        assert(servers.deep_view() =~= Seq::empty());
        let mut i: usize = 0;
        while i < n
            invariant
                i <= n == sections@.len(),
                server_prefix@ == "server:"@,
                pages_in(sections@) is Ok,
                servers_upto(sections@, i as int) == Ok::<
                    Seq<VirtualServerView>,
                    ConfigErrorView,
                >(servers.deep_view()),
            decreases n - i,
        {
            let section = &sections.items[i];
            match without_prefix(&chars_of(section.name.as_str()), &server_prefix) {
                Some(name) => {
                    proof {
                        lemma_chars_deep_view(name);
                    }
                    let name = string_of(&name);
                    match Self::parse_server(name.as_str(), section) {
                        Ok(server) => {
                            let k = find_server(&servers, &name);
                            let ghost before = servers.deep_view();
                            if k < servers.len() {
                                servers[k] = server;
                            } else {
                                servers.push(server);
                            }
                            assert(servers.deep_view() =~= put_server(before, server@));
                        },
                        Err(e) => {
                            proof {
                                lemma_servers_failure_stays(sections@, i + 1, n as int);
                            }
                            return Err(e);
                        },
                    }
                },
                None => {},
            }
            i = i + 1;
        }
        let ghost bare = servers.deep_view();
        let route_prefix = chars_of("route:");
        let mut i: usize = 0;
        while i < n
            invariant
                i <= n == sections@.len(),
                route_prefix@ == "route:"@,
                pages_in(sections@) is Ok,
                servers_upto(sections@, n as int) == Ok::<Seq<VirtualServerView>, ConfigErrorView>(
                    bare,
                ),
                routes_upto(sections@, i as int, bare) == Ok::<
                    Seq<VirtualServerView>,
                    ConfigErrorView,
                >(servers.deep_view()),
            decreases n - i,
        {
            let section = &sections.items[i];
            match without_prefix(&chars_of(section.name.as_str()), &route_prefix) {
                Some(rest) => {
                    proof {
                        lemma_chars_deep_view(rest);
                    }
                    let k = find_from(&rest, 0, ':');
                    if k < rest.len() {
                        let owner = string_of(&copy_range(&rest, 0, k));
                        assert(rest@.take(k as int) =~= rest@.subrange(0, k as int));
                        match Self::parse_route(section) {
                            Ok(route) => {
                                let at = find_server(&servers, &owner);
                                let ghost before = servers.deep_view();
                                if at < servers.len() {
                                    let ghost routes = servers@[at as int].routes.deep_view();
                                    servers[at].routes.push(route);
                                    assert(servers@[at as int].routes.deep_view() =~= routes.push(
                                        route@,
                                    ));
                                    assert(servers.deep_view() =~= attach(
                                        before,
                                        owner@,
                                        route@,
                                    ));
                                }
                            },
                            Err(e) => {
                                proof {
                                    lemma_routes_failure_stays(sections@, i + 1, n as int, bare);
                                }
                                return Err(e);
                            },
                        }
                    }
                },
                None => {},
            }
            i = i + 1;
        }
        proof {
            crate::theorems::theorem_built_is_distinct(sections@);
        }
        Ok(ServerConfig { global, servers, error_pages })
    }

    /// Reads the limits that the section `global` sets. A key that is
    /// missing, or whose value is no number or truth value, leaves the
    /// initial limit; nothing makes this fail.
    pub fn parse_global(data: &Section) -> (out: Result<GlobalConfig, ConfigError>)
        ensures
            out == Ok::<GlobalConfig, ConfigError>(global_of(data@.entries)),
    {
        let max_body_size: usize = match get_unsigned(data, "max_body_size", usize::MAX as u64) {
            Some(n) => n as usize,
            None => 1_048_576,
        };
        let timeout: u64 = match get_unsigned(data, "timeout", u64::MAX) {
            Some(n) => n,
            None => 30,
        };
        let keep_alive = match get_flag(data, "keep_alive") {
            Some(b) => b,
            None => true,
        };
        Ok(GlobalConfig { max_body_size, timeout, keep_alive })
    }

    /// Reads the error pages that the section `error_pages` sets. Fails on
    /// the first key that is no number up to 65535.
    pub fn parse_error_pages(data: &Section) -> (out: Result<Vec<(u16, String)>, ConfigError>)
        ensures
            match out {
                Ok(pages) => pages_of(data@.entries) == Ok::<Seq<(u16, Text)>, ConfigErrorView>(
                    pages.deep_view(),
                ),
                Err(e) => pages_of(data@.entries) == Err::<Seq<(u16, Text)>, ConfigErrorView>(e@),
            },
    {
        let ghost entries = data@.entries;
        let mut pages: Vec<(u16, String)> = Vec::new();
        assert(pages.deep_view() =~= Seq::empty());
        let mut i: usize = 0;
        while i < data.entries.len()
            invariant
                i <= data.entries@.len(),
                entries == data@.entries,
                pages_upto(entries, i as int) == Ok::<Seq<(u16, Text)>, ConfigErrorView>(
                    pages.deep_view(),
                ),
            decreases data.entries@.len() - i,
        {
            let key = &data.entries[i].0;
            match read_unsigned(&chars_of(key.as_str()), 65535) {
                Some(code) => {
                    let code = code as u16;
                    let path = data.entries[i].1.clone();
                    let k = page_slot(&pages, code);
                    let ghost before = pages.deep_view();
                    if k < pages.len() {
                        pages[k] = (code, path);
                    } else {
                        pages.push((code, path));
                    }
                    assert(pages.deep_view() =~= put(before, code, path@));
                },
                None => {
                    proof {
                        lemma_pages_failure_stays(entries, i + 1, entries.len() as int);
                    }
                    return Err(
                        ConfigError::InvalidValue {
                            entity: "error_pages".to_owned(),
                            field: Field::ErrorCode,
                            raw: key.clone(),
                        },
                    );
                },
            }
            i = i + 1;
        }
        Ok(pages)
    }

    /// Reads the server that the section `server:<name>` declares. Fails
    /// where `host` is missing, and then where `ports` is.
    pub fn parse_server(name: &str, data: &Section) -> (out: Result<VirtualServer, ConfigError>)
        ensures
            outcome(out) == server_of(name@, data@.entries),
    {
        let host = match get_text(data, "host") {
            Some(host) => host,
            None => {
                return Err(
                    ConfigError::MissingField { entity: name.to_owned(), field: Field::Host },
                );
            },
        };
        let ports = match data.get("ports") {
            Some(value) => read_ports(value.as_str()),
            None => {
                return Err(
                    ConfigError::MissingField { entity: name.to_owned(), field: Field::Ports },
                );
            },
        };
        let is_default = match get_flag(data, "default") {
            Some(b) => b,
            None => false,
        };
        let root = match get_text(data, "root") {
            Some(root) => root,
            None => "./www".to_owned(),
        };
        let routes: Vec<Route> = Vec::new();
        assert(routes.deep_view() =~= Seq::empty());
        Ok(VirtualServer { name: name.to_owned(), host, ports, is_default, root, routes })
    }

    /// Reads the route that the section `data` declares. Fails where `path`
    /// is missing, and then where a redirect is set whose status is no
    /// number up to 65535.
    pub fn parse_route(data: &Section) -> (out: Result<Route, ConfigError>)
        ensures
            outcome(out) == route_of(data@.name, data@.entries),
    {
        let path = match get_text(data, "path") {
            Some(path) => path,
            None => {
                return Err(
                    ConfigError::MissingField { entity: data.name.clone(), field: Field::Path },
                );
            },
        };
        let methods = match data.get("methods") {
            Some(value) => read_methods(value.as_str()),
            None => {
                let mut methods: Vec<String> = Vec::new();
                methods.push("GET".to_owned());
                assert(methods.deep_view() =~= seq!["GET"@]);
                methods
            },
        };
        let root = get_text(data, "root");
        let index = get_text(data, "index");
        let autoindex = match get_flag(data, "autoindex") {
            Some(b) => b,
            None => false,
        };
        let upload_dir = get_text(data, "upload_dir");
        let max_file_size: Option<usize> = match get_unsigned(
            data,
            "max_file_size",
            usize::MAX as u64,
        ) {
            Some(n) => Some(n as usize),
            None => None,
        };
        let cgi = match (get_text(data, "cgi_extension"), get_text(data, "cgi_executor")) {
            (Some(extension), Some(executor)) => Some(CgiConfig { extension, executor }),
            _ => None,
        };
        let redirect = match (get_text(data, "redirect_status"), get_text(data, "redirect_target")) {
            (Some(status), Some(target)) => {
                match read_unsigned(&chars_of(status.as_str()), 65535) {
                    Some(code) => Some(Redirect { status: code as u16, target }),
                    None => {
                        return Err(
                            ConfigError::InvalidValue {
                                entity: data.name.clone(),
                                field: Field::RedirectStatus,
                                raw: status,
                            },
                        );
                    },
                }
            },
            _ => None,
        };
        Ok(
            Route {
                path,
                methods,
                root,
                index,
                redirect,
                cgi,
                upload_dir,
                autoindex,
                max_file_size,
            },
        )
    }
}

} // verus!
