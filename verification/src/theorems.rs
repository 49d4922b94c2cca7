//! What holds of parsing, building and validation as a whole.

use crate::error::{outcome, ConfigError, ConfigErrorView, Field, Text};
use crate::files::{kind_at, PathKind};
use crate::loader::{
    attach, build, build_text, holds_server, load_outcome, pages_upto, ports_of, ports_upto,
    put_server, route_of, routes_upto, server_of, server_slot, servers_upto,
};
use crate::models::{
    distinct_servers, RedirectView, RouteView, ServerConfig, ServerConfigView, VirtualServerView,
};
use crate::parser::{parse, read_line, run, Line};
use crate::sections::{
    distinct_keys, lemma_put_keeps_distinct, lookup, well_formed, SectionView,
};
use crate::text::{
    all_digits, decimal, decimal_value, digit_char, digit_value, holds_ink, is_digit, is_space,
    lemma_first_index, lemma_first_index_is, lemma_trim_end, parse_unsigned, split, strip_prefix,
    trim, trim_end, trim_start,
};
use crate::validator::{
    allowed_status, bindings, bindings_of, cgi_fault, collection_fault, default_count, fault,
    faulty_at, first_fault, first_repeat, global_fault, methods_fault, page_check, pages_fault,
    pages_paths, path_if, paths_of, repeats_at, route_check, route_fault, route_paths,
    routes_check, routes_paths, server_check, server_paths, servers_paths,
};
use vstd::prelude::*;

verus! {

/// Trimming cuts white space and nothing else: what stands before the
/// trimmed text and after it is white space, and the trimmed text neither
/// starts nor ends with any.
pub proof fn theorem_trim_cuts_white_space_only(s: Text)
    ensures
        0 <= trim_start(s) <= s.len(),
        trim_start(s) + trim(s).len() <= s.len(),
        trim(s) == s.subrange(trim_start(s), trim_start(s) + trim(s).len()),
        forall|i: int| 0 <= i < trim_start(s) ==> is_space(#[trigger] s[i]),
        forall|i: int| trim_start(s) + trim(s).len() <= i < s.len() ==> is_space(#[trigger] s[i]),
        trim(s).len() > 0 ==> !is_space(trim(s)[0]) && !is_space(trim(s).last()),
{
    let n = s.len() as int;
    let a = trim_start(s);
    let b = trim_end(s, n);
    lemma_first_index(0, n, holds_ink(s));
    lemma_trim_end(s, n);
    assert forall|i: int| 0 <= i < a implies is_space(#[trigger] s[i]) by {
        assert(!holds_ink(s)(i));
    }
    if a < n {
        assert(holds_ink(s)(a));
        if b <= a {
            assert(is_space(s[a]));
        }
    } else if b > 0 {
        assert(is_space(s[b - 1]));
    }
    if a >= b {
        assert(trim(s) =~= s.subrange(a, a));
    }
}

/// Trimming what is trimmed changes nothing.
pub proof fn theorem_trim_is_idempotent(s: Text)
    ensures
        trim(trim(s)) == trim(s),
{
    let t = trim(s);
    theorem_trim_cuts_white_space_only(s);
    if t.len() > 0 {
        let n = t.len() as int;
        assert(holds_ink(t)(0));
        lemma_first_index_is(0, n, holds_ink(t), 0);
        assert(trim_end(t, n) == n);
        assert(t.subrange(0, n) =~= t);
    } else {
        lemma_first_index(0, 0, holds_ink(t));
    }
}

/// Reading is a function of the text: two results for one text are the same
/// failure, or configurations that are equal field for field, with their
/// servers and routes in the same order.
pub proof fn theorem_reading_is_deterministic(
    text: Text,
    first: Result<ServerConfig, ConfigError>,
    second: Result<ServerConfig, ConfigError>,
)
    requires
        outcome(first) == build_text(text),
        outcome(second) == build_text(text),
    ensures
        outcome(first) == outcome(second),
        first is Ok <==> second is Ok,
        first is Ok ==> first->Ok_0@ == second->Ok_0@,
        first is Err ==> first->Err_0@ == second->Err_0@,
{
}

/// Loading is a function of the text and of what the file system holds.
pub proof fn theorem_loading_is_deterministic(
    text: Text,
    files: Map<Text, PathKind>,
    first: Result<ServerConfig, ConfigError>,
    second: Result<ServerConfig, ConfigError>,
)
    requires
        outcome(first) == load_outcome(text, files),
        outcome(second) == load_outcome(text, files),
    ensures
        outcome(first) == outcome(second),
        first is Ok <==> second is Ok,
        first is Ok ==> first->Ok_0@ == second->Ok_0@,
        first is Err ==> first->Err_0@ == second->Err_0@,
{
}

/// What loading returns has passed every check.
pub proof fn theorem_loaded_is_valid(text: Text, files: Map<Text, PathKind>)
    requires
        load_outcome(text, files) is Ok,
    ensures
        build_text(text) == load_outcome(text, files),
        fault(load_outcome(text, files)->Ok_0, files) is None,
{
}

/// In a section mapping that was parsed, no name occurs twice, and in no
/// section a key.
pub proof fn theorem_parsed_is_well_formed(text: Text)
    requires
        parse(text) is Ok,
    ensures
        well_formed(parse(text)->Ok_0),
{
    let lines = split(text, '\n');
    crate::parser::lemma_run_well_formed(lines, lines.len() as int);
}

/// A failure of parsing cites a line of the text, counted from 1, and that
/// line is the first one at fault: a line that is no comment, header or
/// pair, or a pair while no section is open.
pub proof fn theorem_failure_cites_its_line(lines: Seq<Text>, n: int)
    requires
        0 <= n <= lines.len(),
        run(lines, n) is Err,
    ensures
        match run(lines, n)->Err_0 {
            ConfigErrorView::Syntax { line, text } => {
                &&& 1 <= line <= n
                &&& run(lines, line - 1) is Ok
                &&& read_line(lines[line - 1]) == Line::Junk(text)
                &&& text == trim(lines[line - 1])
            },
            ConfigErrorView::KeyOutsideSection { line } => {
                &&& 1 <= line <= n
                &&& run(lines, line - 1) is Ok
                &&& read_line(lines[line - 1]) is Pair
                &&& run(lines, line - 1)->Ok_0.current.len() == 0
            },
            _ => false,
        },
    decreases n,
{
    if n > 0 && run(lines, n - 1) is Err {
        theorem_failure_cites_its_line(lines, n - 1);
    }
}

/// A line that is no comment, header or pair makes parsing fail with a
/// syntax failure that cites it, where no line before it fails.
pub proof fn theorem_junk_line_fails(text: Text, k: int)
    requires
        0 <= k < split(text, '\n').len(),
        read_line(split(text, '\n')[k]) is Junk,
        run(split(text, '\n'), k) is Ok,
    ensures
        parse(text) == Err::<Seq<SectionView>, ConfigErrorView>(
            ConfigErrorView::Syntax { line: k + 1, text: trim(split(text, '\n')[k]) },
        ),
{
    let lines = split(text, '\n');
    crate::parser::lemma_run_failure_stays(lines, k + 1, lines.len() as int);
}

/// A line that is no comment, header or pair makes parsing fail, whatever
/// stands before it.
pub proof fn theorem_junk_line_never_passes(text: Text, k: int)
    requires
        0 <= k < split(text, '\n').len(),
        read_line(split(text, '\n')[k]) is Junk,
    ensures
        parse(text) is Err,
{
    let lines = split(text, '\n');
    if run(lines, k) is Ok {
        theorem_junk_line_fails(text, k);
    } else {
        crate::parser::lemma_run_failure_stays(lines, k, lines.len() as int);
    }
}

/// Whether `item`, trimmed, is the number `port`.
pub open spec fn denotes_port(item: Text, port: u16) -> bool {
    parse_unsigned(trim(item), 65535) == Some(port as nat)
}

/// Whether one of the first `n` of `items` denotes `port`.
pub open spec fn port_among(items: Seq<Text>, n: int, port: u16) -> bool {
    exists|i: int| 0 <= i < n && denotes_port(#[trigger] items[i], port)
}

/// The ports of a list are the numbers that its items denote: an item that
/// denotes none is left out, and nothing else is.
pub proof fn theorem_ports_are_the_items_that_parse(items: Seq<Text>, n: int)
    requires
        0 <= n <= items.len(),
    ensures
        forall|port: u16| #[trigger]
            port_among(items, n, port) <==> ports_upto(items, n).contains(port),
        ports_upto(items, n).len() <= n,
    decreases n,
{
    if n > 0 {
        theorem_ports_are_the_items_that_parse(items, n - 1);
        let before = ports_upto(items, n - 1);
        let after = ports_upto(items, n);
        let last = parse_unsigned(trim(items[n - 1]), 65535);
        assert forall|port: u16| #[trigger]
            port_among(items, n, port) <==> after.contains(port) by {
            assert(port_among(items, n - 1, port) <==> before.contains(port));
            if port_among(items, n, port) {
                let i = choose|i: int| 0 <= i < n && denotes_port(#[trigger] items[i], port);
                if i < n - 1 {
                    assert(port_among(items, n - 1, port));
                    let w = choose|w: int| 0 <= w < before.len() && before[w] == port;
                    assert(after[w] == port);
                } else {
                    assert(after == before.push(port));
                    assert(after[before.len() as int] == port);
                }
            }
            if after.contains(port) {
                let w = choose|w: int| 0 <= w < after.len() && after[w] == port;
                if w < before.len() {
                    assert(before[w] == port);
                    assert(before.contains(port));
                    let i = choose|i: int|
                        0 <= i < n - 1 && denotes_port(#[trigger] items[i], port);
                    assert(denotes_port(items[i], port));
                } else {
                    assert(last == Some(port as nat));
                    assert(denotes_port(items[n - 1], port));
                }
            }
        }
    } else {
        assert forall|port: u16| #[trigger]
            port_among(items, n, port) <==> ports_upto(items, n).contains(port) by {}
    }
}

/// A server with a host and a list of ports is built, whatever the list
/// holds.
pub proof fn theorem_ports_never_fail_the_build(name: Text, entries: Seq<(Text, Text)>)
    requires
        lookup(entries, "host"@) is Some,
        lookup(entries, "ports"@) is Some,
    ensures
        server_of(name, entries) is Ok,
        server_of(name, entries)->Ok_0.name == name,
        server_of(name, entries)->Ok_0.host == lookup(entries, "host"@)->Some_0,
        server_of(name, entries)->Ok_0.ports == ports_of(lookup(entries, "ports"@)->Some_0),
{
}

/// A route goes to the server that its section names: it comes after the
/// routes that the server has, and nothing else changes.
pub proof fn theorem_route_reaches_its_server(
    servers: Seq<VirtualServerView>,
    owner: Text,
    route: RouteView,
    k: int,
)
    requires
        0 <= k < servers.len(),
        servers[k].name == owner,
        forall|i: int| 0 <= i < k ==> (#[trigger] servers[i]).name != owner,
    ensures
        attach(servers, owner, route).len() == servers.len(),
        attach(servers, owner, route)[k].routes == servers[k].routes.push(route),
        attach(servers, owner, route)[k].name == owner,
        forall|i: int|
            0 <= i < servers.len() && i != k ==> #[trigger] attach(servers, owner, route)[i]
                == servers[i],
{
    assert forall|i: int| 0 <= i < k implies !#[trigger] holds_server(servers, owner)(i) by {
        assert(servers[i].name != owner);
    }
    lemma_first_index_is(0, servers.len() as int, holds_server(servers, owner), k);
}

/// A route whose section names a server that was never declared is dropped:
/// the servers stay as they are.
pub proof fn theorem_route_without_server_is_dropped(
    servers: Seq<VirtualServerView>,
    owner: Text,
    route: RouteView,
)
    requires
        forall|i: int| 0 <= i < servers.len() ==> (#[trigger] servers[i]).name != owner,
    ensures
        attach(servers, owner, route) == servers,
{
    assert forall|i: int| 0 <= i < servers.len() implies !#[trigger] holds_server(servers, owner)(
        i,
    ) by {
        assert(servers[i].name != owner);
    }
    lemma_first_index_is(
        0,
        servers.len() as int,
        holds_server(servers, owner),
        servers.len() as int,
    );
}

/// When a route is built, its redirect status only has to be a number up to
/// 65535: one that is not fails the build, and any that is gets built.
pub proof fn theorem_redirect_status_is_read_when_built(section: Text, entries: Seq<(Text, Text)>)
    requires
        lookup(entries, "path"@) is Some,
        lookup(entries, "redirect_status"@) is Some,
        lookup(entries, "redirect_target"@) is Some,
    ensures
        parse_unsigned(lookup(entries, "redirect_status"@)->Some_0, 65535) is None ==> route_of(
            section,
            entries,
        ) == Err::<RouteView, ConfigErrorView>(
            ConfigErrorView::InvalidValue {
                entity: section,
                field: Field::RedirectStatus,
                raw: lookup(entries, "redirect_status"@)->Some_0,
            },
        ),
        parse_unsigned(lookup(entries, "redirect_status"@)->Some_0, 65535) is Some ==> {
            &&& route_of(section, entries) is Ok
            &&& route_of(section, entries)->Ok_0.redirect == Some(
                RedirectView {
                    status: parse_unsigned(
                        lookup(entries, "redirect_status"@)->Some_0,
                        65535,
                    )->Some_0 as u16,
                    target: lookup(entries, "redirect_target"@)->Some_0,
                },
            )
        },
{
}

/// When a route is validated, a redirect status outside the five allowed
/// codes is a fault, reported once the path, the methods and the CGI
/// setting have passed.
pub proof fn theorem_redirect_status_is_judged_when_validated(
    route: RouteView,
    files: Map<Text, PathKind>,
)
    requires
        route.redirect is Some,
        !allowed_status(route.redirect->Some_0.status),
    ensures
        route_fault(route, files) is Some,
        route.path.len() > 0 && route.path[0] == '/' && methods_fault(route.path, route.methods)
            is None && cgi_fault(route.path, route.cgi, files) is None ==> route_fault(route, files)
            == Some(
            ConfigErrorView::InvalidValue {
                entity: route.path,
                field: Field::RedirectStatus,
                raw: decimal(route.redirect->Some_0.status as nat),
            },
        ),
{
}

/// A configuration in which not exactly one server is the default does not
/// pass; where nothing before that check is at fault, the fault says
/// whether there is no default or more than one.
pub proof fn theorem_default_count_is_checked(config: ServerConfigView, files: Map<Text, PathKind>)
    requires
        default_count(config.servers, config.servers.len() as int) != 1,
    ensures
        fault(config, files) is Some,
        ({
            let pairs = bindings(config.servers, config.servers.len() as int);
            &&& global_fault(config.global) is None
            &&& pages_fault(config.error_pages, files) is None
            &&& config.servers.len() > 0
            &&& first_repeat(pairs) >= pairs.len()
        }) ==> fault(config, files) == Some(
            if default_count(config.servers, config.servers.len() as int) == 0 {
                ConfigErrorView::NoDefaultServer
            } else {
                ConfigErrorView::MultipleDefaultServers
            },
        ),
{
    let pairs = bindings(config.servers, config.servers.len() as int);
    lemma_first_index(0, pairs.len() as int, repeats_at(pairs));
}

/// The pairs that the first `n` servers bind stand first among those that
/// the first `m` bind.
pub proof fn lemma_bindings_grow(servers: Seq<VirtualServerView>, n: int, m: int)
    requires
        0 <= n <= m,
    ensures
        bindings(servers, n).len() <= bindings(servers, m).len(),
        forall|k: int|
            0 <= k < bindings(servers, n).len() ==> #[trigger] bindings(servers, m)[k] == bindings(
                servers,
                n,
            )[k],
    decreases m - n,
{
    if n < m {
        lemma_bindings_grow(servers, n, m - 1);
    }
}

/// Where port `i` of server `a` stands among the pairs.
pub proof fn lemma_binding_place(servers: Seq<VirtualServerView>, a: int, i: int)
    requires
        0 <= a < servers.len(),
        0 <= i < servers[a].ports.len(),
    ensures
        bindings(servers, a).len() + i < bindings(servers, a + 1).len(),
        bindings(servers, a + 1).len() <= bindings(servers, servers.len() as int).len(),
        bindings(servers, servers.len() as int)[bindings(servers, a).len() + i] == (
            servers[a].host,
            servers[a].ports[i],
        ),
{
    lemma_bindings_grow(servers, a + 1, servers.len() as int);
    let k = bindings(servers, a).len() + i;
    assert(bindings(servers, a + 1)[k] == bindings_of(servers[a])[i]);
}

/// Every pair is a port of some server, with the host of that server.
pub proof fn lemma_binding_origin(servers: Seq<VirtualServerView>, n: int, k: int) -> (at: (
    int,
    int,
))
    requires
        0 <= n <= servers.len(),
        0 <= k < bindings(servers, n).len(),
    ensures
        0 <= at.0 < n,
        0 <= at.1 < servers[at.0].ports.len(),
        k == bindings(servers, at.0).len() + at.1,
        bindings(servers, n)[k] == (servers[at.0].host, servers[at.0].ports[at.1]),
    decreases n,
{
    if k < bindings(servers, n - 1).len() {
        lemma_binding_origin(servers, n - 1, k)
    } else {
        let i = k - bindings(servers, n - 1).len();
        assert(bindings(servers, n)[k] == bindings_of(servers[n - 1])[i]);
        (n - 1, i)
    }
}

/// Two ports that bind the same pair of host and port, in two servers or in
/// one, are a fault of the collection: a port conflict.
pub proof fn theorem_shared_binding_is_a_conflict(
    servers: Seq<VirtualServerView>,
    a: int,
    i: int,
    b: int,
    j: int,
)
    requires
        0 <= a <= b < servers.len(),
        0 <= i < servers[a].ports.len(),
        0 <= j < servers[b].ports.len(),
        a == b ==> i < j,
        servers[a].host == servers[b].host,
        servers[a].ports[i] == servers[b].ports[j],
    ensures
        collection_fault(servers) is Some,
        collection_fault(servers)->Some_0 is PortConflict,
{
    let pairs = bindings(servers, servers.len() as int);
    lemma_binding_place(servers, a, i);
    lemma_binding_place(servers, b, j);
    let ka = bindings(servers, a).len() + i;
    let kb = bindings(servers, b).len() + j;
    if a < b {
        lemma_bindings_grow(servers, a + 1, b);
    }
    assert(ka < kb);
    assert(pairs[ka] == pairs[kb]);
    assert(repeats_at(pairs)(kb));
    lemma_first_index(0, pairs.len() as int, repeats_at(pairs));
    if first_repeat(pairs) >= pairs.len() {
        assert(!repeats_at(pairs)(kb));
    }
}

/// A port conflict names a pair that is bound twice: by two different
/// ports, of two servers or of one, with that host and that number.
pub proof fn theorem_conflict_names_a_shared_binding(servers: Seq<VirtualServerView>) -> (at: (
    int,
    int,
    int,
    int,
))
    requires
        collection_fault(servers) is Some,
        collection_fault(servers)->Some_0 is PortConflict,
    ensures
        0 <= at.0 <= at.2 < servers.len(),
        0 <= at.1 < servers[at.0].ports.len(),
        0 <= at.3 < servers[at.2].ports.len(),
        at.0 == at.2 ==> at.1 < at.3,
        collection_fault(servers) == Some(
            ConfigErrorView::PortConflict {
                host: servers[at.0].host,
                port: servers[at.0].ports[at.1],
            },
        ),
        collection_fault(servers) == Some(
            ConfigErrorView::PortConflict {
                host: servers[at.2].host,
                port: servers[at.2].ports[at.3],
            },
        ),
{
    let n = servers.len() as int;
    let pairs = bindings(servers, n);
    let k = first_repeat(pairs);
    lemma_first_index(0, pairs.len() as int, repeats_at(pairs));
    assert(repeats_at(pairs)(k));
    let e = choose|e: int| 0 <= e < k && #[trigger] pairs[e] == pairs[k];
    let first = lemma_binding_origin(servers, n, e);
    let second = lemma_binding_origin(servers, n, k);
    if first.0 > second.0 {
        lemma_binding_place(servers, second.0, second.1);
        lemma_bindings_grow(servers, second.0 + 1, first.0);
    }
    (first.0, first.1, second.0, second.1)
}

/// Where the global limits and the error pages pass, two servers that share
/// a pair of host and port fail validation with a port conflict.
pub proof fn theorem_shared_binding_fails_validation(
    config: ServerConfigView,
    files: Map<Text, PathKind>,
    a: int,
    i: int,
    b: int,
    j: int,
)
    requires
        0 <= a < b < config.servers.len(),
        0 <= i < config.servers[a].ports.len(),
        0 <= j < config.servers[b].ports.len(),
        config.servers[a].host == config.servers[b].host,
        config.servers[a].ports[i] == config.servers[b].ports[j],
    ensures
        fault(config, files) is Some,
        global_fault(config.global) is None && pages_fault(config.error_pages, files) is None
            ==> fault(config, files) == collection_fault(config.servers) && fault(
            config,
            files,
        )->Some_0 is PortConflict,
{
    theorem_shared_binding_is_a_conflict(config.servers, a, i, b, j);
}

/// Two servers with one port each, the same for both, and with the same
/// host: the conflict names exactly that host and that port.
pub proof fn theorem_two_servers_one_binding(first: VirtualServerView, second: VirtualServerView)
    requires
        first.host == second.host,
        first.ports.len() == 1,
        second.ports.len() == 1,
        first.ports[0] == second.ports[0],
    ensures
        collection_fault(seq![first, second]) == Some(
            ConfigErrorView::PortConflict { host: first.host, port: first.ports[0] },
        ),
{
    let servers = seq![first, second];
    theorem_shared_binding_is_a_conflict(servers, 0, 0, 1, 0);
    let at = theorem_conflict_names_a_shared_binding(servers);
}

/// Putting a server among servers with distinct names keeps them distinct.
pub proof fn lemma_put_server_keeps_distinct(
    servers: Seq<VirtualServerView>,
    server: VirtualServerView,
)
    requires
        distinct_servers(servers),
    ensures
        distinct_servers(put_server(servers, server)),
{
    let k = server_slot(servers, server.name);
    let after = put_server(servers, server);
    lemma_first_index(0, servers.len() as int, holds_server(servers, server.name));
    assert forall|i: int, j: int| 0 <= i < j < after.len() implies (#[trigger] after[i]).name != (
    #[trigger] after[j]).name by {
        if k < servers.len() {
            assert(holds_server(servers, server.name)(k));
            assert(servers[i].name != servers[j].name);
        } else if j == servers.len() {
            assert(!holds_server(servers, server.name)(i));
        } else {
            assert(servers[i].name != servers[j].name);
        }
    }
}

/// The servers that sections declare have distinct names.
pub proof fn lemma_servers_upto_distinct(sections: Seq<SectionView>, n: int)
    requires
        0 <= n,
    ensures
        servers_upto(sections, n) is Ok ==> distinct_servers(servers_upto(sections, n)->Ok_0),
    decreases n,
{
    if n > 0 {
        lemma_servers_upto_distinct(sections, n - 1);
        if servers_upto(sections, n) is Ok {
            let before = servers_upto(sections, n - 1)->Ok_0;
            match strip_prefix(sections[n - 1].name, "server:"@) {
                Some(name) => {
                    let server = server_of(name, sections[n - 1].entries)->Ok_0;
                    lemma_put_server_keeps_distinct(before, server);
                },
                None => {},
            }
        }
    }
}

/// Giving the servers their routes changes no name.
pub proof fn lemma_routes_upto_keeps_names(
    sections: Seq<SectionView>,
    n: int,
    servers: Seq<VirtualServerView>,
)
    requires
        0 <= n,
    ensures
        routes_upto(sections, n, servers) is Ok ==> {
            &&& routes_upto(sections, n, servers)->Ok_0.len() == servers.len()
            &&& forall|i: int|
                0 <= i < servers.len() ==> (#[trigger] routes_upto(
                    sections,
                    n,
                    servers,
                )->Ok_0[i]).name == servers[i].name
        },
    decreases n,
{
    if n > 0 {
        lemma_routes_upto_keeps_names(sections, n - 1, servers);
        if routes_upto(sections, n, servers) is Ok {
            let before = routes_upto(sections, n - 1, servers)->Ok_0;
            let after = routes_upto(sections, n, servers)->Ok_0;
            assert(after.len() == before.len());
            assert forall|i: int| 0 <= i < servers.len() implies (#[trigger] after[i]).name
                == servers[i].name by {
                assert(before[i].name == servers[i].name);
                lemma_first_index(
                    0,
                    before.len() as int,
                    holds_server(before, after[i].name),
                );
            }
        }
    }
}

/// The error pages of a section have distinct codes.
pub proof fn lemma_pages_upto_distinct(entries: Seq<(Text, Text)>, n: int)
    requires
        0 <= n,
    ensures
        pages_upto(entries, n) is Ok ==> distinct_keys(pages_upto(entries, n)->Ok_0),
    decreases n,
{
    if n > 0 {
        lemma_pages_upto_distinct(entries, n - 1);
        if pages_upto(entries, n) is Ok {
            let before = pages_upto(entries, n - 1)->Ok_0;
            let code = parse_unsigned(entries[n - 1].0, 65535)->Some_0 as u16;
            lemma_put_keeps_distinct(before, code, entries[n - 1].1);
        }
    }
}

/// In a configuration that was built, no two servers have one name and no
/// two error pages one code.
pub proof fn theorem_built_is_distinct(sections: Seq<SectionView>)
    requires
        build(sections) is Ok,
    ensures
        build(sections)->Ok_0.well_formed(),
{
    let n = sections.len() as int;
    lemma_servers_upto_distinct(sections, n);
    let bare = servers_upto(sections, n)->Ok_0;
    lemma_routes_upto_keeps_names(sections, n, bare);
    let servers = build(sections)->Ok_0.servers;
    assert forall|i: int, j: int| 0 <= i < j < servers.len() implies (#[trigger] servers[i]).name
        != (#[trigger] servers[j]).name by {
        assert(bare[i].name != bare[j].name);
    }
    match crate::sections::find_section(sections, "error_pages"@) {
        Some(s) => {
            lemma_pages_upto_distinct(s.entries, s.entries.len() as int);
        },
        None => {},
    }
}

/// Whether two file systems hold the same at every one of `paths`.
pub open spec fn agree_on(paths: Seq<Text>, one: Map<Text, PathKind>, other: Map<Text, PathKind>) -> bool {
    forall|i: int| 0 <= i < paths.len() ==> kind_at(one, #[trigger] paths[i]) == kind_at(other, paths[i])
}

/// Two file systems that agree on the paths of a list agree on those of
/// its two parts.
pub proof fn lemma_agree_on_parts(
    front: Seq<Text>,
    back: Seq<Text>,
    one: Map<Text, PathKind>,
    other: Map<Text, PathKind>,
)
    requires
        agree_on(front + back, one, other),
    ensures
        agree_on(front, one, other),
        agree_on(back, one, other),
{
    let all = front + back;
    assert forall|i: int| 0 <= i < front.len() implies kind_at(one, #[trigger] front[i]) == kind_at(
        other,
        front[i],
    ) by {
        assert(all[i] == front[i]);
    }
    assert forall|i: int| 0 <= i < back.len() implies kind_at(one, #[trigger] back[i]) == kind_at(
        other,
        back[i],
    ) by {
        assert(all[front.len() + i] == back[i]);
    }
}

/// Two checks that find the same in every item have the same first fault.
pub proof fn lemma_first_fault_agrees<T>(
    items: Seq<T>,
    one: spec_fn(T) -> Option<ConfigErrorView>,
    other: spec_fn(T) -> Option<ConfigErrorView>,
)
    requires
        forall|i: int| 0 <= i < items.len() ==> one(#[trigger] items[i]) == other(items[i]),
    ensures
        first_fault(items, one) == first_fault(items, other),
{
    let n = items.len() as int;
    let k = crate::text::first_index(0, n, faulty_at(items, one));
    lemma_first_index(0, n, faulty_at(items, one));
    assert forall|i: int| 0 <= i < k implies !#[trigger] faulty_at(items, other)(i) by {
        assert(!faulty_at(items, one)(i));
        assert(one(items[i]) == other(items[i]));
    }
    if k < n {
        assert(one(items[k]) == other(items[k]));
    }
    lemma_first_index_is(0, n, faulty_at(items, other), k);
}

/// Two file systems that agree on the paths of a route find the same in it.
pub proof fn lemma_route_fault_agrees(
    route: RouteView,
    one: Map<Text, PathKind>,
    other: Map<Text, PathKind>,
)
    requires
        agree_on(route_paths(route), one, other),
    ensures
        route_fault(route, one) == route_fault(route, other),
{
    let cgi = path_if(
        match route.cgi {
            Some(cgi) => Some(cgi.executor),
            None => None,
        },
    );
    let upload = path_if(route.upload_dir);
    let root = path_if(route.root);
    lemma_agree_on_parts(cgi + upload, root, one, other);
    lemma_agree_on_parts(cgi, upload, one, other);
    if route.cgi is Some {
        assert(cgi[0] == route.cgi->Some_0.executor);
    }
    if route.upload_dir is Some {
        assert(upload[0] == route.upload_dir->Some_0);
    }
    if route.root is Some {
        assert(root[0] == route.root->Some_0);
    }
}

/// Two file systems that agree on the paths of some routes find the same
/// in each of them.
pub proof fn lemma_routes_agree(
    routes: Seq<RouteView>,
    n: int,
    one: Map<Text, PathKind>,
    other: Map<Text, PathKind>,
)
    requires
        0 <= n <= routes.len(),
        agree_on(routes_paths(routes, n), one, other),
    ensures
        forall|r: int|
            0 <= r < n ==> route_check(one)(#[trigger] routes[r]) == route_check(other)(routes[r]),
    decreases n,
{
    if n > 0 {
        lemma_agree_on_parts(routes_paths(routes, n - 1), route_paths(routes[n - 1]), one, other);
        lemma_routes_agree(routes, n - 1, one, other);
        lemma_route_fault_agrees(routes[n - 1], one, other);
    }
}

/// Two file systems that agree on the paths of some servers find the same
/// in each of them and in the routes of each.
pub proof fn lemma_servers_agree(
    servers: Seq<VirtualServerView>,
    n: int,
    one: Map<Text, PathKind>,
    other: Map<Text, PathKind>,
)
    requires
        0 <= n <= servers.len(),
        agree_on(servers_paths(servers, n), one, other),
    ensures
        forall|a: int|
            0 <= a < n ==> server_check(one)(#[trigger] servers[a]) == server_check(other)(
                servers[a],
            ),
        forall|a: int|
            0 <= a < n ==> routes_check(one)(#[trigger] servers[a]) == routes_check(other)(
                servers[a],
            ),
    decreases n,
{
    if n > 0 {
        let server = servers[n - 1];
        lemma_agree_on_parts(servers_paths(servers, n - 1), server_paths(server), one, other);
        lemma_servers_agree(servers, n - 1, one, other);
        let routes = routes_paths(server.routes, server.routes.len() as int);
        lemma_agree_on_parts(seq![server.root], routes, one, other);
        assert(seq![server.root][0] == server.root);
        lemma_routes_agree(server.routes, server.routes.len() as int, one, other);
        lemma_first_fault_agrees(server.routes, route_check(one), route_check(other));
    }
}

/// Two file systems that agree on the paths of some error pages find the
/// same in each of them.
pub proof fn lemma_pages_agree(
    pages: Seq<(u16, Text)>,
    n: int,
    one: Map<Text, PathKind>,
    other: Map<Text, PathKind>,
)
    requires
        0 <= n <= pages.len(),
        agree_on(pages_paths(pages, n), one, other),
    ensures
        forall|i: int|
            0 <= i < n ==> page_check(one)(#[trigger] pages[i]) == page_check(other)(pages[i]),
    decreases n,
{
    if n > 0 {
        let front = pages_paths(pages, n - 1);
        assert(pages_paths(pages, n) =~= front + seq![pages[n - 1].1]);
        lemma_agree_on_parts(front, seq![pages[n - 1].1], one, other);
        assert(seq![pages[n - 1].1][0] == pages[n - 1].1);
        lemma_pages_agree(pages, n - 1, one, other);
    }
}

/// Validation looks at the file system only at the paths of the
/// configuration: two file systems that hold the same at each of them give
/// the same outcome.
pub proof fn theorem_only_the_listed_paths_matter(
    config: ServerConfigView,
    one: Map<Text, PathKind>,
    other: Map<Text, PathKind>,
)
    requires
        agree_on(paths_of(config), one, other),
    ensures
        fault(config, one) == fault(config, other),
{
    let pages = config.error_pages;
    let servers = config.servers;
    lemma_agree_on_parts(
        pages_paths(pages, pages.len() as int),
        servers_paths(servers, servers.len() as int),
        one,
        other,
    );
    lemma_pages_agree(pages, pages.len() as int, one, other);
    lemma_first_fault_agrees(pages, page_check(one), page_check(other));
    lemma_servers_agree(servers, servers.len() as int, one, other);
    lemma_first_fault_agrees(servers, server_check(one), server_check(other));
    lemma_first_fault_agrees(servers, routes_check(one), routes_check(other));
}

/// The digits of `n` are digits, and they denote `n`.
pub proof fn lemma_decimal_denotes(n: nat)
    ensures
        decimal(n).len() > 0,
        all_digits(decimal(n)),
        decimal_value(decimal(n)) == n,
    decreases n,
{
    if n < 10 {
        let s = decimal(n);
        assert(s.drop_last() =~= Seq::<char>::empty());
        assert(decimal_value(s.drop_last()) == 0);
        assert(s.last() == digit_char(n));
        assert(digit_value(digit_char(n)) == n);
        assert(is_digit(s[0]));
    } else {
        lemma_decimal_denotes(n / 10);
        let head = decimal(n / 10);
        let s = decimal(n);
        assert(s.drop_last() =~= head);
        assert(s.last() == digit_char(n % 10));
        assert(digit_value(digit_char(n % 10)) == n % 10);
        assert(is_digit(digit_char(n % 10)));
        assert forall|i: int| 0 <= i < s.len() implies is_digit(#[trigger] s[i]) by {
            if i < head.len() {
                assert(s[i] == head[i]);
            }
        }
    }
}

/// A number that is written in base ten and read again is the same number.
pub proof fn theorem_written_number_reads_back(n: nat, max: nat)
    requires
        n <= max,
    ensures
        parse_unsigned(decimal(n), max) == Some(n),
{
    lemma_decimal_denotes(n);
    assert(is_digit(decimal(n)[0]));
}

} // verus!
