use server_config::error::{ConfigError, ErrorKind, Field, PathNeed};
use server_config::files::{PathKind, PathTable};
use server_config::loader::ConfigLoader;
use server_config::models::{
    CgiConfig, GlobalConfig, Redirect, Route, ServerConfig, VirtualServer,
};
use server_config::validator::ConfigValidator;

fn files() -> PathTable {
    let mut t = PathTable::new();
    t.record("./www", PathKind::Directory);
    t.record("/srv", PathKind::Directory);
    t.record("/file", PathKind::File);
    t.record("/dev/null", PathKind::Other);
    t
}

fn route(path: &str) -> Route {
    Route {
        path: path.to_string(),
        methods: vec!["GET".to_string()],
        root: None,
        index: None,
        redirect: None,
        cgi: None,
        upload_dir: None,
        autoindex: false,
        max_file_size: None,
    }
}

fn server(name: &str, host: &str, ports: Vec<u16>, is_default: bool) -> VirtualServer {
    VirtualServer {
        name: name.to_string(),
        host: host.to_string(),
        ports,
        is_default,
        root: "./www".to_string(),
        routes: vec![],
    }
}

fn config(servers: Vec<VirtualServer>) -> ServerConfig {
    ServerConfig { global: GlobalConfig::default(), servers, error_pages: vec![] }
}

fn invalid(entity: &str, field: Field, raw: &str) -> ConfigError {
    ConfigError::InvalidValue { entity: entity.to_string(), field, raw: raw.to_string() }
}

fn filesystem(path: &str, expected: PathNeed) -> ConfigError {
    ConfigError::Filesystem { path: path.to_string(), expected }
}

#[test]
fn test_validate_global_invalid_body_size() {
    let global = GlobalConfig {
        max_body_size: 0,
        timeout: 30,
        keep_alive: true,
    };

    assert!(ConfigValidator::validate_global(&global).is_err());
}

#[test]
fn test_validate_route_invalid_method() {
    let route = Route {
        path: "/test".to_string(),
        methods: vec!["INVALID".to_string()],
        root: None,
        index: None,
        redirect: None,
        cgi: None,
        upload_dir: None,
        autoindex: false,
        max_file_size: None,
    };

    assert!(ConfigValidator::validate_route(&route, &PathTable::new()).is_err());
}

#[test]
fn test_validate_route_path_no_slash() {
    let route = Route {
        path: "test".to_string(),
        methods: vec!["GET".to_string()],
        root: None,
        index: None,
        redirect: None,
        cgi: None,
        upload_dir: None,
        autoindex: false,
        max_file_size: None,
    };

    assert!(ConfigValidator::validate_route(&route, &PathTable::new()).is_err());
}

#[test]
fn path_table_answers_missing_for_what_it_does_not_list() {
    let mut t = PathTable::new();
    assert_eq!(t.kind_of("/a"), PathKind::Missing);
    t.record("/a", PathKind::File);
    t.record("/b", PathKind::Directory);
    assert_eq!(t.kind_of("/a"), PathKind::File);
    assert_eq!(t.kind_of("/b"), PathKind::Directory);
    assert_eq!(t.kind_of("/a/"), PathKind::Missing);
    t.record("/a", PathKind::Other);
    assert_eq!(t.kind_of("/a"), PathKind::Other);
    assert_eq!(t.entries.len(), 2);
}

#[test]
fn global_limits_must_be_positive() {
    let g = GlobalConfig { max_body_size: 0, timeout: 0, keep_alive: true };
    assert_eq!(
        ConfigValidator::validate_global(&g),
        Err(invalid("global", Field::MaxBodySize, "0"))
    );
    let g = GlobalConfig { max_body_size: 1, timeout: 0, keep_alive: false };
    assert_eq!(ConfigValidator::validate_global(&g), Err(invalid("global", Field::Timeout, "0")));
    let g = GlobalConfig { max_body_size: 1, timeout: 1, keep_alive: false };
    assert_eq!(ConfigValidator::validate_global(&g), Ok(()));
    assert_eq!(ConfigValidator::validate_global(&GlobalConfig::default()), Ok(()));
}

#[test]
fn error_pages_must_be_files() {
    let t = files();
    let pages = vec![(404, "/file".to_string())];
    assert_eq!(ConfigValidator::validate_error_pages(&pages, &t), Ok(()));
    let pages = vec![(404, "/file".to_string()), (500, "/srv".to_string()), (501, "/no".to_string())];
    let err = ConfigValidator::validate_error_pages(&pages, &t).unwrap_err();
    assert_eq!(err, filesystem("/srv", PathNeed::File));
    assert_eq!(err.kind(), ErrorKind::Filesystem);
    let pages = vec![(500, "/no".to_string()), (404, "/srv".to_string())];
    assert_eq!(
        ConfigValidator::validate_error_pages(&pages, &t),
        Err(filesystem("/no", PathNeed::File))
    );
    let pages = vec![(500, "/dev/null".to_string())];
    assert!(ConfigValidator::validate_error_pages(&pages, &t).is_err());
    assert_eq!(ConfigValidator::validate_error_pages(&vec![], &t), Ok(()));
}

#[test]
fn servers_must_not_be_empty() {
    let err = ConfigValidator::validate(&config(vec![]), &files()).unwrap_err();
    assert_eq!(
        err,
        ConfigError::MissingField { entity: "config".to_string(), field: Field::Servers }
    );
}

#[test]
fn one_default_server_passes() {
    let c = config(vec![server("a", "h", vec![80], true), server("b", "h", vec![81], false)]);
    assert_eq!(ConfigValidator::validate(&c, &files()), Ok(()));
}

#[test]
fn no_default_server_is_a_conflict() {
    let c = config(vec![server("a", "h", vec![80], false), server("b", "h", vec![81], false)]);
    let err = ConfigValidator::validate(&c, &files()).unwrap_err();
    assert_eq!(err, ConfigError::NoDefaultServer);
    assert_eq!(err.kind(), ErrorKind::Conflict);
}

#[test]
fn several_default_servers_are_a_conflict() {
    let c = config(vec![
        server("a", "h", vec![80], true),
        server("b", "h", vec![81], false),
        server("c", "h", vec![82], true),
    ]);
    let err = ConfigValidator::validate(&c, &files()).unwrap_err();
    assert_eq!(err, ConfigError::MultipleDefaultServers);
    assert_eq!(err.kind(), ErrorKind::Conflict);
}

#[test]
fn shared_host_and_port_is_a_conflict() {
    let c = config(vec![
        server("a", "0.0.0.0", vec![8080], true),
        server("b", "0.0.0.0", vec![8080], false),
    ]);
    let err = ConfigValidator::validate(&c, &files()).unwrap_err();
    assert_eq!(err, ConfigError::PortConflict { host: "0.0.0.0".to_string(), port: 8080 });
    assert_eq!(err.kind(), ErrorKind::Conflict);
}

#[test]
fn first_repeated_binding_is_reported() {
    let c = config(vec![
        server("a", "h", vec![1, 2, 3], true),
        server("b", "g", vec![1, 2, 3], false),
        server("c", "h", vec![4, 3, 2], false),
    ]);
    assert_eq!(
        ConfigValidator::validate(&c, &files()),
        Err(ConfigError::PortConflict { host: "h".to_string(), port: 3 })
    );
    let c = config(vec![server("a", "h", vec![7, 8, 7], true)]);
    assert_eq!(
        ConfigValidator::validate(&c, &files()),
        Err(ConfigError::PortConflict { host: "h".to_string(), port: 7 })
    );
}

#[test]
fn same_port_on_other_hosts_is_no_conflict() {
    let c = config(vec![server("a", "h", vec![80], true), server("b", "g", vec![80], false)]);
    assert_eq!(ConfigValidator::validate(&c, &files()), Ok(()));
}

#[test]
fn collection_checks_come_before_server_checks() {
    let mut bad = server("a", "", vec![], false);
    bad.root = "/nowhere".to_string();
    let c = config(vec![bad.clone(), server("b", "h", vec![80], false)]);
    assert_eq!(ConfigValidator::validate(&c, &files()), Err(ConfigError::NoDefaultServer));
    let c = config(vec![bad, server("b", "h", vec![80, 80], true)]);
    assert_eq!(
        ConfigValidator::validate(&c, &files()),
        Err(ConfigError::PortConflict { host: "h".to_string(), port: 80 })
    );
}

#[test]
fn server_checks_run_in_order() {
    let t = files();
    let mut s = server("a", "", vec![], true);
    s.root = "/nowhere".to_string();
    assert_eq!(ConfigValidator::validate_server(&s, &t), Err(invalid("a", Field::Host, "")));
    s.host = "h".to_string();
    assert_eq!(
        ConfigValidator::validate_server(&s, &t),
        Err(ConfigError::MissingField { entity: "a".to_string(), field: Field::Ports })
    );
    s.ports = vec![80, 0];
    assert_eq!(ConfigValidator::validate_server(&s, &t), Err(invalid("a", Field::Ports, "0")));
    s.ports = vec![80];
    assert_eq!(
        ConfigValidator::validate_server(&s, &t),
        Err(filesystem("/nowhere", PathNeed::Directory))
    );
    s.root = "/file".to_string();
    assert_eq!(
        ConfigValidator::validate_server(&s, &t),
        Err(filesystem("/file", PathNeed::Directory))
    );
    s.root = "/srv".to_string();
    assert_eq!(ConfigValidator::validate_server(&s, &t), Ok(()));
}

#[test]
fn server_checks_come_before_route_checks() {
    let mut first = server("a", "h", vec![80], true);
    first.routes.push(route("no-slash"));
    let second = server("b", "", vec![81], false);
    let c = config(vec![first, second]);
    assert_eq!(ConfigValidator::validate(&c, &files()), Err(invalid("b", Field::Host, "")));
}

#[test]
fn first_bad_route_is_reported() {
    let mut first = server("a", "h", vec![80], true);
    first.routes.push(route("/ok"));
    let mut second = server("b", "h", vec![81], false);
    second.routes.push(route("/fine"));
    second.routes.push(route("bad"));
    second.routes.push(route(""));
    let c = config(vec![first, second.clone()]);
    assert_eq!(ConfigValidator::validate(&c, &files()), Err(invalid("bad", Field::Path, "bad")));
    assert_eq!(
        ConfigValidator::validate_routes(&second, &files()),
        Err(invalid("bad", Field::Path, "bad"))
    );
    assert_eq!(ConfigValidator::validate_server(&second, &files()), Ok(()));
}

#[test]
fn route_path_must_start_with_a_slash() {
    let t = files();
    assert_eq!(ConfigValidator::validate_route(&route("/"), &t), Ok(()));
    assert_eq!(ConfigValidator::validate_route(&route(""), &t), Err(invalid("", Field::Path, "")));
    assert_eq!(
        ConfigValidator::validate_route(&route("test"), &t),
        Err(invalid("test", Field::Path, "test"))
    );
}

#[test]
fn route_methods_must_be_allowed() {
    let t = files();
    let mut r = route("/m");
    r.methods = vec![];
    assert_eq!(
        ConfigValidator::validate_route(&r, &t),
        Err(ConfigError::MissingField { entity: "/m".to_string(), field: Field::Methods })
    );
    for m in ["GET", "POST", "DELETE", "PUT", "HEAD", "OPTIONS"] {
        r.methods = vec![m.to_string()];
        assert_eq!(ConfigValidator::validate_route(&r, &t), Ok(()));
    }
    r.methods = vec!["GET".to_string(), "PATCH".to_string(), "INVALID".to_string()];
    assert_eq!(
        ConfigValidator::validate_route(&r, &t),
        Err(invalid("/m", Field::Methods, "PATCH"))
    );
    for m in ["get", "", "GET ", "GE", "OPTION"] {
        r.methods = vec![m.to_string()];
        assert_eq!(ConfigValidator::validate_route(&r, &t), Err(invalid("/m", Field::Methods, m)));
    }
}

#[test]
fn route_cgi_is_checked() {
    let t = files();
    let mut r = route("/c");
    r.cgi = Some(CgiConfig { extension: "py".to_string(), executor: "/nowhere".to_string() });
    assert_eq!(
        ConfigValidator::validate_route(&r, &t),
        Err(filesystem("/nowhere", PathNeed::Present))
    );
    r.cgi = Some(CgiConfig { extension: "py".to_string(), executor: "/file".to_string() });
    assert_eq!(
        ConfigValidator::validate_route(&r, &t),
        Err(invalid("/c", Field::CgiExtension, "py"))
    );
    r.cgi = Some(CgiConfig { extension: "".to_string(), executor: "/srv".to_string() });
    assert_eq!(ConfigValidator::validate_route(&r, &t), Err(invalid("/c", Field::CgiExtension, "")));
    r.cgi = Some(CgiConfig { extension: ".py".to_string(), executor: "/dev/null".to_string() });
    assert_eq!(ConfigValidator::validate_route(&r, &t), Ok(()));
}

#[test]
fn route_redirect_is_checked() {
    let t = files();
    let mut r = route("/r");
    for status in [301u16, 302, 303, 307, 308] {
        r.redirect = Some(Redirect { status, target: "/new".to_string() });
        assert_eq!(ConfigValidator::validate_route(&r, &t), Ok(()));
    }
    r.redirect = Some(Redirect { status: 999, target: "".to_string() });
    assert_eq!(
        ConfigValidator::validate_route(&r, &t),
        Err(invalid("/r", Field::RedirectStatus, "999"))
    );
    for status in [0u16, 300, 304, 305, 306, 309, 65535] {
        r.redirect = Some(Redirect { status, target: "/new".to_string() });
        assert_eq!(
            ConfigValidator::validate_route(&r, &t),
            Err(invalid("/r", Field::RedirectStatus, &status.to_string()))
        );
    }
    r.redirect = Some(Redirect { status: 301, target: "".to_string() });
    assert_eq!(
        ConfigValidator::validate_route(&r, &t),
        Err(invalid("/r", Field::RedirectTarget, ""))
    );
}

#[test]
fn route_upload_dir_must_be_a_directory() {
    let t = files();
    let mut r = route("/u");
    r.upload_dir = Some("/srv".to_string());
    assert_eq!(ConfigValidator::validate_route(&r, &t), Ok(()));
    r.upload_dir = Some("/file".to_string());
    assert_eq!(
        ConfigValidator::validate_route(&r, &t),
        Err(filesystem("/file", PathNeed::Directory))
    );
    r.upload_dir = Some("/nowhere".to_string());
    assert_eq!(
        ConfigValidator::validate_route(&r, &t),
        Err(filesystem("/nowhere", PathNeed::Directory))
    );
}

#[test]
fn route_root_must_exist_and_may_be_a_file() {
    let t = files();
    let mut r = route("/u");
    r.root = Some("/file".to_string());
    assert_eq!(ConfigValidator::validate_route(&r, &t), Ok(()));
    r.root = Some("/srv".to_string());
    assert_eq!(ConfigValidator::validate_route(&r, &t), Ok(()));
    r.root = Some("/nowhere".to_string());
    assert_eq!(
        ConfigValidator::validate_route(&r, &t),
        Err(filesystem("/nowhere", PathNeed::Present))
    );
}

#[test]
fn route_checks_run_in_order() {
    let t = files();
    let mut r = route("/o");
    r.root = Some("/nowhere".to_string());
    r.upload_dir = Some("/file".to_string());
    r.redirect = Some(Redirect { status: 1, target: "".to_string() });
    r.cgi = Some(CgiConfig { extension: "x".to_string(), executor: "/gone".to_string() });
    r.methods = vec!["NOPE".to_string()];
    assert_eq!(ConfigValidator::validate_route(&r, &t), Err(invalid("/o", Field::Methods, "NOPE")));
    r.methods = vec!["GET".to_string()];
    assert_eq!(ConfigValidator::validate_route(&r, &t), Err(filesystem("/gone", PathNeed::Present)));
    r.cgi = None;
    assert_eq!(
        ConfigValidator::validate_route(&r, &t),
        Err(invalid("/o", Field::RedirectStatus, "1"))
    );
    r.redirect = None;
    assert_eq!(
        ConfigValidator::validate_route(&r, &t),
        Err(filesystem("/file", PathNeed::Directory))
    );
    r.upload_dir = None;
    assert_eq!(
        ConfigValidator::validate_route(&r, &t),
        Err(filesystem("/nowhere", PathNeed::Present))
    );
}

#[test]
fn validate_stages_run_in_order() {
    let t = files();
    let mut c = config(vec![]);
    c.global.timeout = 0;
    c.error_pages = vec![(404, "/nowhere".to_string())];
    assert_eq!(ConfigValidator::validate(&c, &t), Err(invalid("global", Field::Timeout, "0")));
    c.global.timeout = 1;
    assert_eq!(ConfigValidator::validate(&c, &t), Err(filesystem("/nowhere", PathNeed::File)));
    c.error_pages = vec![(404, "/file".to_string())];
    assert_eq!(
        ConfigValidator::validate(&c, &t),
        Err(ConfigError::MissingField { entity: "config".to_string(), field: Field::Servers })
    );
}

#[test]
fn load_runs_the_three_stages() {
    let t = files();
    let text = "[global]\ntimeout=5\n[error_pages]\n404=/file\n\
                [server:a]\nhost=example.com\nports=80,443\ndefault=true\nroot=/srv\n\
                [route:a:home]\npath=/\nmethods=GET,POST\n";
    let c = ConfigLoader::load(text, &t).unwrap();
    assert_eq!(c.global.timeout, 5);
    assert_eq!(c.error_pages, vec![(404, "/file".to_string())]);
    assert_eq!(c.servers.len(), 1);
    assert_eq!(c.servers[0].name, "a");
    assert_eq!(c.servers[0].host, "example.com");
    assert_eq!(c.servers[0].ports, vec![80, 443]);
    assert!(c.servers[0].is_default);
    assert_eq!(c.servers[0].routes.len(), 1);
    assert_eq!(c.servers[0].routes[0].path, "/");
    assert_eq!(c.servers[0].routes[0].methods, vec!["GET", "POST"]);
    assert_eq!(ConfigLoader::load(text, &t), ConfigLoader::load(text, &t));
}

#[test]
fn load_fails_at_the_first_failing_stage() {
    let t = files();
    assert_eq!(
        ConfigLoader::load("not a valid line", &t),
        Err(ConfigError::Syntax { line: 1, text: "not a valid line".to_string() })
    );
    assert_eq!(
        ConfigLoader::load("[server:a]\nhost=h\n", &t),
        Err(ConfigError::MissingField { entity: "a".to_string(), field: Field::Ports })
    );
    assert_eq!(
        ConfigLoader::load("[server:a]\nhost=h\nports=80\n", &t),
        Err(ConfigError::NoDefaultServer)
    );
    assert_eq!(
        ConfigLoader::load("[server:a]\nhost=h\nports=80\ndefault=true\n", &PathTable::new()),
        Err(filesystem("./www", PathNeed::Directory))
    );
}

#[test]
fn load_rejects_a_redirect_status_outside_the_allowed_codes() {
    let text = "[server:a]\nhost=h\nports=80\ndefault=true\n\
                [route:a:r]\npath=/old\nredirect_status=999\nredirect_target=/new\n";
    assert!(ConfigLoader::read(text).is_ok());
    assert_eq!(
        ConfigLoader::load(text, &files()),
        Err(invalid("/old", Field::RedirectStatus, "999"))
    );
}

#[test]
fn load_drops_ports_that_are_no_numbers() {
    let text = "[server:a]\nhost=h\nports=abc\ndefault=true\n";
    assert_eq!(
        ConfigLoader::load(text, &files()),
        Err(ConfigError::MissingField { entity: "a".to_string(), field: Field::Ports })
    );
}

#[test]
fn paths_lists_what_validation_looks_at() {
    let mut r1 = route("/a");
    r1.root = Some("/r1".to_string());
    r1.upload_dir = Some("/u1".to_string());
    r1.cgi = Some(CgiConfig { extension: ".py".to_string(), executor: "/x1".to_string() });
    r1.index = Some("index.html".to_string());
    let mut r2 = route("/b");
    r2.upload_dir = Some("/u2".to_string());
    let mut a = server("a", "h", vec![80], true);
    a.root = "/ra".to_string();
    a.routes = vec![r1, r2];
    let b = server("b", "h", vec![81], false);
    let mut c = config(vec![a, b]);
    c.error_pages = vec![(404, "/e404".to_string()), (500, "/e500".to_string())];
    assert_eq!(
        ConfigValidator::paths(&c),
        vec!["/e404", "/e500", "/ra", "/x1", "/u1", "/r1", "/u2", "./www"]
    );
    assert_eq!(ConfigValidator::paths(&ServerConfig::default()), Vec::<String>::new());
}

#[test]
fn paths_that_are_not_listed_do_not_matter() {
    let mut r = route("/a");
    r.upload_dir = Some("/up".to_string());
    let mut a = server("a", "h", vec![80], true);
    a.routes = vec![r];
    let c = config(vec![a]);
    let mut one = PathTable::new();
    one.record("./www", PathKind::Directory);
    one.record("/up", PathKind::File);
    let mut other = one.clone();
    other.record("/elsewhere", PathKind::Directory);
    other.record("/a", PathKind::File);
    assert_eq!(ConfigValidator::validate(&c, &one), ConfigValidator::validate(&c, &other));
    assert_eq!(
        ConfigValidator::validate(&c, &one),
        Err(filesystem("/up", PathNeed::Directory))
    );
}
