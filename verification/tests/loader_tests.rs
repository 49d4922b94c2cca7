use server_config::error::{ConfigError, ErrorKind, Field};
use server_config::loader::ConfigLoader;
use server_config::models::{
    CgiConfig, GlobalConfig, Redirect, Route, ServerConfig, VirtualServer,
};
use server_config::parser::IniParser;
use server_config::sections::{Section, Sections};

fn section(name: &str, pairs: &[(&str, &str)]) -> Section {
    let mut s = Section::new(name.to_string());
    for (k, v) in pairs {
        s.set(k.to_string(), v.to_string());
    }
    s
}

fn build(text: &str) -> Result<ServerConfig, ConfigError> {
    ConfigLoader::build_config(&IniParser::parse_str(text).unwrap())
}

#[test]
fn defaults_are_as_documented() {
    let g = GlobalConfig::default();
    assert_eq!(g, GlobalConfig { max_body_size: 1_048_576, timeout: 30, keep_alive: true });
    let c = ServerConfig::default();
    assert_eq!(c.global, g);
    assert!(c.servers.is_empty());
    assert!(c.error_pages.is_empty());
}

#[test]
fn build_empty_mapping_gives_the_default() {
    assert_eq!(ConfigLoader::build_config(&Sections::new()), Ok(ServerConfig::default()));
    assert_eq!(build(""), Ok(ServerConfig::default()));
}

#[test]
fn global_reads_all_three_fields() {
    let s = section("global", &[("max_body_size", "2048"), ("timeout", "5"), ("keep_alive", "false")]);
    assert_eq!(
        ConfigLoader::parse_global(&s),
        Ok(GlobalConfig { max_body_size: 2048, timeout: 5, keep_alive: false })
    );
}

#[test]
fn global_falls_back_silently() {
    let s = section("global", &[("max_body_size", "lots"), ("timeout", "-3"), ("keep_alive", "yes")]);
    assert_eq!(ConfigLoader::parse_global(&s), Ok(GlobalConfig::default()));
    let s = section("global", &[("timeout", "0")]);
    assert_eq!(
        ConfigLoader::parse_global(&s),
        Ok(GlobalConfig { max_body_size: 1_048_576, timeout: 0, keep_alive: true })
    );
    let s = section("global", &[("timeout", " 7")]);
    assert_eq!(ConfigLoader::parse_global(&s).unwrap().timeout, 30);
    let s = section("global", &[("timeout", "18446744073709551616")]);
    assert_eq!(ConfigLoader::parse_global(&s).unwrap().timeout, 30);
}

#[test]
fn error_pages_are_read_in_order() {
    let s = section("error_pages", &[("404", "/e/404.html"), ("500", "/e/500.html")]);
    assert_eq!(
        ConfigLoader::parse_error_pages(&s),
        Ok(vec![(404, "/e/404.html".to_string()), (500, "/e/500.html".to_string())])
    );
}

#[test]
fn error_pages_same_code_replaces_in_place() {
    let s = section("error_pages", &[("404", "a"), ("500", "b"), ("+404", "c"), ("0404", "d")]);
    assert_eq!(
        ConfigLoader::parse_error_pages(&s),
        Ok(vec![(404, "d".to_string()), (500, "b".to_string())])
    );
}

#[test]
fn error_pages_bad_code_is_a_hard_error() {
    let s = section("error_pages", &[("404", "a"), ("40x", "b"), ("zzz", "c")]);
    let err = ConfigLoader::parse_error_pages(&s).unwrap_err();
    assert_eq!(
        err,
        ConfigError::InvalidValue {
            entity: "error_pages".to_string(),
            field: Field::ErrorCode,
            raw: "40x".to_string(),
        }
    );
    assert_eq!(err.kind(), ErrorKind::InvalidValue);
    let s = section("error_pages", &[("65536", "a")]);
    assert!(ConfigLoader::parse_error_pages(&s).is_err());
    let s = section("error_pages", &[("65535", "a"), ("0", "b")]);
    assert_eq!(
        ConfigLoader::parse_error_pages(&s),
        Ok(vec![(65535, "a".to_string()), (0, "b".to_string())])
    );
    assert!(build("[error_pages]\nabc=/x\n").is_err());
}

#[test]
fn server_is_built_from_its_section() {
    let config = build("[server:a]\nhost=example.com\nports=80,443\ndefault=true\n").unwrap();
    assert_eq!(
        config.servers,
        vec![VirtualServer {
            name: "a".to_string(),
            host: "example.com".to_string(),
            ports: vec![80, 443],
            is_default: true,
            root: "./www".to_string(),
            routes: vec![],
        }]
    );
}

#[test]
fn server_reads_root_and_default() {
    let s = section("server:x", &[("host", "h"), ("ports", "1"), ("root", "/srv"), ("default", "maybe")]);
    let server = ConfigLoader::parse_server("x", &s).unwrap();
    assert_eq!(server.root, "/srv");
    assert!(!server.is_default);
    assert_eq!(server.name, "x");
}

#[test]
fn server_ports_drop_what_is_no_port() {
    let config = build("[server:a]\nhost=h\nports=80,abc,443\n").unwrap();
    assert_eq!(config.servers[0].ports, vec![80, 443]);
    let config = build("[server:a]\nhost=h\nports= 80 , 70000, ,-1, 8080 ,0\n").unwrap();
    assert_eq!(config.servers[0].ports, vec![80, 8080, 0]);
    let config = build("[server:a]\nhost=h\nports=\n").unwrap();
    assert_eq!(config.servers[0].ports, Vec::<u16>::new());
    let config = build("[server:a]\nhost=h\nports=80,80\n").unwrap();
    assert_eq!(config.servers[0].ports, vec![80, 80]);
}

#[test]
fn server_without_host_or_ports_fails() {
    let err = build("[server:a]\nports=80\n").unwrap_err();
    assert_eq!(err, ConfigError::MissingField { entity: "a".to_string(), field: Field::Host });
    assert_eq!(err.kind(), ErrorKind::MissingField);
    let err = build("[server:a]\nhost=h\n").unwrap_err();
    assert_eq!(err, ConfigError::MissingField { entity: "a".to_string(), field: Field::Ports });
    let err = build("[server:a]\nroot=/x\n").unwrap_err();
    assert_eq!(err, ConfigError::MissingField { entity: "a".to_string(), field: Field::Host });
}

#[test]
fn servers_keep_the_order_of_the_text() {
    let config =
        build("[server:z]\nhost=h\nports=1\n[server:a]\nhost=h\nports=2\n[server:z]\nroot=/r\n")
            .unwrap();
    assert_eq!(config.servers.len(), 2);
    assert_eq!(config.servers[0].name, "z");
    assert_eq!(config.servers[0].root, "/r");
    assert_eq!(config.servers[1].name, "a");
}

#[test]
fn server_declared_twice_last_wins() {
    let mut sections = Sections::new();
    sections.items.push(section("server:a", &[("host", "one"), ("ports", "1")]));
    sections.items.push(section("server:b", &[("host", "two"), ("ports", "2")]));
    sections.items.push(section("server:a", &[("host", "three"), ("ports", "3")]));
    let config = ConfigLoader::build_config(&sections).unwrap();
    assert_eq!(config.servers.len(), 2);
    assert_eq!(config.servers[0].host, "three");
    assert_eq!(config.servers[1].host, "two");
}

#[test]
fn server_name_may_be_empty_or_hold_colons() {
    let config = build("[server:]\nhost=h\nports=1\n[server:a:b]\nhost=h\nports=2\n").unwrap();
    assert_eq!(config.servers[0].name, "");
    assert_eq!(config.servers[1].name, "a:b");
}

#[test]
fn route_is_attached_to_its_server() {
    let config =
        build("[server:a]\nhost=h\nports=80\n[route:a:home]\npath=/\nmethods=GET,POST\n").unwrap();
    assert_eq!(
        config.servers[0].routes,
        vec![Route {
            path: "/".to_string(),
            methods: vec!["GET".to_string(), "POST".to_string()],
            root: None,
            index: None,
            redirect: None,
            cgi: None,
            upload_dir: None,
            autoindex: false,
            max_file_size: None,
        }]
    );
}

#[test]
fn route_before_its_server_is_attached_too() {
    let config = build("[route:a:home]\npath=/\n[server:a]\nhost=h\nports=80\n").unwrap();
    assert_eq!(config.servers[0].routes.len(), 1);
    assert_eq!(config.servers[0].routes[0].methods, vec!["GET".to_string()]);
}

#[test]
fn route_without_server_is_dropped() {
    let config = build("[route:a:home]\npath=/\nmethods=GET,POST\n").unwrap();
    assert!(config.servers.is_empty());
    let config =
        build("[server:b]\nhost=h\nports=80\n[route:a:home]\npath=/\n[route:b]\npath=/x\n").unwrap();
    assert_eq!(config.servers.len(), 1);
    assert!(config.servers[0].routes.is_empty());
}

#[test]
fn route_without_server_is_still_read() {
    let err = build("[route:a:home]\nmethods=GET\n").unwrap_err();
    assert_eq!(
        err,
        ConfigError::MissingField { entity: "route:a:home".to_string(), field: Field::Path }
    );
    assert!(build("[route:nocolon]\nmethods=GET\n").is_ok());
}

#[test]
fn routes_keep_the_order_of_the_text() {
    let config = build(
        "[server:a]\nhost=h\nports=80\n[route:a:2]\npath=/two\n[route:a:1]\npath=/one\n[route:a:x:y]\npath=/three\n",
    )
    .unwrap();
    let paths: Vec<&str> = config.servers[0].routes.iter().map(|r| r.path.as_str()).collect();
    assert_eq!(paths, vec!["/two", "/one", "/three"]);
}

#[test]
fn route_methods_are_trimmed_and_upper_cased() {
    let s = section("route:a:r", &[("path", "/"), ("methods", " get , Post,,delete ")]);
    let route = ConfigLoader::parse_route(&s).unwrap();
    assert_eq!(route.methods, vec!["GET", "POST", "", "DELETE"]);
    let s = section("route:a:r", &[("path", "/"), ("methods", "")]);
    assert_eq!(ConfigLoader::parse_route(&s).unwrap().methods, vec![""]);
}

#[test]
fn route_reads_its_optional_fields() {
    let s = section(
        "route:a:r",
        &[
            ("path", "/up"),
            ("root", "/srv"),
            ("index", "index.html"),
            ("upload_dir", "/tmp/up"),
            ("autoindex", "true"),
            ("max_file_size", "4096"),
        ],
    );
    let route = ConfigLoader::parse_route(&s).unwrap();
    assert_eq!(route.root, Some("/srv".to_string()));
    assert_eq!(route.index, Some("index.html".to_string()));
    assert_eq!(route.upload_dir, Some("/tmp/up".to_string()));
    assert!(route.autoindex);
    assert_eq!(route.max_file_size, Some(4096));
    let s = section("route:a:r", &[("path", "/"), ("autoindex", "on"), ("max_file_size", "big")]);
    let route = ConfigLoader::parse_route(&s).unwrap();
    assert!(!route.autoindex);
    assert_eq!(route.max_file_size, None);
}

#[test]
fn route_cgi_needs_both_keys() {
    let s = section("r", &[("path", "/"), ("cgi_extension", ".py"), ("cgi_executor", "/usr/bin/python")]);
    assert_eq!(
        ConfigLoader::parse_route(&s).unwrap().cgi,
        Some(CgiConfig { extension: ".py".to_string(), executor: "/usr/bin/python".to_string() })
    );
    let s = section("r", &[("path", "/"), ("cgi_extension", ".py")]);
    assert_eq!(ConfigLoader::parse_route(&s).unwrap().cgi, None);
    let s = section("r", &[("path", "/"), ("cgi_executor", "/usr/bin/python")]);
    assert_eq!(ConfigLoader::parse_route(&s).unwrap().cgi, None);
}

#[test]
fn route_redirect_needs_both_keys() {
    let s = section("r", &[("path", "/"), ("redirect_status", "301"), ("redirect_target", "/new")]);
    assert_eq!(
        ConfigLoader::parse_route(&s).unwrap().redirect,
        Some(Redirect { status: 301, target: "/new".to_string() })
    );
    let s = section("r", &[("path", "/"), ("redirect_status", "abc")]);
    assert_eq!(ConfigLoader::parse_route(&s).unwrap().redirect, None);
    let s = section("r", &[("path", "/"), ("redirect_target", "/new")]);
    assert_eq!(ConfigLoader::parse_route(&s).unwrap().redirect, None);
}

#[test]
fn route_redirect_status_must_be_a_number() {
    let s = section("r", &[("path", "/"), ("redirect_status", "abc"), ("redirect_target", "/new")]);
    let err = ConfigLoader::parse_route(&s).unwrap_err();
    assert_eq!(
        err,
        ConfigError::InvalidValue {
            entity: "r".to_string(),
            field: Field::RedirectStatus,
            raw: "abc".to_string(),
        }
    );
    assert_eq!(err.kind(), ErrorKind::InvalidValue);
    let s = section("r", &[("path", "/"), ("redirect_status", "70000"), ("redirect_target", "/n")]);
    assert!(ConfigLoader::parse_route(&s).is_err());
    let s = section("r", &[("redirect_status", "abc"), ("redirect_target", "/new")]);
    assert_eq!(
        ConfigLoader::parse_route(&s).unwrap_err(),
        ConfigError::MissingField { entity: "r".to_string(), field: Field::Path }
    );
}

#[test]
fn route_redirect_status_outside_the_allowed_codes_is_built() {
    let s = section("r", &[("path", "/"), ("redirect_status", "999"), ("redirect_target", "/new")]);
    assert_eq!(
        ConfigLoader::parse_route(&s).unwrap().redirect,
        Some(Redirect { status: 999, target: "/new".to_string() })
    );
}

#[test]
fn build_fails_on_error_pages_before_servers() {
    let err = build("[server:a]\nports=80\n[error_pages]\nabc=/x\n").unwrap_err();
    assert_eq!(err.kind(), ErrorKind::InvalidValue);
    let err = build("[route:a:r]\nmethods=GET\n[server:a]\nports=80\n").unwrap_err();
    assert_eq!(err, ConfigError::MissingField { entity: "a".to_string(), field: Field::Host });
}

#[test]
fn build_ignores_unknown_sections_and_keys() {
    let config = build("[misc]\na=b\n[servers:a]\nhost=h\n[global]\ncolour=red\n").unwrap();
    assert_eq!(config, ServerConfig::default());
}

#[test]
fn build_twice_gives_equal_configurations() {
    let text = "[global]\ntimeout=5\n[error_pages]\n404=/e\n[server:a]\nhost=h\nports=1,2\n\
                [route:a:r]\npath=/\nmethods=get\n[server:b]\nhost=h\nports=3\ndefault=true\n";
    let first = ConfigLoader::read(text);
    let second = ConfigLoader::read(text);
    assert!(first.is_ok());
    assert_eq!(first, second);
    assert_eq!(first, build(text));
}

#[test]
fn read_reports_parse_errors_first() {
    assert_eq!(
        ConfigLoader::read("[server:a]\nports=80\noops\n"),
        Err(ConfigError::Syntax { line: 3, text: "oops".to_string() })
    );
}

#[test]
fn built_servers_and_pages_are_distinct() {
    let config = build(
        "[error_pages]\n404=/a\n0404=/b\n500=/c\n[server:a]\nhost=h\nports=1\n[server:b]\nhost=h\nports=2\n",
    )
    .unwrap();
    assert_eq!(config.error_pages, vec![(404, "/b".to_string()), (500, "/c".to_string())]);
    assert_eq!(config.servers.len(), 2);
    assert_ne!(config.servers[0].name, config.servers[1].name);
}
