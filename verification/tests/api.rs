use webserver::api::{
    config_file_for, expand_path, folder_expansion, listen_address, plan_server, resolve_root,
    response_headers, root_expansion, ConfigFile, Expansion, HeaderError, InitError, ProxyRewrite,
    RootKind, RoutePlan,
};
use webserver::config::{Server, ServerHeader, WebRoute};

fn route(path: &str) -> WebRoute {
    WebRoute {
        path: path.to_string(),
        ifs: None,
        address: None,
        https: None,
        strip: None,
        watch: None,
    }
}

fn server(routes: Vec<WebRoute>) -> Server {
    Server {
        address: "localhost:5000".to_string(),
        port: 8080,
        plugins: None,
        route: Some(routes),
        headers: None,
        https: None,
    }
}

#[test]
fn plan_keeps_routes_in_order() {
    let mut folder = route("/");
    folder.ifs = Some("./www".to_string());
    folder.watch = Some(true);
    let mut docs = route("/docs");
    docs.ifs = Some("~/docs".to_string());
    let mut api = route("/api/{*path}");
    api.address = Some("example.org".to_string());
    api.https = Some(true);
    api.strip = Some(true);
    let plain = route("/legacy");
    let plan = plan_server(&server(vec![folder, docs, api, plain]));
    assert_eq!(plan.routes.len(), 4);
    match &plan.routes[0] {
        RoutePlan::Folder(f) => {
            assert_eq!(f.mount, "/");
            assert_eq!(f.folder, "./www");
            assert!(f.watch);
            assert_eq!(f.web_base, "");
        }
        _ => panic!("expected a folder"),
    }
    match &plan.routes[1] {
        RoutePlan::Folder(f) => {
            assert_eq!(f.web_base, "/docs");
            assert!(!f.watch);
        }
        _ => panic!("expected a folder"),
    }
    match &plan.routes[2] {
        RoutePlan::Proxy(p) => {
            assert_eq!(p.address, "example.org");
            assert!(p.https);
            match &p.rewrite {
                ProxyRewrite::Trim(t) => assert_eq!(t.0, "/api/{*path}"),
                _ => panic!("expected trimming"),
            }
        }
        _ => panic!("expected a proxy"),
    }
    match &plan.routes[3] {
        RoutePlan::Proxy(p) => {
            assert_eq!(p.address, "localhost:5000");
            assert!(!p.https);
            match &p.rewrite {
                ProxyRewrite::Append(a) => assert_eq!(a, ""),
                _ => panic!("expected appending"),
            }
        }
        _ => panic!("expected a proxy"),
    }
    assert!(plan.serve_root);
    assert_eq!(plan.listen, "localhost:8080");
    assert_eq!(plan.plugins_mount, "/plugins/{*path}");
    assert_eq!(plan.socket_mount, "/ws");
}

#[test]
fn https_route_without_strip_forwards_whole_path() {
    let mut r = route("/secure");
    r.https = Some(true);
    let plan = plan_server(&server(vec![r]));
    match &plan.routes[0] {
        RoutePlan::Proxy(p) => match &p.rewrite {
            ProxyRewrite::Trim(t) => assert_eq!(t.0, ""),
            _ => panic!("expected trimming"),
        },
        _ => panic!("expected a proxy"),
    }
}

#[test]
fn server_https_setting_applies_to_routes_without_one() {
    let mut s = server(vec![route("/a")]);
    s.https = Some(true);
    let plan = plan_server(&s);
    match &plan.routes[0] {
        RoutePlan::Proxy(p) => assert!(p.https),
        _ => panic!("expected a proxy"),
    }
}

#[test]
fn proxy_at_root_replaces_the_root_folder() {
    let plan = plan_server(&server(vec![route("/")]));
    assert!(!plan.serve_root);
}

#[test]
fn out_proxy_follows_the_server_address() {
    let plan = plan_server(&server(vec![]));
    let out = plan.out_proxy.expect("an out proxy");
    assert_eq!(out.mount, "/out/{*path}");
    assert_eq!(out.address, "localhost:5000");
    assert!(!out.https);
    match &out.rewrite {
        ProxyRewrite::TrimPrefix(t) => assert_eq!(t, "/out"),
        _ => panic!("expected prefix trimming"),
    }
    let mut s = server(vec![]);
    s.address = String::new();
    s.route = None;
    let plan = plan_server(&s);
    assert!(plan.out_proxy.is_none());
    assert!(plan.routes.is_empty());
    assert!(plan.serve_root);
}

#[test]
fn listen_address_holds_the_port() {
    assert_eq!(listen_address(8080), "localhost:8080");
    assert_eq!(listen_address(0), "localhost:0");
    assert_eq!(listen_address(-1), "localhost:-1");
    assert_eq!(listen_address(i32::MIN), "localhost:-2147483648");
}

#[test]
fn expansion_depends_on_first_character() {
    assert_eq!(root_expansion("%APPDATA%\\site"), Expansion::WindowsVariables);
    assert_eq!(root_expansion("~/site"), Expansion::HomeAndVariables);
    assert_eq!(root_expansion("/srv/$SITE"), Expansion::Variables);
    assert_eq!(folder_expansion("%X%"), Expansion::WindowsVariables);
    assert_eq!(folder_expansion("/srv"), Expansion::HomeAndVariables);
}

#[test]
fn plain_paths_expand_to_themselves() {
    assert_eq!(resolve_root(&None), Ok(".".to_string()));
    assert_eq!(resolve_root(&Some("/srv/www".to_string())), Ok("/srv/www".to_string()));
    assert_eq!(
        expand_path("/srv/www", Expansion::HomeAndVariables),
        Ok("/srv/www".to_string())
    );
}

#[test]
fn unknown_variable_is_an_error() {
    let r = expand_path("/srv/$WEBSERVER_TEST_SURELY_UNSET_VARIABLE", Expansion::Variables);
    assert!(r.is_err());
}

#[test]
fn config_file_location_follows_root_kind() {
    assert!(matches!(config_file_for(RootKind::Missing), Err(InitError::InvalidPath)));
    assert!(matches!(config_file_for(RootKind::File), Ok(ConfigFile::RootItself)));
    match config_file_for(RootKind::Folder) {
        Ok(ConfigFile::InRoot(name)) => assert_eq!(name, "webconfig.toml"),
        _ => panic!("expected the file in the root"),
    }
}

#[test]
fn init_errors_have_their_messages() {
    assert_eq!(InitError::InvalidPath.message(), "Invalid path");
    assert_eq!(
        InitError::ConfigNotFound.message(),
        "Toml not found mut be place in root of server"
    );
}

#[test]
fn configured_headers_are_parsed_in_order() {
    let mut s = server(vec![]);
    s.headers = Some(vec![
        ServerHeader { key: "X-Frame-Options".to_string(), value: "DENY".to_string() },
        ServerHeader { key: "Cache-Control".to_string(), value: "no-cache".to_string() },
    ]);
    let h = response_headers(&s).expect("valid headers");
    assert_eq!(h.len(), 2);
    assert_eq!(h[0].0.as_str(), "x-frame-options");
    assert_eq!(h[1].1.to_str().unwrap(), "no-cache");
}

#[test]
fn invalid_header_name_is_reported() {
    let mut s = server(vec![]);
    s.headers = Some(vec![
        ServerHeader { key: "Ok".to_string(), value: "v".to_string() },
        ServerHeader { key: "Bad Name".to_string(), value: "\n".to_string() },
    ]);
    assert_eq!(response_headers(&s).err(), Some(HeaderError::InvalidName(1)));
}

#[test]
fn invalid_header_value_is_reported() {
    let mut s = server(vec![]);
    s.headers = Some(vec![ServerHeader { key: "X-A".to_string(), value: "a\nb".to_string() }]);
    assert_eq!(response_headers(&s).err(), Some(HeaderError::InvalidValue(0)));
}

#[test]
fn leading_tilde_is_expanded() {
    let r = expand_path("~/site", Expansion::HomeAndVariables).expect("a home folder");
    assert_ne!(r, "~/site");
    assert!(r.ends_with("/site"));
    assert_eq!(expand_path("~/site", Expansion::Variables), Ok("~/site".to_string()));
}

#[test]
fn duplicate_headers_keep_configured_order() {
    let mut s = server(vec![]);
    s.headers = Some(vec![
        ServerHeader { key: "X-A".to_string(), value: "1".to_string() },
        ServerHeader { key: "x-a".to_string(), value: "2".to_string() },
    ]);
    let h = response_headers(&s).expect("valid headers");
    assert_eq!(h[0].0, h[1].0);
    assert_eq!(h[0].1.to_str().unwrap(), "1");
    assert_eq!(h[1].1.to_str().unwrap(), "2");
    let mut map = axum::http::HeaderMap::new();
    for (n, v) in h {
        map.insert(n, v);
    }
    assert_eq!(map.get("x-a").unwrap().to_str().unwrap(), "2");
}
