//! Start-up decisions of the server: which folder is its root, where its
//! configuration file is, which routes it mounts, where it listens, and which
//! headers it adds to every response.
use vstd::prelude::*;
use crate::config::{Server, ServerHeader, WebRoute};
use vstd::string::StringSliceAdditionalSpecFns;
use vstd::utf8::encode_utf8;
use crate::layers::{spec_aspx_target, TrimToWildcard};
use crate::plugins::{law_decimal_text_parses_back, spec_parse_i64};
use crate::text::{chars_of, contains_seq, decimal_of, decimal_text, starts_with_seq, string_from_chars};

verus! {

/// How a proxy rewrites the request path before forwarding it.
pub enum ProxyRewrite {
    /// Keep what follows the route (see [`TrimToWildcard`]).
    Trim(TrimToWildcard),
    /// Put this prefix in front of the path.
    Append(String),
    /// Remove this prefix from the path.
    TrimPrefix(String),
}

/// A route forwarded to another server.
pub struct ProxyPlan {
    pub mount: String,
    pub address: String,
    pub https: bool,
    pub rewrite: ProxyRewrite,
}

/// A route served from a folder.
pub struct FolderPlan {
    pub mount: String,
    /// The folder as configured, before variable expansion.
    pub folder: String,
    /// Whether changes in the folder are pushed to hot-reload clients.
    pub watch: bool,
    /// The web path under which the folder's files appear.
    pub web_base: String,
}

/// What the server does with one configured route.
pub enum RoutePlan {
    Folder(FolderPlan),
    Proxy(ProxyPlan),
}

/// Everything the server mounts, in the order it mounts it.
pub struct ServerPlan {
    /// One entry per configured route, in order.
    pub routes: Vec<RoutePlan>,
    /// The catch-all proxy under `/out` to the server's address, if it has one.
    pub out_proxy: Option<ProxyPlan>,
    /// The path under which plugins are called.
    pub plugins_mount: String,
    /// The path of the hot-reload socket.
    pub socket_mount: String,
    /// Whether the root folder serves the requests no route takes.
    pub serve_root: bool,
    /// The address the server listens on.
    pub listen: String,
}

pub open spec fn slash() -> Seq<char> {
    seq!['/']
}

pub open spec fn out_mount() -> Seq<char> {
    seq!['/', 'o', 'u', 't', '/', '{', '*', 'p', 'a', 't', 'h', '}']
}

pub open spec fn out_trim() -> Seq<char> {
    seq!['/', 'o', 'u', 't']
}

pub open spec fn plugins_mount() -> Seq<char> {
    seq!['/', 'p', 'l', 'u', 'g', 'i', 'n', 's', '/', '{', '*', 'p', 'a', 't', 'h', '}']
}

pub open spec fn socket_mount() -> Seq<char> {
    seq!['/', 'w', 's']
}

/// The routes of a server, none when it has no `route` list.
pub open spec fn routes_of(server: Server) -> Seq<WebRoute> {
    match server.route {
        Some(v) => v@,
        None => Seq::empty(),
    }
}

/// Where a proxy route forwards to: its own address, else the server's.
pub open spec fn proxy_address(route: WebRoute, server: Server) -> Seq<char> {
    match route.address {
        Some(a) => a@,
        None => server.address@,
    }
}

/// Whether a proxy route uses HTTPS: its own setting, else the server's,
/// else not.
pub open spec fn route_https(route: WebRoute, server: Server) -> bool {
    match route.https {
        Some(v) => v,
        None => match server.https {
            Some(v) => v,
            None => false,
        },
    }
}

/// The web path under which a folder mounted at `path` shows its files.
pub open spec fn web_base_of(path: Seq<char>) -> Seq<char> {
    if path == slash() {
        Seq::empty()
    } else {
        path
    }
}

/// The path rewrite of a proxy route: an HTTPS route keeps what follows the
/// route when `strip` is set and the whole path otherwise; an HTTP route keeps
/// the whole path.
pub open spec fn rewrite_for(route: WebRoute, https: bool, rewrite: ProxyRewrite) -> bool {
    if https {
        match rewrite {
            ProxyRewrite::Trim(t) => t.0@ == (if route.strip == Some(true) {
                route.path@
            } else {
                Seq::<char>::empty()
            }),
            _ => false,
        }
    } else {
        match rewrite {
            ProxyRewrite::Append(a) => a@ == Seq::<char>::empty(),
            _ => false,
        }
    }
}

/// `plan` is what the server does with `route`.
pub open spec fn plans_route(server: Server, route: WebRoute, plan: RoutePlan) -> bool {
    match route.ifs {
        Some(ifs) => match plan {
            RoutePlan::Folder(f) => {
                &&& f.mount@ == route.path@
                &&& f.folder@ == ifs@
                &&& f.watch == (route.watch == Some(true))
                &&& f.web_base@ == web_base_of(route.path@)
            },
            _ => false,
        },
        None => match plan {
            RoutePlan::Proxy(p) => {
                &&& p.mount@ == route.path@
                &&& p.address@ == proxy_address(route, server)
                &&& p.https == route_https(route, server)
                &&& rewrite_for(route, p.https, p.rewrite)
            },
            _ => false,
        },
    }
}

/// Some proxy route of the server is mounted at `/`.
pub open spec fn root_is_proxied(server: Server) -> bool {
    exists|i: int|
        0 <= i < routes_of(server).len() && (#[trigger] routes_of(server)[i]).ifs is None
            && routes_of(server)[i].path@ == slash()
}

/// `p` is the catch-all proxy under `/out` to the server's address.
pub open spec fn is_out_proxy(server: Server, p: ProxyPlan) -> bool {
    &&& p.mount@ == out_mount()
    &&& p.address@ == server.address@
    &&& p.https == (server.https == Some(true))
    &&& p.rewrite matches ProxyRewrite::TrimPrefix(t) && t@ == out_trim()
}

fn is_slash(s: &str) -> (b: bool)
    ensures
        b == (s@ == slash()),
{
    let c = chars_of(s);
    let r = c.len() == 1 && c[0] == '/';
    proof {
        if c@.len() == 1 && c@[0] == '/' {
            assert(c@ =~= slash());
        }
    }
    r
}

fn copy_text(s: &String) -> (r: String)
    ensures
        r@ == s@,
{
    s.clone()
}

fn plan_route(server: &Server, route: &WebRoute) -> (r: RoutePlan)
    ensures
        plans_route(*server, *route, r),
{
    match &route.ifs {
        Some(ifs) => {
            let web_base = if is_slash(route.path.as_str()) {
                String::new()
            } else {
                copy_text(&route.path)
            };
            RoutePlan::Folder(
                FolderPlan {
                    mount: copy_text(&route.path),
                    folder: copy_text(ifs),
                    watch: match route.watch {
                        Some(w) => w,
                        None => false,
                    },
                    web_base,
                },
            )
        },
        None => {
            let address = match &route.address {
                Some(a) => copy_text(a),
                None => copy_text(&server.address),
            };
            let https = match route.https {
                Some(v) => v,
                None => match server.https {
                    Some(v) => v,
                    None => false,
                },
            };
            let rewrite = if https {
                let strip = match route.strip {
                    Some(v) => v,
                    None => false,
                };
                if strip {
                    ProxyRewrite::Trim(TrimToWildcard(copy_text(&route.path)))
                } else {
                    ProxyRewrite::Trim(TrimToWildcard(String::new()))
                }
            } else {
                ProxyRewrite::Append(String::new())
            };
            RoutePlan::Proxy(ProxyPlan { mount: copy_text(&route.path), address, https, rewrite })
        },
    }
}

/// Decides, from the `[server]` table, everything the server mounts: one plan
/// per route in order, the `/out` proxy when the server has an address, the
/// plugin and hot-reload endpoints, and whether the root folder answers the
/// requests that no route takes (it does unless a proxy route is mounted at `/`).
pub fn plan_server(server: &Server) -> (plan: ServerPlan)
    ensures
        plan.routes@.len() == routes_of(*server).len(),
        forall|i: int|
            0 <= i < plan.routes@.len() ==> plans_route(
                *server,
                routes_of(*server)[i],
                #[trigger] plan.routes@[i],
            ),
        plan.serve_root == !root_is_proxied(*server),
        plan.out_proxy is Some <==> server.address@.len() > 0,
        plan.out_proxy matches Some(p) ==> is_out_proxy(*server, p),
        plan.plugins_mount@ == plugins_mount(),
        plan.socket_mount@ == socket_mount(),
        plan.listen@ == listen_text(server.port as int),
{
    let mut routes: Vec<RoutePlan> = Vec::new();
    let mut root_used = false;
    match &server.route {
        Some(list) => {
            let mut i: usize = 0;
            while i < list.len()
                invariant
                    server.route == Some(*list),
                    i <= list@.len(),
                    routes@.len() == i,
                    forall|k: int|
                        0 <= k < i ==> plans_route(*server, list@[k], #[trigger] routes@[k]),
                    root_used == exists|k: int|
                        0 <= k < i && (#[trigger] list@[k]).ifs is None && list@[k].path@
                            == slash(),
                decreases list@.len() - i,
            {
                let route = &list[i];
                let p = plan_route(server, route);
                routes.push(p);
                if route.ifs.is_none() && is_slash(route.path.as_str()) {
                    root_used = true;
                }
                proof {
                    if root_used {
                        if route.ifs is None && route.path@ == slash() {
                            assert(list@[i as int] == *route);
                        }
                    } else {
                        assert forall|k: int|
                            0 <= k < i + 1 && (#[trigger] list@[k]).ifs is None implies list@[k].path@
                            != slash() by {
                            if k == i {
                                assert(list@[k] == *route);
                            }
                        }
                    }
                }
                i = i + 1;
            }
        },
        None => {},
    }
    let out_proxy = if server.address.as_str().is_empty() {
        None
    } else {
        let https = match server.https {
            Some(v) => v,
            None => false,
        };
        let trim: [char; 4] = ['/', 'o', 'u', 't'];
        let mount: [char; 12] = ['/', 'o', 'u', 't', '/', '{', '*', 'p', 'a', 't', 'h', '}'];
        proof {
            assert(trim@ =~= out_trim());
            assert(mount@ =~= out_mount());
        }
        Some(
            ProxyPlan {
                mount: string_from_chars(&mount),
                address: copy_text(&server.address),
                https,
                rewrite: ProxyRewrite::TrimPrefix(string_from_chars(&trim)),
            },
        )
    };
    let plugins: [char; 16] = ['/', 'p', 'l', 'u', 'g', 'i', 'n', 's', '/', '{', '*', 'p', 'a', 't', 'h', '}'];
    let socket: [char; 3] = ['/', 'w', 's'];
    proof {
        assert(plugins@ =~= plugins_mount());
        assert(socket@ =~= socket_mount());
    }
    ServerPlan {
        routes,
        out_proxy,
        plugins_mount: string_from_chars(&plugins),
        socket_mount: string_from_chars(&socket),
        serve_root: !root_used,
        listen: listen_address(server.port),
    }
}

/// The address the server listens on for a port: `localhost:<port>`.
pub open spec fn listen_text(port: int) -> Seq<char> {
    seq!['l', 'o', 'c', 'a', 'l', 'h', 'o', 's', 't', ':'] + decimal_text(port)
}

/// The address the server listens on for `port`.
pub fn listen_address(port: i32) -> (r: String)
    ensures
        r@ == listen_text(port as int),
{
    let mut v: Vec<char> = vec!['l', 'o', 'c', 'a', 'l', 'h', 'o', 's', 't', ':'];
    let mut digits = decimal_of(port as i64);
    v.append(&mut digits);
    assert(v@ =~= listen_text(port as int));
    string_from_chars(v.as_slice())
}

/// How a configured path has its variables expanded.
#[derive(Debug, Clone, Copy, PartialEq, Eq, Structural)]
pub enum Expansion {
    /// `%NAME%` variables, for paths that start with `%`.
    WindowsVariables,
    /// A leading `~` and `$NAME` variables.
    HomeAndVariables,
    /// `$NAME` variables only.
    Variables,
}

/// `s` starts with the character `c`.
pub open spec fn starts_with_char(s: Seq<char>, c: char) -> bool {
    s.len() > 0 && s[0] == c
}

/// How the root folder given on the command line is expanded.
pub open spec fn spec_root_expansion(root: Seq<char>) -> Expansion {
    if starts_with_char(root, '%') {
        Expansion::WindowsVariables
    } else if starts_with_char(root, '~') {
        Expansion::HomeAndVariables
    } else {
        Expansion::Variables
    }
}

/// How the folder of a folder route is expanded.
pub open spec fn spec_folder_expansion(folder: Seq<char>) -> Expansion {
    if starts_with_char(folder, '%') {
        Expansion::WindowsVariables
    } else {
        Expansion::HomeAndVariables
    }
}

fn first_char_is(s: &str, c: char) -> (b: bool)
    ensures
        b == starts_with_char(s@, c),
{
    let v = chars_of(s);
    v.len() > 0 && v[0] == c
}

/// How the root folder given on the command line is expanded.
pub fn root_expansion(root: &str) -> (e: Expansion)
    ensures
        e == spec_root_expansion(root@),
{
    if first_char_is(root, '%') {
        Expansion::WindowsVariables
    } else if first_char_is(root, '~') {
        Expansion::HomeAndVariables
    } else {
        Expansion::Variables
    }
}

/// How the folder of a folder route is expanded.
pub fn folder_expansion(folder: &str) -> (e: Expansion)
    ensures
        e == spec_folder_expansion(folder@),
{
    if first_char_is(folder, '%') {
        Expansion::WindowsVariables
    } else {
        Expansion::HomeAndVariables
    }
}

/// Expands a leading `~` and `$NAME` variables (`shellexpand::full`). The result
/// depends on the environment and the user's home folder; what is stated holds
/// of every outcome, as the crate's source shows it: without a `$` nothing is
/// looked up and so nothing fails, and a path with neither a `$` nor a leading
/// `~` comes back unchanged. An error comes back as the lookup error's text.
#[verifier::external_body]
fn shell_expand_full(path: &str) -> (r: Result<String, String>)
    ensures
        !contains_seq(path@, seq!['$']) ==> r is Ok,
        !contains_seq(path@, seq!['$']) && !starts_with_char(path@, '~') ==> r is Ok
            && r->Ok_0@ == path@,
{
    match shellexpand::full(path) {
        Ok(c) => Ok(c.into_owned()),
        Err(e) => Err(e.to_string()),
    }
}

/// Expands `$NAME` variables (`shellexpand::env`). The result depends on the
/// environment; what is stated holds of every outcome, as the crate's source
/// shows it: a path without a `$` comes back unchanged. An error comes back as
/// the lookup error's text.
#[verifier::external_body]
fn shell_expand_env(path: &str) -> (r: Result<String, String>)
    ensures
        !contains_seq(path@, seq!['$']) ==> r is Ok && r->Ok_0@ == path@,
{
    match shellexpand::env(path) {
        Ok(c) => Ok(c.into_owned()),
        Err(e) => Err(e.to_string()),
    }
}

/// Expands `path` the way `how` says, for the two ways the shell expander
/// handles (`%NAME%` paths are expanded by the caller). On success the result
/// is what the expander gave; a path with no `$` is never an error, and comes
/// back unchanged unless a leading `~` is to be expanded.
pub fn expand_path(path: &str, how: Expansion) -> (r: Result<String, String>)
    requires
        how != Expansion::WindowsVariables,
    ensures
        !contains_seq(path@, seq!['$']) ==> r is Ok,
        !contains_seq(path@, seq!['$']) && !(how == Expansion::HomeAndVariables
            && starts_with_char(path@, '~')) ==> (r matches Ok(t) && t@ == path@),
{
    match how {
        Expansion::HomeAndVariables => shell_expand_full(path),
        _ => shell_expand_env(path),
    }
}

/// The root folder of the server: `.` when none is given, else the given one
/// expanded as [`spec_root_expansion`] says (by the caller for `%NAME%`).
pub fn resolve_root(root: &Option<String>) -> (r: Result<String, String>)
    requires
        root matches Some(p) ==> spec_root_expansion(p@) != Expansion::WindowsVariables,
    ensures
        root is None ==> (r matches Ok(t) && t@ == seq!['.']),
        root matches Some(p) ==> (!contains_seq(p@, seq!['$']) ==> r is Ok),
        root matches Some(p) ==> (!contains_seq(p@, seq!['$']) && !starts_with_char(p@, '~')
            ==> (r matches Ok(t) && t@ == p@)),
{
    match root {
        Some(p) => {
            let how = root_expansion(p.as_str());
            expand_path(p.as_str(), how)
        },
        None => {
            let dot: [char; 1] = ['.'];
            assert(dot@ =~= seq!['.']);
            Ok(string_from_chars(&dot))
        },
    }
}

/// Where the configuration file is, relative to the root.
pub enum ConfigFile {
    /// The root given is the configuration file itself; the server's root is
    /// the folder that holds it.
    RootItself,
    /// The configuration file is this file inside the root folder.
    InRoot(String),
}

/// What the root given on the command line turned out to be.
#[derive(Debug, Clone, Copy, PartialEq, Eq, Structural)]
pub enum RootKind {
    Missing,
    File,
    Folder,
}

/// Why the server could not start.
#[derive(Debug, Clone, Copy, PartialEq, Eq, Structural)]
pub enum InitError {
    /// The root does not exist.
    InvalidPath,
    /// The configuration file does not exist.
    ConfigNotFound,
}

pub open spec fn config_file_name() -> Seq<char> {
    seq!['w', 'e', 'b', 'c', 'o', 'n', 'f', 'i', 'g', '.', 't', 'o', 'm', 'l']
}

pub open spec fn invalid_path_text() -> Seq<char> {
    seq!['I', 'n', 'v', 'a', 'l', 'i', 'd', ' ', 'p', 'a', 't', 'h']
}

pub open spec fn config_not_found_text() -> Seq<char> {
    seq![
        'T', 'o', 'm', 'l', ' ', 'n', 'o', 't', ' ', 'f', 'o', 'u', 'n', 'd', ' ', 'm', 'u', 't',
        ' ', 'b', 'e', ' ', 'p', 'l', 'a', 'c', 'e', ' ', 'i', 'n', ' ', 'r', 'o', 'o', 't', ' ',
        'o', 'f', ' ', 's', 'e', 'r', 'v', 'e', 'r',
    ]
}

impl InitError {
    /// The message the server stops with.
    pub fn message(&self) -> (r: String)
        ensures
            *self == InitError::InvalidPath ==> r@ == invalid_path_text(),
            *self == InitError::ConfigNotFound ==> r@ == config_not_found_text(),
    {
        match self {
            InitError::InvalidPath => {
                let t: [char; 12] = ['I', 'n', 'v', 'a', 'l', 'i', 'd', ' ', 'p', 'a', 't', 'h'];
                assert(t@ =~= invalid_path_text());
                string_from_chars(&t)
            },
            InitError::ConfigNotFound => {
                let t: [char; 45] = [
                    'T', 'o', 'm', 'l', ' ', 'n', 'o', 't', ' ', 'f', 'o', 'u', 'n', 'd', ' ', 'm',
                    'u', 't', ' ', 'b', 'e', ' ', 'p', 'l', 'a', 'c', 'e', ' ', 'i', 'n', ' ', 'r',
                    'o', 'o', 't', ' ', 'o', 'f', ' ', 's', 'e', 'r', 'v', 'e', 'r',
                ];
                assert(t@ =~= config_not_found_text());
                string_from_chars(&t)
            },
        }
    }
}

/// Where the configuration file is for a root of the given kind: a missing
/// root is an error, a file is the configuration itself, and a folder holds
/// `webconfig.toml`.
pub fn config_file_for(root: RootKind) -> (r: Result<ConfigFile, InitError>)
    ensures
        root == RootKind::Missing <==> r == Err::<ConfigFile, InitError>(InitError::InvalidPath),
        root == RootKind::File <==> r matches Ok(ConfigFile::RootItself),
        root == RootKind::Folder <==> (r matches Ok(ConfigFile::InRoot(n)) && n@
            == config_file_name()),
{
    match root {
        RootKind::Missing => Err(InitError::InvalidPath),
        RootKind::File => Ok(ConfigFile::RootItself),
        RootKind::Folder => {
            let t: [char; 14] = ['w', 'e', 'b', 'c', 'o', 'n', 'f', 'i', 'g', '.', 't', 'o', 'm', 'l'];
            assert(t@ =~= config_file_name());
            Ok(ConfigFile::InRoot(string_from_chars(&t)))
        },
    }
}

/// The headers of a server, none when it has no `headers` list.
pub open spec fn headers_of(server: Server) -> Seq<ServerHeader> {
    match server.headers {
        Some(v) => v@,
        None => Seq::empty(),
    }
}

/// A byte allowed in a header name: a letter, a digit, or one of
/// ``!#$%&'*+-.^_`|~``.
pub open spec fn is_token_byte(b: u8) -> bool {
    ||| 48 <= b <= 57
    ||| 65 <= b <= 90
    ||| 97 <= b <= 122
    ||| b == 33 || b == 35 || b == 36 || b == 37 || b == 38 || b == 39
    ||| b == 42 || b == 43 || b == 45 || b == 46
    ||| b == 94 || b == 95 || b == 96 || b == 124 || b == 126
}

/// The bytes that `HeaderName::from_str` accepts: one to 65535 name bytes.
pub open spec fn header_name_valid(bytes: Seq<u8>) -> bool {
    1 <= bytes.len() <= 65535 && forall|i: int| 0 <= i < bytes.len() ==> is_token_byte(#[trigger] bytes[i])
}

/// A byte allowed in a header value: a tab, or any byte from 32 on but 127.
pub open spec fn is_value_byte(b: u8) -> bool {
    (b >= 32 && b != 127) || b == 9
}

/// The bytes that `HeaderValue::from_str` accepts.
pub open spec fn header_value_valid(bytes: Seq<u8>) -> bool {
    forall|i: int| 0 <= i < bytes.len() ==> is_value_byte(#[trigger] bytes[i])
}

#[verifier::external_type_specification]
#[verifier::external_body]
pub struct ExHeaderName(axum::http::HeaderName);

#[verifier::external_type_specification]
#[verifier::external_body]
pub struct ExHeaderValue(axum::http::HeaderValue);

/// The header name `HeaderName::from_str` makes of accepted bytes.
pub uninterp spec fn made_header_name(bytes: Seq<u8>) -> axum::http::HeaderName;

/// The header value `HeaderValue::from_str` makes of accepted bytes.
pub uninterp spec fn made_header_value(bytes: Seq<u8>) -> axum::http::HeaderValue;

/// A header name (`HeaderName::from_str`). As the crate's source shows, it is
/// accepted exactly when its bytes are 1 to 65535 token bytes; the name made
/// (lower-cased) is named, not stated, and depends on the bytes alone.
#[verifier::external_body]
fn header_name(text: &str) -> (r: Option<axum::http::HeaderName>)
    ensures
        r is Some == header_name_valid(text.spec_bytes()),
        r is Some ==> r->Some_0 == made_header_name(text.spec_bytes()),
{
    text.parse::<axum::http::HeaderName>().ok()
}

/// A header value (`HeaderValue::from_str`). As the crate's source shows, it is
/// accepted exactly when every byte is a tab or a byte from 32 on other than
/// 127; the value made is named, not stated, and depends on the bytes alone.
#[verifier::external_body]
fn header_value(text: &str) -> (r: Option<axum::http::HeaderValue>)
    ensures
        r is Some == header_value_valid(text.spec_bytes()),
        r is Some ==> r->Some_0 == made_header_value(text.spec_bytes()),
{
    axum::http::HeaderValue::from_str(text).ok()
}

/// A configured header that cannot be sent, by its position in the list.
#[derive(Debug, Clone, Copy, PartialEq, Eq, Structural)]
pub enum HeaderError {
    InvalidName(usize),
    InvalidValue(usize),
}

/// A configured header can be sent: its name and value are both accepted.
pub open spec fn header_ok(h: ServerHeader) -> bool {
    header_name_valid(encode_utf8(h.key@)) && header_value_valid(encode_utf8(h.value@))
}

/// The headers added to every response, in the configured order: each
/// configured header becomes a name and a value, or the first one that cannot
/// (its name checked before its value) is reported.
pub fn response_headers(server: &Server) -> (r: Result<
    Vec<(axum::http::HeaderName, axum::http::HeaderValue)>,
    HeaderError,
>)
    ensures
        r is Ok <==> forall|i: int|
            0 <= i < headers_of(*server).len() ==> header_ok(#[trigger] headers_of(*server)[i]),
        r matches Ok(v) ==> v@.len() == headers_of(*server).len(),
        r matches Ok(v) ==> forall|i: int|
            0 <= i < v@.len() ==> (#[trigger] v@[i]).0 == made_header_name(
                encode_utf8(headers_of(*server)[i].key@),
            ) && v@[i].1 == made_header_value(encode_utf8(headers_of(*server)[i].value@)),
        r matches Err(HeaderError::InvalidName(i)) ==> {
            &&& i < headers_of(*server).len()
            &&& forall|j: int| 0 <= j < i ==> header_ok(#[trigger] headers_of(*server)[j])
            &&& !header_name_valid(encode_utf8(headers_of(*server)[i as int].key@))
        },
        r matches Err(HeaderError::InvalidValue(i)) ==> {
            &&& i < headers_of(*server).len()
            &&& forall|j: int| 0 <= j < i ==> header_ok(#[trigger] headers_of(*server)[j])
            &&& header_name_valid(encode_utf8(headers_of(*server)[i as int].key@))
            &&& !header_value_valid(encode_utf8(headers_of(*server)[i as int].value@))
        },
{
    let mut out: Vec<(axum::http::HeaderName, axum::http::HeaderValue)> = Vec::new();
    match &server.headers {
        Some(list) => {
            let mut i: usize = 0;
            while i < list.len()
                invariant
                    server.headers == Some(*list),
                    i <= list@.len(),
                    out@.len() == i,
                    forall|j: int| 0 <= j < i ==> header_ok(#[trigger] list@[j]),
                    forall|j: int|
                        0 <= j < i ==> (#[trigger] out@[j]).0 == made_header_name(
                            encode_utf8(list@[j].key@),
                        ) && out@[j].1 == made_header_value(encode_utf8(list@[j].value@)),
                decreases list@.len() - i,
            {
                let h = &list[i];
                let name = match header_name(h.key.as_str()) {
                    Some(n) => n,
                    None => {
                        proof {
                            assert(headers_of(*server)[i as int] == *h);
                            assert(!header_ok(headers_of(*server)[i as int]));
                        }
                        return Err(HeaderError::InvalidName(i));
                    },
                };
                let value = match header_value(h.value.as_str()) {
                    Some(v) => v,
                    None => {
                        proof {
                            assert(headers_of(*server)[i as int] == *h);
                            assert(!header_ok(headers_of(*server)[i as int]));
                        }
                        return Err(HeaderError::InvalidValue(i));
                    },
                };
                out.push((name, value));
                i = i + 1;
            }
        },
        None => {},
    }
    Ok(out)
}

/// A request redirected for `.aspx` lands under the `/out` proxy's prefix, and
/// removing that prefix gives back the request's path and query.
pub proof fn law_redirect_lands_in_out_proxy(orig: Seq<char>)
    ensures
        spec_aspx_target(orig) matches Some(t) ==> starts_with_seq(t, out_trim()) && t.skip(
            out_trim().len() as int,
        ) == orig,
{
    if let Some(t) = spec_aspx_target(orig) {
        assert(t.subrange(0, 4) =~= out_trim());
        assert(t.skip(4) =~= orig);
    }
}

/// A proxy route uses HTTPS exactly as its own `https` setting says; only a
/// route without one falls back to the server's, and to HTTP when neither says.
pub proof fn law_route_https_setting_wins(server: Server, route: WebRoute, plan: RoutePlan)
    requires
        route.ifs is None,
        plans_route(server, route, plan),
    ensures
        plan is Proxy,
        route.https == Some(true) ==> plan->Proxy_0.https,
        route.https == Some(false) ==> !plan->Proxy_0.https,
        route.https is None ==> plan->Proxy_0.https == (server.https == Some(true)),
{
}

/// A folder route is watched exactly when its `watch` setting is `true`: a
/// `false` or missing setting leaves it unwatched.
pub proof fn law_folder_watched_only_when_asked(server: Server, route: WebRoute, plan: RoutePlan)
    requires
        route.ifs is Some,
        plans_route(server, route, plan),
    ensures
        plan is Folder,
        route.watch == Some(true) ==> plan->Folder_0.watch,
        route.watch == Some(false) ==> !plan->Folder_0.watch,
        route.watch is None ==> !plan->Folder_0.watch,
{
}

/// A proxy route is mounted at its path and forwards to its own address, or
/// to the server's when it has none. Over HTTPS it keeps what follows the route
/// when `strip` is `true` and the whole path otherwise; over HTTP it forwards
/// the whole path.
pub proof fn law_proxy_route_target(server: Server, route: WebRoute, plan: RoutePlan)
    requires
        route.ifs is None,
        plans_route(server, route, plan),
    ensures
        plan is Proxy,
        plan->Proxy_0.mount@ == route.path@,
        route.address matches Some(a) ==> plan->Proxy_0.address@ == a@,
        route.address is None ==> plan->Proxy_0.address@ == server.address@,
        plan->Proxy_0.https && route.strip == Some(true) ==> (plan->Proxy_0.rewrite matches ProxyRewrite::Trim(t)
            && t.0@ == route.path@),
        plan->Proxy_0.https && route.strip != Some(true) ==> (plan->Proxy_0.rewrite matches ProxyRewrite::Trim(t)
            && t.0@.len() == 0),
        !plan->Proxy_0.https ==> (plan->Proxy_0.rewrite matches ProxyRewrite::Append(a) && a@.len()
            == 0),
{
}

/// A folder route is mounted at its path, serves its configured folder, and
/// announces its files under its path, or directly under `/` when mounted at `/`.
pub proof fn law_folder_route_target(server: Server, route: WebRoute, plan: RoutePlan)
    requires
        route.ifs is Some,
        plans_route(server, route, plan),
    ensures
        plan is Folder,
        plan->Folder_0.mount@ == route.path@,
        plan->Folder_0.folder@ == route.ifs->Some_0@,
        route.path@ == seq!['/'] ==> plan->Folder_0.web_base@.len() == 0,
        route.path@ != seq!['/'] ==> plan->Folder_0.web_base@ == route.path@,
{
}

/// The root folder answers the requests no route takes unless some proxy route
/// (a route without a folder) is mounted at `/`.
pub proof fn law_root_taken_only_by_a_proxy_at_slash(server: Server)
    ensures
        root_is_proxied(server) <==> exists|i: int|
            0 <= i < routes_of(server).len() && (#[trigger] routes_of(server)[i]).ifs is None
                && routes_of(server)[i].path@ == seq!['/'],
        server.route is None ==> !root_is_proxied(server),
{
}

/// The `/out` proxy is mounted at `/out/{*path}`, forwards to the server's
/// address over HTTPS only when the server's `https` is `true`, and removes the
/// `/out` prefix.
pub proof fn law_out_proxy_target(server: Server, p: ProxyPlan)
    requires
        is_out_proxy(server, p),
    ensures
        p.mount@ == seq!['/', 'o', 'u', 't', '/', '{', '*', 'p', 'a', 't', 'h', '}'],
        p.address@ == server.address@,
        p.https <==> server.https == Some(true),
        p.rewrite matches ProxyRewrite::TrimPrefix(t) && t@ == seq!['/', 'o', 'u', 't'],
{
}

/// A root starting with `%` is expanded as `%NAME%` variables, one starting with
/// `~` for the home folder and `$NAME` variables, and any other for `$NAME`
/// variables only; a folder route's folder is expanded for `%NAME%` when it
/// starts with `%` and for the home folder and `$NAME` variables otherwise.
pub proof fn law_expansion_follows_first_character(path: Seq<char>)
    ensures
        path.len() > 0 && path[0] == '%' ==> spec_root_expansion(path)
            == Expansion::WindowsVariables && spec_folder_expansion(path)
            == Expansion::WindowsVariables,
        path.len() > 0 && path[0] == '~' ==> spec_root_expansion(path)
            == Expansion::HomeAndVariables && spec_folder_expansion(path)
            == Expansion::HomeAndVariables,
        !(path.len() > 0 && (path[0] == '%' || path[0] == '~')) ==> spec_root_expansion(path)
            == Expansion::Variables && spec_folder_expansion(path) == Expansion::HomeAndVariables,
{
}

/// The port in the listen address reads back as the configured port.
pub proof fn law_listen_address_holds_port(port: int)
    requires
        i32::MIN <= port <= i32::MAX,
    ensures
        spec_parse_i64(listen_text(port).skip(10)) == Some(port),
        listen_text(port).take(10) == seq!['l', 'o', 'c', 'a', 'l', 'h', 'o', 's', 't', ':'],
{
    let prefix = seq!['l', 'o', 'c', 'a', 'l', 'h', 'o', 's', 't', ':'];
    assert(listen_text(port).skip(10) =~= decimal_text(port));
    assert(listen_text(port).take(10) =~= prefix);
    law_decimal_text_parses_back(port);
}

} // verus!
