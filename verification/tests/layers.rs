use webserver::layers::{RewriteLayer, RewriteService, TrimToWildcard};

#[test]
fn wildcard_route_keeps_path_from_wildcard_position() {
    let t = TrimToWildcard("/api/{*path}".to_string());
    assert!(t.accepts("/api/users/1"));
    assert_eq!(t.rewrite("/api/users/1"), "/users/1");
}

#[test]
fn wildcard_position_is_taken_from_the_last_opener() {
    let t = TrimToWildcard("/a/{*x}/{*y}".to_string());
    assert_eq!(t.rewrite("/a/b/c/d/e"), "d/e");
}

#[test]
fn literal_route_prefix_is_stripped() {
    let t = TrimToWildcard("/static".to_string());
    assert!(t.accepts("/static/css/a.css"));
    assert_eq!(t.rewrite("/static/css/a.css"), "/css/a.css");
}

#[test]
fn empty_route_forwards_whole_path() {
    let t = TrimToWildcard(String::new());
    assert!(t.accepts("/anything/here"));
    assert_eq!(t.rewrite("/anything/here"), "/anything/here");
}

#[test]
fn route_not_in_path_leaves_path_unchanged() {
    let t = TrimToWildcard("/x".to_string());
    assert_eq!(t.rewrite("/y/z"), "/y/z");
}

#[test]
fn route_found_inside_path_is_not_accepted() {
    let t = TrimToWildcard("/x".to_string());
    assert!(!t.accepts("/a/x"));
}

#[test]
fn wildcard_beyond_path_is_not_accepted() {
    let t = TrimToWildcard("/very/long/{*p}".to_string());
    assert!(!t.accepts("/a"));
}

#[test]
fn wildcard_inside_a_multibyte_character_is_not_accepted() {
    let t = TrimToWildcard("x/{*p}".to_string());
    assert!(!t.accepts("é"));
    assert!(t.accepts("aé"));
    assert_eq!(t.rewrite("aé"), "é");
}

#[test]
fn aspx_request_is_redirected_under_out() {
    assert_eq!(
        RewriteService::<()>::redirect_target("/page.aspx?x=1"),
        Some("/out/page.aspx?x=1".to_string())
    );
}

#[test]
fn other_request_is_not_redirected() {
    assert_eq!(RewriteService::<()>::redirect_target("/index.html"), None);
    assert_eq!(RewriteService::<()>::redirect_target(""), None);
}

#[test]
fn layer_wraps_the_service() {
    let svc = RewriteLayer.layer(7u32);
    assert_eq!(svc.inner, 7);
}

#[test]
fn redirected_request_keeps_its_path_after_out() {
    let orig = "/shop/cart.aspx?id=3";
    let target = RewriteService::<()>::redirect_target(orig).expect("a redirect");
    assert_eq!(target.strip_prefix("/out"), Some(orig));
}
