use webserver::reload::{
    reload_message, reload_web_path, socket_step, ChangeKind, ReloadTracker, SocketAction,
    SocketEvent,
};

#[test]
fn change_is_pushed_once() {
    let mut t = ReloadTracker::new();
    assert!(t.observe(b"/srv/a.html", 10));
    assert!(!t.observe(b"/srv/a.html", 10));
    assert!(t.observe(b"/srv/b.html", 10));
    assert!(t.observe(b"/srv/a.html", 11));
    assert!(!t.observe(b"/srv/a.html", 11));
    assert!(!t.observe(b"/srv/b.html", 10));
    assert!(t.observe(b"/srv/a.html", 10));
}

#[test]
fn only_content_changes_reload() {
    assert!(ChangeKind::DataModified.triggers_reload());
    assert!(ChangeKind::AnyModified.triggers_reload());
    assert!(!ChangeKind::Removed.triggers_reload());
    assert!(!ChangeKind::OtherModified.triggers_reload());
    assert!(!ChangeKind::Other.triggers_reload());
}

#[test]
fn web_path_joins_base_and_relative_path() {
    assert_eq!(reload_web_path("", "index.html"), "/index.html");
    assert_eq!(reload_web_path("/docs", "guide\\intro.md"), "/docs/guide/intro.md");
    assert_eq!(reload_web_path("/docs/", "a.md"), "/docs/a.md");
    assert_eq!(reload_web_path("", "/a"), "/a");
    assert_eq!(reload_web_path("", "//a"), "//a");
}

#[test]
fn message_holds_path_and_content() {
    let m = reload_message("/a.html", "<p>\"hi\"</p>");
    let v: serde_json::Value = serde_json::from_str(&m).unwrap();
    assert_eq!(v["path"], "/a.html");
    assert_eq!(v["content"], "<p>\"hi\"</p>");
    assert_eq!(v.as_object().unwrap().len(), 2);
}

#[test]
fn socket_reacts_to_events() {
    match socket_step(SocketEvent::Broadcast("m".to_string())) {
        SocketAction::Forward(m) => assert_eq!(m, "m"),
        _ => panic!("expected forwarding"),
    }
    assert!(matches!(socket_step(SocketEvent::ClientOther), SocketAction::Wait));
    assert!(matches!(socket_step(SocketEvent::SendFailed), SocketAction::Stop));
    assert!(matches!(socket_step(SocketEvent::ClientClosed), SocketAction::Stop));
    assert!(matches!(socket_step(SocketEvent::Shutdown), SocketAction::CloseAndStop));
}

#[test]
fn socket_forwards_broadcasts_until_shutdown() {
    let events = vec![
        SocketEvent::Broadcast("a".to_string()),
        SocketEvent::ClientOther,
        SocketEvent::Broadcast("b".to_string()),
        SocketEvent::Shutdown,
        SocketEvent::Broadcast("c".to_string()),
    ];
    let mut sent = Vec::new();
    let mut closed = false;
    for e in events {
        match socket_step(e) {
            SocketAction::Forward(m) => sent.push(m),
            SocketAction::Wait => {}
            SocketAction::Stop => break,
            SocketAction::CloseAndStop => {
                closed = true;
                break;
            }
        }
    }
    assert_eq!(sent, vec!["a".to_string(), "b".to_string()]);
    assert!(closed);
}
