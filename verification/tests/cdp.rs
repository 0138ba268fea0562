use codex_administrator::cdp::{health_is_ready, select_app_target, target_port, CdpError, RawCdpTarget};
use codex_administrator::direct::{DirectCdpTarget, DirectError};
use serde_json::Value;

fn raw(id: &str, kind: &str, url: &str, ws: Option<&str>) -> RawCdpTarget {
    RawCdpTarget { id: id.into(), kind: kind.into(), url: url.into(), websocket_url: ws.map(String::from) }
}

const APP: &str = "app://-/index.html";

#[test]
fn the_single_app_page_is_the_renderer() {
    let targets = vec![
        raw("w", "service_worker", APP, Some("ws://127.0.0.1:9222/devtools/page/w")),
        raw("p1", "page", APP, Some("ws://127.0.0.1:9222/devtools/page/p1")),
        raw("p2", "page", "https://example.com", Some("ws://127.0.0.1:9222/devtools/page/p2")),
        raw("p3", "page", APP, None),
    ];
    let target = select_app_target(&targets, 9222).unwrap().unwrap();
    assert_eq!(target.id, "p1");
    assert_eq!(target.websocket_url, "ws://127.0.0.1:9222/devtools/page/p1");
    assert_eq!(select_app_target(&targets[2..], 9222), Ok(None));
}

#[test]
fn two_renderers_or_a_foreign_port_are_refused() {
    let targets = vec![
        raw("p1", "page", APP, Some("ws://127.0.0.1:9222/devtools/page/p1")),
        raw("p2", "page", APP, Some("ws://127.0.0.1:9222/devtools/page/p2")),
    ];
    assert_eq!(select_app_target(&targets, 9222), Err(CdpError::MultipleRenderers));
    assert_eq!(
        select_app_target(&targets[..1], 9333),
        Err(CdpError::Target(DirectError::NotIsolatedLoopback))
    );
}

#[test]
fn websocket_ports_must_be_explicit() {
    let target = |ws: &str| DirectCdpTarget { id: "p".into(), page_url: APP.into(), websocket_url: ws.into() };
    assert_eq!(target_port(&target("ws://127.0.0.1:9222/devtools/page/p")), Ok(9222));
    assert_eq!(target_port(&target("ws://127.0.0.1/devtools/page/p")), Err(CdpError::MissingPort));
    assert_eq!(target_port(&target("not a url")), Err(CdpError::InvalidWebsocketUrl));
}

#[test]
fn health_requires_ok_and_the_native_provider() {
    let report = |ok: Value, provider: Value| {
        let mut map = serde_json::Map::new();
        map.insert("ok".into(), ok);
        map.insert("provider".into(), provider);
        Value::Object(map)
    };
    assert!(health_is_ready(&report(Value::Bool(true), Value::String("grok_native".into()))));
    assert!(!health_is_ready(&report(Value::Bool(false), Value::String("grok_native".into()))));
    assert!(!health_is_ready(&report(Value::Bool(true), Value::String("openai".into()))));
    assert!(!health_is_ready(&report(Value::String("true".into()), Value::String("grok_native".into()))));
    assert!(!health_is_ready(&Value::Null));
}
