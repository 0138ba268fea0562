use codex_administrator::direct::{
    tolerate_transient_maintenance_failure, verify_project_owned_root_shape, DirectCdpTarget, DirectError,
};

fn target(id: &str, websocket: &str) -> DirectCdpTarget {
    DirectCdpTarget { id: id.into(), page_url: "app://-/index.html".into(), websocket_url: websocket.into() }
}

#[test]
fn targets_must_be_the_isolated_renderer_on_its_port() {
    assert_eq!(target("abc", "ws://127.0.0.1:9333/devtools/page/abc").validate_for_port(9333), Ok(()));
    assert_eq!(
        target("abc", "ws://127.0.0.1:9334/devtools/page/abc").validate_for_port(9333),
        Err(DirectError::NotIsolatedLoopback)
    );
    assert_eq!(
        target("abc", "ws://127.0.0.1:9333/devtools/page/other").validate_for_port(9333),
        Err(DirectError::TargetMismatch)
    );
    let mut page = target("abc", "ws://127.0.0.1:9333/devtools/page/abc");
    page.page_url = "https://example.com".into();
    assert_eq!(page.validate_for_port(9333), Err(DirectError::NotAppRenderer));
}

#[test]
fn instance_roots_live_in_the_product_instances_directory() {
    assert_eq!(verify_project_owned_root_shape(r"C:\Users\me\AppData\Local\CodexAdministrator\instances\default"), Ok(()));
    assert!(verify_project_owned_root_shape(r"C:\Temp\default").is_err());
}

#[test]
fn maintenance_failures_are_tolerated_until_the_timeout() {
    let mut since = None;
    assert!(tolerate_transient_maintenance_failure(&mut since, 100, 50));
    assert_eq!(since, Some(100));
    assert!(tolerate_transient_maintenance_failure(&mut since, 140, 50));
    assert!(!tolerate_transient_maintenance_failure(&mut since, 151, 50));
}
