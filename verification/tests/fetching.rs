use paramspider::http::{configure_builder, user_agent_or_default};
use paramspider::http::{
    build_client, normalize_proxy, pick_user_agent, user_agents, FetchAction, FetchEvent,
    FetchRetry, MAX_RETRIES, RETRY_DELAY_SECS,
};

#[test]
fn normalize_proxy_adds_http_scheme() {
    assert_eq!(normalize_proxy("127.0.0.1:7890"), "http://127.0.0.1:7890");
}

#[test]
fn normalize_proxy_keeps_a_scheme() {
    assert_eq!(normalize_proxy("socks5://127.0.0.1:1080"), "socks5://127.0.0.1:1080");
}

#[test]
fn normalize_proxy_is_idempotent() {
    let once = normalize_proxy("10.0.0.1:3128");
    assert_eq!(normalize_proxy(&once), once);
}

#[test]
fn build_client_without_proxy_succeeds() {
    assert!(build_client(None).is_ok());
}

#[test]
fn build_client_with_proxy_succeeds() {
    assert!(build_client(Some("127.0.0.1:7890")).is_ok());
}

#[test]
fn build_client_with_bad_proxy_fails() {
    assert!(build_client(Some("http://[::1")).is_err());
}

#[test]
fn picked_user_agent_is_known() {
    let agents = user_agents();
    assert_eq!(agents.len(), 15);
    for _ in 0..20 {
        assert!(agents.contains(&pick_user_agent()));
    }
}

#[test]
fn fetch_delivers_the_first_body() {
    let (mut f, a) = FetchRetry::start();
    assert!(matches!(a, FetchAction::Send { .. }));
    let a = f.step(FetchEvent::Response(Some("body".to_string())));
    assert!(matches!(a, FetchAction::Deliver { text } if text == "body"));
    assert!(f.finished);
}

#[test]
fn fetch_retries_after_a_pause() {
    let (mut f, _) = FetchRetry::start();
    let a = f.step(FetchEvent::Response(None));
    assert!(matches!(a, FetchAction::Pause { seconds } if seconds == RETRY_DELAY_SECS));
    let a = f.step(FetchEvent::PauseOver);
    assert!(matches!(a, FetchAction::Send { .. }));
    assert_eq!(f.attempts, 2);
    let a = f.step(FetchEvent::Response(Some("late".to_string())));
    assert!(matches!(a, FetchAction::Deliver { text } if text == "late"));
}

#[test]
fn fetch_gives_up_after_max_retries() {
    let (mut f, _) = FetchRetry::start();
    let mut sends = 1;
    loop {
        let a = f.step(FetchEvent::Response(None));
        assert!(matches!(a, FetchAction::Pause { seconds: 5 }));
        match f.step(FetchEvent::PauseOver) {
            FetchAction::Send { .. } => sends += 1,
            FetchAction::GiveUp => break,
            _ => panic!("unexpected action"),
        }
    }
    assert_eq!(sends, MAX_RETRIES);
    assert_eq!(sends, 3);
    assert!(f.finished);
}

#[test]
fn configure_builder_refuses_a_bad_proxy_only() {
    assert!(configure_builder(None).is_ok());
    assert!(configure_builder(Some("127.0.0.1:7890")).is_ok());
    assert!(configure_builder(Some("http://[::1")).is_err());
}

#[test]
fn user_agent_or_default_falls_back() {
    assert_eq!(user_agent_or_default(Some("agent")), "agent");
    assert_eq!(user_agent_or_default(None), "Mozilla/5.0");
}
