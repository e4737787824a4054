use file_crypto::context::{ContextDoneReason, DoneState};
use file_crypto::proxy::ProxyOption;
use file_crypto::wait_group::TokenCount;

#[test]
fn the_first_reason_settles_a_context() {
    let mut state: DoneState<u32> = DoneState::new();
    assert!(!state.is_done());
    assert!(state.settle(ContextDoneReason::Cancelled(42)));
    assert!(state.is_done());
    assert_eq!(state.done_reason, Some(ContextDoneReason::Cancelled(42)));
    assert!(!state.settle(ContextDoneReason::Timeout));
    assert!(!state.settle(ContextDoneReason::Cancelled(7)));
    assert_eq!(state.done_reason, Some(ContextDoneReason::Cancelled(42)));
}

#[test]
fn a_timeout_settles_a_context_too() {
    let mut state: DoneState<u32> = DoneState::new();
    assert!(state.settle(ContextDoneReason::Timeout));
    assert!(!state.settle(ContextDoneReason::Cancelled(1)));
    assert_eq!(state.done_reason, Some(ContextDoneReason::Timeout));
}

#[test]
fn the_connection_flags_decide_what_is_enabled() {
    let cases = [
        (0u32, false, false),
        (1, false, false),
        (2, false, true),
        (4, true, false),
        (6, true, true),
        (9, false, false),
        (0xf, true, true),
    ];
    for (flags, pac, proxy) in cases {
        let option = ProxyOption::from_query(
            flags,
            "http://pac".to_string(),
            "10.0.0.1:8080".to_string(),
            vec!["localhost".to_string(), "<local>".to_string()],
        );
        assert_eq!(option.pac_enabled, pac);
        assert_eq!(option.proxy_enabled, proxy);
        assert_eq!(option.pac_url, "http://pac");
        assert_eq!(option.proxy_address, "10.0.0.1:8080");
        assert_eq!(option.proxy_bypass_list, vec!["localhost".to_string(), "<local>".to_string()]);
    }
}

#[test]
fn the_last_token_back_makes_the_group_idle() {
    let mut tokens = TokenCount::new();
    assert!(tokens.is_idle());
    tokens.acquire();
    tokens.acquire();
    assert_eq!(tokens.count, 2);
    assert!(!tokens.is_idle());
    assert!(!tokens.release());
    assert!(!tokens.is_idle());
    assert!(tokens.release());
    assert!(tokens.is_idle());
    assert_eq!(tokens.count, 0);
}
