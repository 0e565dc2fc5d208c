use turbine::config::EndpointConfig;

#[test]
fn effective_ws_url_explicit() {
    let ep = EndpointConfig {
        url: "https://rpc.example.com".into(),
        weight: 1,
        auth: None,
        methods: None,
        ws_url: Some("wss://ws.example.com".into()),
    };
    assert_eq!(ep.effective_ws_url(), Some("wss://ws.example.com".into()));
}

#[test]
fn effective_ws_url_derived_https() {
    let ep = EndpointConfig {
        url: "https://rpc.example.com".into(),
        weight: 1,
        auth: None,
        methods: None,
        ws_url: None,
    };
    assert_eq!(ep.effective_ws_url(), Some("wss://rpc.example.com".into()));
}

#[test]
fn effective_ws_url_derived_http() {
    let ep = EndpointConfig {
        url: "http://localhost:8545".into(),
        weight: 1,
        auth: None,
        methods: None,
        ws_url: None,
    };
    assert_eq!(ep.effective_ws_url(), Some("ws://localhost:8545".into()));
}
