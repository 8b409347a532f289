use omega_bench_suite::gateway::{
    connections_settled, gateway_endpoint, gateway_url, messages_in_window, publish_command,
    reports_progress, subscribe_message,
};

#[test]
fn subscribers_rotate_over_four_gateways() {
    assert_eq!(gateway_url(0), "ws://127.0.0.1:8082");
    assert_eq!(gateway_url(1), "ws://127.0.0.2:8082");
    assert_eq!(gateway_url(2), "ws://127.0.0.3:8082");
    assert_eq!(gateway_url(3), "ws://127.0.0.4:8082");
    assert_eq!(gateway_url(4), "ws://127.0.0.1:8082");
    assert_eq!(gateway_url(19999), "ws://127.0.0.4:8082");
}

#[test]
fn gateway_endpoints_parse() {
    let url = gateway_endpoint(1).unwrap();
    assert_eq!(url.as_str(), "ws://127.0.0.2:8082/");
    assert_eq!(url.port(), Some(8082));
    assert_eq!(gateway_endpoint(2).unwrap().as_str(), "ws://127.0.0.3:8082/");
    assert_eq!(gateway_endpoint(7).unwrap().as_str(), "ws://127.0.0.4:8082/");
}

#[test]
fn subscription_message_names_the_topic() {
    assert_eq!(
        subscribe_message("ws_benchmark"),
        r#"{"action": "subscribe", "key": "ws_benchmark"}"#
    );
    assert_eq!(subscribe_message(""), r#"{"action": "subscribe", "key": ""}"#);
}

#[test]
fn publisher_sets_the_topic() {
    let value = r#"{"event":"trade","price":65000.0,"amount":0.15}"#;
    let expected = format!("*3\r\n$3\r\nSET\r\n$12\r\nws_benchmark\r\n${}\r\n{}\r\n", value.len(), value);
    assert_eq!(publish_command("ws_benchmark", value), expected.into_bytes());
    assert_eq!(publish_command("é", ""), "*3\r\n$3\r\nSET\r\n$2\r\né\r\n$0\r\n\r\n".as_bytes().to_vec());
}

#[test]
fn connection_phase_and_counters() {
    assert!(!connections_settled(19699, 20000));
    assert!(connections_settled(19700, 20000));
    assert!(connections_settled(0, 300));
    assert!(reports_progress(0));
    assert!(reports_progress(300));
    assert!(!reports_progress(301));
    assert_eq!(messages_in_window(10, 35), 25);
    assert_eq!(messages_in_window(7, 7), 0);
}
