use tc_otel::ams::{AmsHeader, AmsNetId, ADS_CMD_READ_STATE, ADS_STATE_REQUEST};
use tc_otel::dispatcher::parse_info_xml;
use tc_otel::error::AdsError;
use tc_otel::registry::TaskRegistry;
use tc_otel::router::AdsRouter;
use tc_otel::time::Timestamp;
use tc_otel::transport::mqtt::{
    on_event, BrokerAction, BrokerEvent, CertificateError, MqttAmsTransport, MqttTlsConfig, MqttTransportConfig,
};

fn captured_frame() -> Vec<u8> {
    let mut frame = vec![15, 15, 15, 15, 1, 1, 0x53, 0x03, 172, 18, 164, 255, 1, 1, 0x00, 0x80];
    frame.extend_from_slice(&[2, 0, 4, 0, 12, 0, 0, 0, 0, 0, 0, 0, 1, 0, 0, 0]);
    frame.extend_from_slice(&[0; 12]);
    frame
}

#[test]
fn test_mqtt_fixture_parse() {
    let fixture_data = captured_frame();
    assert!(fixture_data.len() >= 32, "Fixture too small");
    let header = AmsHeader::parse(&fixture_data).expect("Failed to parse AMS header");
    assert_eq!(
        header.target_net_id.to_string(),
        "15.15.15.15.1.1",
        "target_net_id mismatch"
    );
    assert_eq!(
        header.source_net_id.to_string(),
        "172.18.164.255.1.1",
        "source_net_id mismatch"
    );
    assert_eq!(header.command_id, 2, "command_id should be READ (2)");
    assert_eq!(header.data_length, 12, "data_length should be 12");
}

#[test]
fn test_mqtt_transport_config_default() {
    let config = MqttTransportConfig {
        broker_host: "localhost".to_string(),
        broker_port: 1883,
        client_id: "tc-otel-test".to_string(),
        topic_prefix: "AdsOverMqtt".to_string(),
        local_net_id: "1.1.1.1.1.1".parse().unwrap(),
        username: None,
        password: None,
        tls: None,
    };
    assert_eq!(config.broker_host, "localhost");
    assert_eq!(config.broker_port, 1883);
    assert!(config.username.is_none());
    assert!(config.tls.is_none());
}

#[test]
fn test_mqtt_transport_config_with_credentials() {
    let config = MqttTransportConfig {
        broker_host: "broker.example.com".to_string(),
        broker_port: 8883,
        client_id: "tc-otel-prod".to_string(),
        topic_prefix: "AdsOverMqtt".to_string(),
        local_net_id: "192.168.1.100.1.1".parse().unwrap(),
        username: Some("mqtt_user".to_string()),
        password: Some("mqtt_pass".to_string()),
        tls: None,
    };
    assert_eq!(config.username, Some("mqtt_user".to_string()));
    assert_eq!(config.password, Some("mqtt_pass".to_string()));
    assert!(config.tls.is_none());
}

#[test]
fn test_mqtt_tls_config_ca_only() {
    let tls_config = MqttTlsConfig {
        ca_cert_path: "/etc/ssl/certs/ca.pem".to_string(),
        client_cert_path: None,
        client_key_path: None,
        insecure_skip_verify: false,
    };
    assert_eq!(
        tls_config.ca_cert_path,
        "/etc/ssl/certs/ca.pem".to_string()
    );
    assert!(tls_config.client_cert_path.is_none());
    assert!(!tls_config.insecure_skip_verify);
}

#[test]
fn test_mqtt_tls_config_with_client_certs() {
    let tls_config = MqttTlsConfig {
        ca_cert_path: "/etc/ssl/certs/ca.pem".to_string(),
        client_cert_path: Some("/etc/ssl/certs/client.pem".to_string()),
        client_key_path: Some("/etc/ssl/private/client.key".to_string()),
        insecure_skip_verify: false,
    };
    assert!(tls_config.client_cert_path.is_some());
    assert!(tls_config.client_key_path.is_some());
}

#[test]
fn test_mqtt_transport_config_with_tls() {
    let tls_config = MqttTlsConfig {
        ca_cert_path: "/etc/ssl/certs/ca.pem".to_string(),
        client_cert_path: None,
        client_key_path: None,
        insecure_skip_verify: false,
    };
    let config = MqttTransportConfig {
        broker_host: "broker.example.com".to_string(),
        broker_port: 8883,
        client_id: "tc-otel-tls".to_string(),
        topic_prefix: "AdsOverMqtt".to_string(),
        local_net_id: "192.168.1.100.1.1".parse().unwrap(),
        username: Some("mqtt_user".to_string()),
        password: Some("mqtt_pass".to_string()),
        tls: Some(tls_config),
    };
    assert!(config.tls.is_some());
    assert_eq!(config.broker_port, 8883);
}

#[test]
fn test_certificate_error_display() {
    let err = CertificateError::ReadError {
        path: "/etc/ssl/certs/ca.pem".to_string(),
        source: "file not found".to_string(),
    };
    let msg = err.to_string();
    assert!(msg.contains("Failed to read certificate file"));
    assert!(msg.contains("/etc/ssl/certs/ca.pem"));
}

fn transport() -> MqttAmsTransport {
    let config = MqttTransportConfig {
        broker_host: "localhost".to_string(),
        broker_port: 1883,
        client_id: "tc-otel-test".to_string(),
        topic_prefix: "AdsOverMqtt".to_string(),
        local_net_id: AmsNetId([1, 1, 1, 1, 1, 1]),
        username: Some("u".to_string()),
        password: None,
        tls: None,
    };
    assert!(config.credentials().is_none());
    MqttAmsTransport::new(config, AdsRouter::new(16150, false, TaskRegistry::new()))
}

#[test]
fn connecting_announces_the_service() {
    let transport = transport();
    assert_eq!(transport.config.subscribe_topic(), "AdsOverMqtt/1.1.1.1.1.1/ams");
    let (topic, document) = transport.config.on_connected();
    assert_eq!(topic, "AdsOverMqtt/1.1.1.1.1.1/info");
    assert_eq!(parse_info_xml(document.as_bytes()), Some(true));
}

#[test]
fn frames_are_answered_to_their_sender() {
    let mut transport = transport();
    let header = AmsHeader {
        target_net_id: AmsNetId([1, 1, 1, 1, 1, 1]),
        target_port: 16150,
        source_net_id: AmsNetId([9, 8, 7, 6, 1, 1]),
        source_port: 40000,
        command_id: ADS_CMD_READ_STATE,
        state_flags: ADS_STATE_REQUEST,
        data_length: 0,
        error_code: 0,
        invoke_id: 77,
    };
    let now = Timestamp { secs: 0, nanos: 0 };
    let out = transport.on_publish(&header.serialize(), now).out.unwrap();
    assert_eq!(out.topic, "AdsOverMqtt/9.8.7.6.1.1/ams/res");
    let answer = AmsHeader::parse(&out.frame).unwrap();
    assert_eq!(answer.invoke_id, 77);
    assert!(transport.on_publish(&[1, 2, 3], now).out.is_none());
}

#[test]
fn all_certificate_errors_have_messages() {
    let bad = CertificateError::InvalidFormat("no key".to_string());
    assert!(bad.to_string().contains("no key"));
    let tls = MqttTlsConfig {
        ca_cert_path: "ca".to_string(),
        client_cert_path: Some("cert".to_string()),
        client_key_path: None,
        insecure_skip_verify: false,
    };
    assert!(tls.client_files().is_none());
}

#[test]
fn events_of_the_broker() {
    let mut transport = transport();
    let now = Timestamp { secs: 0, nanos: 0 };
    let mut step = |event| on_event(&transport.config, &mut transport.router, event, now).0;
    match step(BrokerEvent::Connected) {
        BrokerAction::Announce { topic, .. } => assert_eq!(topic, "AdsOverMqtt/1.1.1.1.1.1/info"),
        other => panic!("expected an announcement, got {:?}", other),
    }
    assert!(matches!(step(BrokerEvent::Other), BrokerAction::Wait));
    assert!(matches!(step(BrokerEvent::Frame(vec![1, 2, 3])), BrokerAction::Wait));
    match step(BrokerEvent::Frame(captured_frame())) {
        BrokerAction::Answer(out) => assert_eq!(out.topic, "AdsOverMqtt/172.18.164.255.1.1/ams/res"),
        other => panic!("expected an answer, got {:?}", other),
    }
    let tls = CertificateError::InvalidFormat("no key".to_string());
    for (event, text) in [
        (BrokerEvent::TlsFailed(tls), "TLS configuration error: Invalid certificate format: no key"),
        (BrokerEvent::SubscribeFailed("gone".to_string()), "Failed to subscribe to MQTT: gone"),
        (BrokerEvent::Failed("reset".to_string()), "MQTT error: reset"),
    ] {
        match step(event) {
            BrokerAction::Stop(e) => assert_eq!(e, AdsError::BufferError(text.to_string())),
            other => panic!("expected an end, got {:?}", other),
        }
    }
}
