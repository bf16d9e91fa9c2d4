use im::cli::plus;
use im::config::{AppConfig, DiscoveryConfig, GlobalConfig, IpConfig};
use im::discovery::{endpoint_key, event_type_for, EventType, WatchEventKind};
use im::model::EndpointInfo;

fn config(env: &str) -> AppConfig {
    AppConfig {
        global: GlobalConfig { env: env.to_string() },
        ip_config: IpConfig { service_path: "/yim/ip_dispatcher".to_string() },
        discovery: DiscoveryConfig { endpoints: vec!["localhost:2379".to_string()], timeout: 10 },
    }
}

#[test]
fn debug_env_is_recognised() {
    assert!(config("debug").global.is_debug());
    assert!(!config("prod").global.is_debug());
    assert!(!config("Debug").global.is_debug());
    assert!(!config("").global.is_debug());
}

#[test]
fn put_adds_and_delete_removes() {
    assert_eq!(event_type_for(WatchEventKind::Put), EventType::AddNodeEvent);
    assert_eq!(event_type_for(WatchEventKind::Delete), EventType::DelNodeEvent);
}

#[test]
fn key_joins_address_and_port() {
    let k = endpoint_key(&"127.0.0.1".to_string(), &"6969".to_string());
    assert_eq!(k, "127.0.0.1:6969");
    let other = endpoint_key(&"127.0.0.1".to_string(), &"6970".to_string());
    assert_ne!(k, other);
}

#[test]
fn plus_adds() {
    assert_eq!(plus(2, 3).unwrap(), 5);
    assert_eq!(plus(0, u64::MAX).unwrap(), u64::MAX);
}

#[test]
fn endpoint_info_holds_metadata() {
    let ed = EndpointInfo {
        ip: "127.0.0.1".to_string(),
        port: "6969".to_string(),
        metadata: Some(serde_json::Value::String("busy".to_string())),
    };
    assert_eq!(ed.port, "6969");
    assert!(ed.metadata.is_some());
}
