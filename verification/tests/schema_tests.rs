use sedsprintf_rs::schema::{
    check_schema, ensure_caps_name, merge_ipc_overlay, normalize_base_schema, reliable_mode_from_name,
    JsonElement, JsonEndpoint, JsonType, TelemetryConfig,
};
use sedsprintf_rs::ReliableMode;

fn endpoint(rust: &str, name: &str, link_local_only: bool) -> JsonEndpoint {
    JsonEndpoint {
        rust: rust.to_string(),
        name: name.to_string(),
        doc: None,
        deprecated_broadcast_mode: None,
        link_local_only: Some(link_local_only),
    }
}

fn datatype(rust: &str, name: &str, endpoints: &[&str]) -> JsonType {
    JsonType {
        rust: rust.to_string(),
        name: name.to_string(),
        doc: None,
        reliable: Some(false),
        reliable_mode: Some("None".to_string()),
        priority: Some(0),
        element: JsonElement::Dynamic { data_type: "String".to_string() },
        class: "Data".to_string(),
        endpoints: endpoints.iter().map(|ep| ep.to_string()).collect(),
    }
}

fn base_schema() -> TelemetryConfig {
    TelemetryConfig {
        endpoints: vec![endpoint("Radio", "RADIO", false), endpoint("SdCard", "SD_CARD", false)],
        types: vec![datatype("MessageData", "MESSAGE_DATA", &["Radio", "SdCard"])],
    }
}

#[test]
fn merge_ipc_overlay_appends_valid_entries() {
    let mut base = base_schema();
    let overlay = TelemetryConfig {
        endpoints: vec![endpoint("SoftwareBus", "SOFTWARE_BUS", true)],
        types: vec![datatype("IpcMessage", "IPC_MESSAGE", &["SoftwareBus"])],
    };

    merge_ipc_overlay(&mut base, overlay, "ipc.json").unwrap();

    assert_eq!(base.endpoints.len(), 3);
    assert_eq!(base.types.len(), 2);
    assert_eq!(base.endpoints[2].rust, "SoftwareBus");
    assert_eq!(base.types[1].name, "IPC_MESSAGE");
}

#[test]
fn merge_ipc_overlay_coerces_overlay_endpoints_to_link_local() {
    let mut base = base_schema();
    let overlay = TelemetryConfig {
        endpoints: vec![endpoint("SoftwareBus", "SOFTWARE_BUS", false)],
        types: vec![datatype("IpcMessage", "IPC_MESSAGE", &["SoftwareBus"])],
    };

    merge_ipc_overlay(&mut base, overlay, "ipc.json").unwrap();
    assert_eq!(base.endpoints[2].link_local_only, Some(true));
}

#[test]
fn normalize_base_schema_forces_non_link_local_endpoints() {
    let mut base = TelemetryConfig {
        endpoints: vec![endpoint("Radio", "RADIO", true)],
        types: vec![datatype("MessageData", "MESSAGE_DATA", &["Radio"])],
    };

    normalize_base_schema(&mut base);
    assert_eq!(base.endpoints[0].link_local_only, Some(false));
}

#[test]
fn normalize_base_schema_upgrades_legacy_broadcast_mode_never() {
    let mut base = TelemetryConfig {
        endpoints: vec![JsonEndpoint {
            rust: "SoftwareBus".to_string(),
            name: "SOFTWARE_BUS".to_string(),
            doc: None,
            deprecated_broadcast_mode: Some("Never".to_string()),
            link_local_only: None,
        }],
        types: vec![datatype("IpcMessage", "IPC_MESSAGE", &["SoftwareBus"])],
    };

    normalize_base_schema(&mut base);
    assert_eq!(base.endpoints[0].link_local_only, Some(true));
}

#[test]
fn merge_ipc_overlay_rejects_endpoint_collisions() {
    let mut base = base_schema();
    let overlay = TelemetryConfig {
        endpoints: vec![endpoint("Radio", "SOFTWARE_BUS", true)],
        types: vec![datatype("IpcMessage", "IPC_MESSAGE", &["Radio"])],
    };

    let err = merge_ipc_overlay(&mut base, overlay, "ipc.json").unwrap_err();
    assert!(err.contains("endpoint rust variant"));
    assert!(err.contains("collides"));
}

#[test]
fn merge_ipc_overlay_rejects_type_name_collisions() {
    let mut base = base_schema();
    let overlay = TelemetryConfig {
        endpoints: vec![endpoint("SoftwareBus", "SOFTWARE_BUS", true)],
        types: vec![datatype("IpcMessage", "MESSAGE_DATA", &["SoftwareBus"])],
    };

    let err = merge_ipc_overlay(&mut base, overlay, "ipc.json").unwrap_err();
    assert!(err.contains("type name"));
    assert!(err.contains("collides"));
}

#[test]
fn merge_error_message_is_exact_and_base_is_kept() {
    let mut base = base_schema();
    let overlay = TelemetryConfig {
        endpoints: vec![endpoint("Bus", "RADIO", true)],
        types: vec![],
    };
    let err = merge_ipc_overlay(&mut base, overlay, "ipc.json").unwrap_err();
    assert_eq!(err, "ipc.json: IPC overlay endpoint name \"RADIO\" collides with the base schema");
    assert_eq!(base.endpoints.len(), 2);
    assert_eq!(base.types.len(), 1);
}

#[test]
fn merge_rejects_duplicates_inside_the_overlay() {
    let mut base = base_schema();
    let overlay = TelemetryConfig {
        endpoints: vec![endpoint("Bus", "BUS", true), endpoint("Bus", "BUS_TWO", true)],
        types: vec![],
    };
    let err = merge_ipc_overlay(&mut base, overlay, "o.json").unwrap_err();
    assert_eq!(err, "o.json: IPC overlay endpoint rust variant \"Bus\" collides with the base schema");
}

#[test]
fn caps_names_are_checked() {
    assert!(ensure_caps_name("endpoint", "GPS_DATA2").is_ok());
    assert_eq!(ensure_caps_name("endpoint", "").unwrap_err(), "endpoint.name is empty");
    assert_eq!(
        ensure_caps_name("endpoint", "Radio").unwrap_err(),
        "endpoint.name must be ALL CAPS/underscore (e.g. \"RADIO\", \"GPS_DATA\"); got \"Radio\""
    );
}

#[test]
fn reliable_mode_names_ignore_case() {
    assert_eq!(reliable_mode_from_name("None"), Ok(ReliableMode::Disabled));
    assert_eq!(reliable_mode_from_name("ORDERED"), Ok(ReliableMode::Ordered));
    assert_eq!(reliable_mode_from_name("unOrdered"), Ok(ReliableMode::Unordered));
    assert_eq!(
        reliable_mode_from_name("sometimes").unwrap_err(),
        "invalid reliable_mode: \"sometimes\" (expected \"None\", \"Ordered\", or \"Unordered\")"
    );
}

#[test]
fn builtin_entries_are_refused() {
    let mut cfg = base_schema();
    assert!(check_schema(&cfg).is_ok());
    cfg.types.push(datatype("TimeSyncRequest", "X", &[]));
    assert_eq!(
        check_schema(&cfg).unwrap_err(),
        "telemetry_config.json: TimeSync types are built-in and must not be defined in the schema"
    );
    let mut cfg = base_schema();
    cfg.endpoints.push(endpoint("Discovery", "DISC", false));
    assert_eq!(
        check_schema(&cfg).unwrap_err(),
        "telemetry_config.json: Discovery endpoint is built-in and must not be defined in the schema"
    );
    let mut cfg = base_schema();
    cfg.endpoints.push(endpoint("Bus", "bus", false));
    assert!(check_schema(&cfg).unwrap_err().starts_with("endpoint.name must be ALL CAPS"));
}
