use snap7::gateway::bridge::{plan_write, poll_reads};
use snap7::gateway::config::{GatewayConfig, OpcSecurityConfig, PlcConfig, TagSpec};
use snap7::gateway::error::Error;
use snap7::gateway::registry::{describe_plc_error, NodeId, TagRegistry};
use snap7::gateway::setup::plan_gateway;
use snap7::gateway::values::{
    bytes_to_variant, node_access_level, node_data_type, parse_security, transport_size_bytes,
    variant_to_bytes, DataType, SecurityMode, SecurityPolicy, Variant,
};
use snap7::proto::s7::header::TransportSize;

fn spec(tag: &str, name: &str) -> TagSpec {
    TagSpec { tag: tag.into(), name: name.into(), writable: false }
}

fn single_plc(addr: &str, tags: Vec<TagSpec>) -> GatewayConfig {
    GatewayConfig {
        opc_endpoint: "opc.tcp://0.0.0.0:4840".into(),
        poll_interval_ms: 1000,
        plc_addr: Some(addr.into()),
        tags: Some(tags),
        plcs: None,
        opc_security: OpcSecurityConfig::default(),
    }
}

#[test]
fn parse_single_plc_config() {
    let cfg = single_plc("127.0.0.1:102", vec![spec("DB1,REAL4", "MotorSpeed")]);
    let plcs = cfg.plc_configs();
    assert_eq!(plcs.len(), 1);
    assert_eq!(plcs[0].addr, "127.0.0.1:102");
    assert_eq!(plcs[0].tags.len(), 1);
}

#[test]
fn parse_multi_plc_config() {
    let cfg = GatewayConfig {
        opc_endpoint: "opc.tcp://0.0.0.0:4840".into(),
        poll_interval_ms: 1000,
        plc_addr: None,
        tags: None,
        plcs: Some(vec![
            PlcConfig {
                addr: "10.0.0.1:102".into(),
                poll_interval_ms: 1000,
                tags: vec![spec("DB1,REAL0", "Temp1")],
            },
            PlcConfig {
                addr: "10.0.0.2:102".into(),
                poll_interval_ms: 2000,
                tags: vec![spec("DB5,WORD0", "Pressure1")],
            },
        ]),
        opc_security: OpcSecurityConfig::default(),
    };
    let plcs = cfg.plc_configs();
    assert_eq!(plcs.len(), 2);
    assert_eq!(plcs[0].addr, "10.0.0.1:102");
    assert_eq!(plcs[0].tags.len(), 1);
    assert_eq!(plcs[1].addr, "10.0.0.2:102");
    assert_eq!(plcs[1].poll_interval_ms, 2000);
}

#[test]
fn multi_plc_takes_precedence() {
    let mut cfg = single_plc("127.0.0.1:102", vec![]);
    cfg.tags = None;
    cfg.plcs = Some(vec![PlcConfig {
        addr: "10.0.0.1:102".into(),
        poll_interval_ms: 1000,
        tags: vec![spec("DB1,REAL0", "Tag1")],
    }]);
    let plcs = cfg.plc_configs();
    assert_eq!(plcs.len(), 1);
    assert_eq!(plcs[0].addr, "10.0.0.1:102");
}

#[test]
fn security_defaults() {
    let cfg = single_plc("127.0.0.1:102", vec![spec("DB1,BYTE0", "Status")]);
    assert_eq!(cfg.opc_security.policy, "None");
    assert_eq!(cfg.opc_security.mode, "None");
}

#[test]
fn security_with_cert() {
    let mut cfg = single_plc("127.0.0.1:102", vec![spec("DB1,BYTE0", "Status")]);
    cfg.opc_security = OpcSecurityConfig {
        policy: "Basic256Sha256".into(),
        mode: "SignAndEncrypt".into(),
        certificate: Some("/etc/certs/server.pem".into()),
        private_key: Some("/etc/certs/key.pem".into()),
    };
    assert_eq!(cfg.opc_security.policy, "Basic256Sha256");
    assert_eq!(cfg.opc_security.mode, "SignAndEncrypt");
    assert!(cfg.opc_security.certificate.is_some());
    assert_eq!(
        parse_security(&cfg.opc_security).unwrap(),
        (SecurityPolicy::Basic256Sha256, SecurityMode::SignAndEncrypt)
    );
}

#[test]
fn empty_plcs_returns_empty() {
    let cfg = GatewayConfig {
        opc_endpoint: "opc.tcp://0.0.0.0:4840".into(),
        poll_interval_ms: 1000,
        plc_addr: None,
        tags: None,
        plcs: None,
        opc_security: OpcSecurityConfig::default(),
    };
    assert!(cfg.plc_configs().is_empty());
}

#[test]
fn legacy_plc_used_when_plcs_listed_empty() {
    let mut cfg = single_plc("1.2.3.4:102", vec![spec("DB1,BYTE0", "S")]);
    cfg.poll_interval_ms = 250;
    cfg.plcs = Some(vec![]);
    let plcs = cfg.plc_configs();
    assert_eq!(plcs.len(), 1);
    assert_eq!(plcs[0].poll_interval_ms, 250);
}

#[test]
fn decode_f32_big_endian() {
    let bytes = [0x3F_u8, 0x80, 0x00, 0x00];
    let v = bytes_to_variant(&bytes, TransportSize::Real).unwrap();
    assert!(matches!(v, Variant::Float(bits) if (f32::from_bits(bits) - 1.0f32).abs() < 1e-6));
}

#[test]
fn decode_u16_big_endian() {
    let bytes = [0x01_u8, 0x00];
    let v = bytes_to_variant(&bytes, TransportSize::Word).unwrap();
    assert_eq!(v, Variant::UInt16(256));
}

#[test]
fn decode_i16_negative() {
    let bytes = [0xFF_u8, 0x80];
    let v = bytes_to_variant(&bytes, TransportSize::Int).unwrap();
    assert_eq!(v, Variant::Int16(-128));
}

#[test]
fn decode_insufficient_bytes_returns_none() {
    let bytes = [0x01_u8];
    assert!(bytes_to_variant(&bytes, TransportSize::Word).is_none());
}

#[test]
fn decode_byte() {
    let bytes = [0x42_u8];
    let v = bytes_to_variant(&bytes, TransportSize::Byte).unwrap();
    assert_eq!(v, Variant::Byte(0x42));
}

#[test]
fn decode_bit_true() {
    let bytes = [0x01_u8];
    let v = bytes_to_variant(&bytes, TransportSize::Bit).unwrap();
    assert_eq!(v, Variant::Boolean(true));
}

#[test]
fn decode_bit_false() {
    let bytes = [0x00_u8];
    let v = bytes_to_variant(&bytes, TransportSize::Bit).unwrap();
    assert_eq!(v, Variant::Boolean(false));
}

#[test]
fn decode_dint() {
    let bytes = [0x00_u8, 0x00, 0x00, 0x01];
    let v = bytes_to_variant(&bytes, TransportSize::DInt).unwrap();
    assert_eq!(v, Variant::Int32(1));
}

#[test]
fn decode_dword() {
    let bytes = [0x00_u8, 0x00, 0x00, 0x01];
    let v = bytes_to_variant(&bytes, TransportSize::DWord).unwrap();
    assert_eq!(v, Variant::UInt32(1));
}

#[test]
fn decode_dint_negative_and_unsupported_size() {
    let v = bytes_to_variant(&[0xFF, 0xFF, 0xFF, 0xFE], TransportSize::DInt).unwrap();
    assert_eq!(v, Variant::Int32(-2));
    assert!(bytes_to_variant(&[1, 2, 3, 4], TransportSize::Timer).is_none());
}

#[test]
fn transport_size_bytes_real() {
    assert_eq!(transport_size_bytes(TransportSize::Real, 1), Some(4));
    assert_eq!(transport_size_bytes(TransportSize::Real, 2), Some(8));
}

#[test]
fn transport_size_bytes_word() {
    assert_eq!(transport_size_bytes(TransportSize::Word, 1), Some(2));
    assert_eq!(transport_size_bytes(TransportSize::Word, 3), Some(6));
}

#[test]
fn transport_size_bytes_byte() {
    assert_eq!(transport_size_bytes(TransportSize::Byte, 1), Some(1));
    assert_eq!(transport_size_bytes(TransportSize::Byte, 10), Some(10));
}

#[test]
fn transport_size_bytes_unknown() {
    assert_eq!(transport_size_bytes(TransportSize::Counter, 1), None);
}

#[test]
fn variant_to_bytes_float() {
    let variant = Variant::Float(1.0f32.to_bits());
    let (bytes, ts) = variant_to_bytes(&variant).unwrap();
    assert_eq!(ts, TransportSize::Real);
    assert_eq!(bytes.as_slice(), &[0x3F, 0x80, 0x00, 0x00]);
}

#[test]
fn variant_to_bytes_uint16() {
    let variant = Variant::UInt16(256);
    let (bytes, ts) = variant_to_bytes(&variant).unwrap();
    assert_eq!(ts, TransportSize::Word);
    assert_eq!(bytes.as_slice(), &[0x01, 0x00]);
}

#[test]
fn variant_to_bytes_int16() {
    let variant = Variant::Int16(-128);
    let (bytes, ts) = variant_to_bytes(&variant).unwrap();
    assert_eq!(ts, TransportSize::Int);
    assert_eq!(bytes.as_slice(), &[0xFF, 0x80]);
}

#[test]
fn variant_to_bytes_unsupported() {
    let variant = Variant::String("test".into());
    assert!(variant_to_bytes(&variant).is_none());
}

#[test]
fn variant_bytes_read_back() {
    for v in [
        Variant::Int32(-5),
        Variant::UInt32(0xDEADBEEF),
        Variant::Int16(-2),
        Variant::UInt16(7),
        Variant::Byte(9),
        Variant::Boolean(true),
        Variant::Float(0x4049_0FDB),
    ] {
        let (bytes, ts) = variant_to_bytes(&v).unwrap();
        assert_eq!(bytes_to_variant(&bytes, ts), Some(v));
    }
}

#[test]
fn valid_tags_parse_ok() {
    let specs = vec![spec("DB1,REAL4", "Speed"), spec("DB2,WORD0", "Pressure")];
    let reg = TagRegistry::from_specs(&specs).unwrap();
    assert_eq!(reg.len(), 2);
}

#[test]
fn invalid_tag_returns_err() {
    let specs = vec![spec("NOTVALID", "Bad")];
    let result = TagRegistry::from_specs(&specs);
    assert!(result.is_err());
    let err = result.unwrap_err();
    assert!(matches!(err, Error::InvalidTag { .. }));
}

#[test]
fn invalid_tag_reason_is_the_parse_error_text() {
    let specs = vec![spec("DB1,REAL0", "Ok"), spec("NOTVALID", "Bad"), spec("X", "Y")];
    match TagRegistry::from_specs(&specs) {
        Err(Error::InvalidTag { tag, reason }) => {
            assert_eq!(tag, "NOTVALID");
            assert_eq!(reason, "PLC error: code=0x0000 (invalid tag: NOTVALID)");
        }
        other => panic!("unexpected {:?}", other),
    }
    assert_eq!(describe_plc_error(0x1A2B3, "m"), "PLC error: code=0x1a2b3 (m)");
}

#[test]
fn node_id_is_stable() {
    let specs = vec![spec("DB1,BYTE0", "Sensor")];
    let reg = TagRegistry::from_specs(&specs).unwrap();
    let entry = reg.entries().iter().next().unwrap();
    assert_eq!(entry.node_id.namespace, 2);
    assert!(entry.node_id.to_string().contains("Sensor"));
    assert_eq!(entry.node_id.to_string(), "ns=2;s=Sensor");
}

#[test]
fn writable_flag_preserved() {
    let mut spec = spec("DB1,REAL0", "Temperature");
    spec.writable = true;
    let specs = vec![spec];
    let reg = TagRegistry::from_specs(&specs).unwrap();
    let entry = reg.entries().iter().next().unwrap();
    assert!(entry.writable);
}

#[test]
fn multiple_tags_have_unique_node_ids() {
    let specs = vec![
        spec("DB1,REAL0", "Tag1"),
        spec("DB1,REAL4", "Tag2"),
        spec("DB2,WORD0", "Tag3"),
    ];
    let reg = TagRegistry::from_specs(&specs).unwrap();
    let node_ids: Vec<_> = reg.entries().iter().map(|e| e.node_id.clone()).collect();
    assert_eq!(node_ids.len(), 3);
    assert!(node_ids[0] != node_ids[1]);
    assert!(node_ids[1] != node_ids[2]);
}

#[test]
fn find_by_node_id() {
    let specs = vec![spec("DB1,REAL0", "MotorSpeed")];
    let reg = TagRegistry::from_specs(&specs).unwrap();
    let node_id = reg.entries().iter().next().unwrap().node_id.clone();
    let found = reg.find_by_node_id(&node_id);
    assert!(found.is_some());
    assert_eq!(found.unwrap().name, "MotorSpeed");
}

#[test]
fn find_nonexistent_node_id() {
    let specs = vec![spec("DB1,REAL0", "MotorSpeed")];
    let reg = TagRegistry::from_specs(&specs).unwrap();
    let nonexistent = NodeId::new(2, "DoesNotExist");
    let found = reg.find_by_node_id(&nonexistent);
    assert!(found.is_none());
}

#[test]
fn security_names_are_case_insensitive() {
    let sec = OpcSecurityConfig {
        policy: "basic128".into(),
        mode: "SIGN".into(),
        certificate: None,
        private_key: None,
    };
    assert_eq!(
        parse_security(&sec).unwrap(),
        (SecurityPolicy::Basic128Rsa15, SecurityMode::Sign)
    );
    let bad = OpcSecurityConfig { policy: "Aes".into(), ..sec.clone() };
    match parse_security(&bad) {
        Err(Error::Config(m)) => assert_eq!(
            m,
            "unsupported security policy: Aes. Use None, Basic128, Basic256, or Basic256Sha256"
        ),
        other => panic!("unexpected {:?}", other),
    }
    let bad_mode = OpcSecurityConfig { mode: "Encrypt".into(), ..sec };
    match parse_security(&bad_mode) {
        Err(Error::Config(m)) => {
            assert_eq!(m, "unsupported security mode: Encrypt. Use None, Sign, or SignAndEncrypt")
        }
        other => panic!("unexpected {:?}", other),
    }
}

#[test]
fn node_types_and_access() {
    assert_eq!(node_data_type(TransportSize::Bit), DataType::Boolean);
    assert_eq!(node_data_type(TransportSize::Word), DataType::UInt32);
    assert_eq!(node_data_type(TransportSize::DInt), DataType::Int32);
    assert_eq!(node_data_type(TransportSize::Real), DataType::Float);
    assert_eq!(node_data_type(TransportSize::Timer), DataType::String);
    assert_eq!(node_access_level(false), 1);
    assert_eq!(node_access_level(true), 3);
}

#[test]
fn writes_are_checked_before_they_reach_the_plc() {
    let mut w = spec("DB3,WORD8", "Level");
    w.writable = true;
    let specs = vec![w, spec("DB3,INT10", "Fixed")];
    let reg = TagRegistry::from_specs(&specs).unwrap();
    let level = NodeId::new(2, "Level");
    assert_eq!(plan_write(&reg, &level, &Variant::UInt16(0x0102)).unwrap(), (3, 8, vec![1, 2]));
    match plan_write(&reg, &level, &Variant::Int16(1)) {
        Err(Error::OpcUa(m)) => {
            assert_eq!(m, "type mismatch for node ns=2;s=Level: tag expects Word, got Int")
        }
        other => panic!("unexpected {:?}", other),
    }
    match plan_write(&reg, &NodeId::new(2, "Fixed"), &Variant::Int16(1)) {
        Err(Error::OpcUa(m)) => assert_eq!(m, "node ns=2;s=Fixed is not writable"),
        other => panic!("unexpected {:?}", other),
    }
    match plan_write(&reg, &NodeId::new(0, "Nope"), &Variant::Int16(1)) {
        Err(Error::OpcUa(m)) => assert_eq!(m, "unknown node: s=Nope"),
        other => panic!("unexpected {:?}", other),
    }
    match plan_write(&reg, &level, &Variant::Empty) {
        Err(Error::OpcUa(m)) => assert_eq!(m, "unsupported variant type for write"),
        other => panic!("unexpected {:?}", other),
    }
}

#[test]
fn polls_read_each_tag_width() {
    let specs = vec![spec("DB1,REAL4", "A"), spec("DB2,70.3", "B"), spec("DB9,DWORD12", "C")];
    let reg = TagRegistry::from_specs(&specs).unwrap();
    assert_eq!(poll_reads(&reg), vec![(0, 1, 4, 4), (1, 2, 70, 1), (2, 9, 12, 4)]);
}

#[test]
fn gateway_plan_checks_in_order() {
    let empty = GatewayConfig {
        opc_endpoint: "opc.tcp://0.0.0.0:4840".into(),
        poll_interval_ms: 1000,
        plc_addr: None,
        tags: None,
        plcs: None,
        opc_security: OpcSecurityConfig::default(),
    };
    match plan_gateway(&empty) {
        Err(Error::Config(m)) => assert_eq!(
            m,
            "at least one PLC must be configured (use plc_addr + [[tags]] or [[plcs]])"
        ),
        other => panic!("unexpected {:?}", other),
    }
    let bad_tag = single_plc("127.0.0.1:102", vec![spec("DB1,REAL0", "A"), spec("ZZ", "B")]);
    match plan_gateway(&bad_tag) {
        Err(Error::Config(m)) => assert_eq!(
            m,
            "invalid tag 'ZZ': PLC error: code=0x0000 (invalid tag: ZZ)"
        ),
        other => panic!("unexpected {:?}", other),
    }
    let good = single_plc("127.0.0.1:102", vec![spec("DB1,REAL0", "A")]);
    let plan = plan_gateway(&good).unwrap();
    assert_eq!(plan.registries.len(), 1);
    assert_eq!(plan.plc_addrs, vec![("127.0.0.1:102".to_string(), 1000)]);
    assert_eq!(plan.endpoint_url, "opc.tcp://0.0.0.0:4840");
    assert_eq!(plan.policy, SecurityPolicy::Unsecured);
    assert_eq!(plan.mode, SecurityMode::Unsecured);
    let mut with_path = single_plc("127.0.0.1:102", vec![spec("DB1,REAL0", "A")]);
    with_path.opc_endpoint = "opc.tcp://0.0.0.0:4840/gateway".into();
    assert_eq!(plan_gateway(&with_path).unwrap().endpoint_path, "/gateway");
    let mut bad_url = single_plc("127.0.0.1:102", vec![spec("DB1,REAL0", "A")]);
    bad_url.opc_endpoint = "not a url".into();
    assert!(matches!(plan_gateway(&bad_url), Err(Error::Config(m)) if m.starts_with("invalid opc_endpoint URL: ")));
}
