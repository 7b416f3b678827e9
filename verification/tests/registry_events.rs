use stellatune_plugins::capability_registry::{
    CapabilityDescriptorInput, CapabilityDescriptorRecord, CapabilityId, CapabilityKind, CapabilityRegistry, GenerationId,
};
use stellatune_plugins::error::Error;
use stellatune_plugins::events::{build_plugin_host_ctx, new_runtime_event_bus, release_plugin_host_ctx};

fn input(kind: CapabilityKind, type_id: &str) -> CapabilityDescriptorInput {
    CapabilityDescriptorInput {
        kind,
        type_id: type_id.to_string(),
        display_name: type_id.to_uppercase(),
        config_schema_json: "{}".to_string(),
        default_config_json: "{}".to_string(),
    }
}

#[test]
fn registering_a_generation_numbers_its_capabilities() {
    let mut reg = CapabilityRegistry::new();
    let out = reg.register_generation(
        "dev.p",
        GenerationId(1),
        vec![input(CapabilityKind::Decoder, "flac"), input(CapabilityKind::Dsp, "eq")],
    );
    assert_eq!(out.len(), 2);
    assert_eq!(out[0].id, CapabilityId(1));
    assert_eq!(out[1].id, CapabilityId(2));
    assert_eq!(reg.get(CapabilityId(2)).expect("get").type_id, "eq");
    assert!(reg.find("dev.p", GenerationId(1), CapabilityKind::Decoder, "flac").is_some());
    assert!(reg.find("dev.p", GenerationId(2), CapabilityKind::Decoder, "flac").is_none());
    assert_eq!(reg.list_for_generation("dev.p", GenerationId(1)).len(), 2);
    reg.remove_generation("dev.p", GenerationId(1));
    assert!(reg.get(CapabilityId(1)).is_none());
    assert!(reg.list_for_generation("dev.p", GenerationId(1)).is_empty());
    let again = reg.register_generation("dev.p", GenerationId(2), vec![input(CapabilityKind::Decoder, "flac")]);
    assert_eq!(again[0].id, CapabilityId(3));
}

fn same(a: &CapabilityDescriptorRecord, b: &CapabilityDescriptorRecord) -> bool {
    a.id == b.id
        && a.plugin_id == b.plugin_id
        && a.generation == b.generation
        && a.kind == b.kind
        && a.type_id == b.type_id
        && a.display_name == b.display_name
        && a.config_schema_json == b.config_schema_json
        && a.default_config_json == b.default_config_json
}

#[test]
fn get_gives_back_each_registered_record() {
    let mut reg = CapabilityRegistry::new();
    let first = reg.register_generation("dev.p", GenerationId(1), vec![input(CapabilityKind::Decoder, "flac")]);
    let second = reg.register_generation(
        "dev.q",
        GenerationId(7),
        vec![input(CapabilityKind::Dsp, "eq"), input(CapabilityKind::OutputSink, "wasapi")],
    );
    for r in first.iter().chain(second.iter()) {
        assert!(same(&reg.get(r.id).expect("registered"), r));
    }
    reg.remove_generation("dev.p", GenerationId(1));
    assert!(reg.get(first[0].id).is_none());
    for r in second.iter() {
        assert!(same(&reg.get(r.id).expect("registered"), r));
    }
    assert!(reg.get(CapabilityId(9)).is_none());
}

#[test]
fn host_contexts_are_counted_per_plugin() {
    let mut bus = new_runtime_event_bus();
    let a = build_plugin_host_ctx(&mut bus, "dev.a", b"/root".to_vec());
    let b = build_plugin_host_ctx(&mut bus, "dev.a", b"/root".to_vec());
    assert_eq!(a.plugin_id_str(), "dev.a");
    assert_eq!(a.runtime_root_bytes(), b"/root");
    assert_eq!(bus.count_of(&"dev.a".to_string()), Some(2));
    release_plugin_host_ctx(&mut bus, a);
    assert_eq!(bus.count_of(&"dev.a".to_string()), Some(1));
    release_plugin_host_ctx(&mut bus, b);
    assert_eq!(bus.count_of(&"dev.a".to_string()), None);
}

#[test]
fn errors_describe_themselves() {
    assert_eq!(Error::invalid_input("x").describe(), "invalid input: x");
    assert_eq!(Error::not_found("sidecar executable", "h".to_string()).describe(), "sidecar executable not found: h");
    assert_eq!(Error::unsupported("y").describe(), "unsupported: y");
    assert_eq!(Error::operation("op", "m".to_string()).describe(), "op failed: m");
}
