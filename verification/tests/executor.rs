use stellatune_plugins::executor::{
    classify_world, normalize_world_name, plan_component_install, resolve_capability,
    retain_delivered, ActivePluginRecord, ComponentCapability, ControllerBook, DirectiveRoutes,
    lyrics_fetch_id, lyrics_search_keyword, RuntimePluginInfo,
    WorldKind, WorldNames,
};
use stellatune_plugins::host_runtime::AbilityKind;
use stellatune_plugins::keyed::NamedTable;

fn names() -> WorldNames {
    WorldNames {
        decoder: "decoder-plugin".to_string(),
        source: "source-plugin".to_string(),
        lyrics: "lyrics-plugin".to_string(),
        output_sink: "output-sink-plugin".to_string(),
        dsp: "dsp-plugin".to_string(),
    }
}

fn cap(kind: AbilityKind, type_id: &str, id: &str, path: &str, world: &str) -> ComponentCapability {
    ComponentCapability {
        kind,
        type_id: type_id.to_string(),
        component_id: id.to_string(),
        component_rel_path: path.to_string(),
        world: world.to_string(),
    }
}

#[test]
fn world_name_strips_package_and_version() {
    assert_eq!(normalize_world_name(" stellatune:plugin/decoder-plugin@0.1.0 "), "decoder-plugin");
    assert_eq!(normalize_world_name("dsp-plugin"), "dsp-plugin");
    assert_eq!(normalize_world_name("a/b/ lyrics-plugin @x"), "lyrics-plugin");
    assert_eq!(normalize_world_name(""), "");
}

#[test]
fn world_kinds_follow_the_names() {
    let n = names();
    assert_eq!(classify_world(&n, "pkg:x/decoder-plugin@1"), WorldKind::Decoder);
    assert_eq!(classify_world(&n, "source-plugin"), WorldKind::Source);
    assert_eq!(classify_world(&n, "output-sink-plugin"), WorldKind::OutputSink);
    assert_eq!(classify_world(&n, "dsp-plugin@2"), WorldKind::Dsp);
    assert_eq!(classify_world(&n, "lyrics-plugin"), WorldKind::Lyrics);
    assert_eq!(classify_world(&n, "video-plugin"), WorldKind::Unknown);
}

#[test]
fn install_plan_orders_components_and_keeps_last_path() {
    let caps = vec![
        cap(AbilityKind::Decoder, "mp3", "zeta", "z.wasm", "decoder-plugin"),
        cap(AbilityKind::Decoder, "flac", "alpha", "a.wasm", "decoder-plugin"),
        cap(AbilityKind::Decoder, "ogg", "zeta", "z.wasm", "decoder-plugin"),
    ];
    let plan = plan_component_install("p", &caps, &names()).expect("plan");
    assert!(!plan.force_rebuild);
    assert_eq!(
        plan.components,
        vec![("alpha".to_string(), "a.wasm".to_string()), ("zeta".to_string(), "z.wasm".to_string())]
    );
}

#[test]
fn install_plan_rebuilds_when_capabilities_disagree() {
    let caps = vec![
        cap(AbilityKind::Decoder, "mp3", "c", "old.wasm", "decoder-plugin"),
        cap(AbilityKind::Dsp, "eq", "c", "new.wasm", "decoder-plugin"),
    ];
    let plan = plan_component_install("p", &caps, &names()).expect("plan");
    assert!(plan.force_rebuild);
    assert_eq!(plan.components, vec![("c".to_string(), "new.wasm".to_string())]);
}

#[test]
fn install_plan_refuses_unknown_world() {
    let caps = vec![
        cap(AbilityKind::Decoder, "x", "m2", "b.wasm", "weird-world"),
        cap(AbilityKind::Decoder, "y", "m1", "a.wasm", "odd@1"),
    ];
    let err = plan_component_install("dev.plugin", &caps, &names()).err().expect("error");
    assert_eq!(err, "unsupported world `odd@1` in plugin `dev.plugin` component `m1`");
}

#[test]
fn install_plan_of_no_capabilities_is_empty() {
    let plan = plan_component_install("p", &Vec::new(), &names()).expect("plan");
    assert!(plan.components.is_empty());
    assert!(!plan.force_rebuild);
}

#[test]
fn routes_follow_activation() {
    let mut routes: DirectiveRoutes<u32> = DirectiveRoutes::new();
    assert_eq!(routes.register_sender("p", 1).err().unwrap(), "plugin `p` was deactivated during creation");
    assert_eq!(routes.ensure_active("p").err().unwrap(), "plugin `p` is not active");
    assert!(!routes.activate("p"));
    assert!(routes.activate("p"));
    routes.register_sender("p", 7).unwrap();
    routes.register_sender("p", 8).unwrap();
    assert_eq!(routes.dispatch_targets(" p "), Some(&vec![7, 8]));
    assert_eq!(routes.dispatch_targets("q"), None);
    let taken = routes.take_senders("p");
    assert_eq!(taken, vec![7, 8]);
    routes.restore_senders("p", retain_delivered(taken, &vec![true, false]));
    assert_eq!(routes.dispatch_targets("p"), Some(&vec![7]));
    assert_eq!(routes.deactivate("  "), (false, Vec::new()));
    assert_eq!(routes.deactivate(" p"), (true, vec![7]));
    assert_eq!(routes.dispatch_targets("p"), None);
    assert!(!routes.is_active("p"));
}

#[test]
fn routes_shutdown_hands_back_everything() {
    let mut routes: DirectiveRoutes<u32> = DirectiveRoutes::new();
    routes.activate("a");
    routes.activate("b");
    routes.register_sender("b", 3).unwrap();
    let (mut ids, channels) = routes.shutdown();
    ids.sort();
    assert_eq!(ids, vec!["a".to_string(), "b".to_string()]);
    assert!(channels.iter().any(|(id, s)| id == "b" && s == &vec![3]));
    assert!(!routes.is_active("a"));
    assert_eq!(routes.dispatch_targets("b"), None);
}

#[test]
fn retain_keeps_delivered_in_order() {
    assert_eq!(retain_delivered(vec![1, 2, 3, 4], &vec![true, false, true, true]), vec![1, 3, 4]);
    assert_eq!(retain_delivered(Vec::<u8>::new(), &Vec::new()), Vec::<u8>::new());
}

fn record() -> ActivePluginRecord {
    ActivePluginRecord {
        info: RuntimePluginInfo {
            id: "p".to_string(),
            name: "P".to_string(),
            metadata_json: "{}".to_string(),
            root_dir: Some("/plugins/p".to_string()),
            library_path: None,
        },
        capabilities: vec![
            cap(AbilityKind::Decoder, "mp3", "c1", "a.wasm", "decoder-plugin"),
            cap(AbilityKind::Dsp, "eq", "c2", "b.wasm", "dsp-plugin"),
        ],
    }
}

#[test]
fn capability_resolution_and_its_errors() {
    let mut records = NamedTable::new();
    records.insert("p".to_string(), record());
    let (info, c) = resolve_capability(&records, " p ", AbilityKind::Dsp, " eq ").expect("found");
    assert_eq!(info.name, "P");
    assert_eq!(c.component_id, "c2");
    assert_eq!(resolve_capability(&records, " ", AbilityKind::Dsp, "eq").err().unwrap(), "plugin_id is empty");
    assert_eq!(resolve_capability(&records, "p", AbilityKind::Dsp, "").err().unwrap(), "type_id is empty");
    assert_eq!(resolve_capability(&records, "q", AbilityKind::Dsp, "eq").err().unwrap(), "plugin `q` is not installed");
    assert_eq!(
        resolve_capability(&records, "p", AbilityKind::OutputSink, "eq").err().unwrap(),
        "plugin `p` has no capability kind=`OutputSink` type_id=`eq`"
    );
}

fn info(id: &str) -> RuntimePluginInfo {
    RuntimePluginInfo {
        id: id.to_string(),
        name: id.to_uppercase(),
        metadata_json: "{}".to_string(),
        root_dir: None,
        library_path: None,
    }
}

#[test]
fn controller_book_install_rebuild_and_uninstall() {
    let mut book: ControllerBook<u32> = ControllerBook::new();
    let first = book.commit_install(info("p"), Vec::new(), false);
    assert!(first.newly_active);
    assert!(first.rebuild.is_none());
    book.routes.register_sender("p", 5).unwrap();
    let again = book.commit_install(info("p"), Vec::new(), false);
    assert!(!again.newly_active);
    assert_eq!(again.rebuild, Some(vec![5]));
    book.routes.restore_senders("p", vec![5]);
    let out = book.uninstall(" p ");
    assert!(out.was_active);
    assert_eq!(out.destroy, vec![5]);
    assert_eq!(out.removed.map(|r| r.info.name), Some("P".to_string()));
    assert!(!book.routes.is_active("p"));
    let none = book.uninstall("   ");
    assert!(!none.was_active && none.destroy.is_empty() && none.removed.is_none());
}

#[test]
fn controller_book_forced_rebuild_on_first_install() {
    let mut book: ControllerBook<u32> = ControllerBook::new();
    let commit = book.commit_install(info("q"), Vec::new(), true);
    assert!(commit.newly_active);
    assert_eq!(commit.rebuild, Some(Vec::new()));
}

#[test]
fn lyrics_requests_are_trimmed_and_blank_ones_stop() {
    assert_eq!(lyrics_search_keyword("  hello "), Some("hello".to_string()));
    assert_eq!(lyrics_search_keyword("   "), None);
    assert_eq!(lyrics_fetch_id(" 42 "), Ok("42".to_string()));
    assert_eq!(lyrics_fetch_id(""), Err("lyric_id is empty".to_string()));
}
