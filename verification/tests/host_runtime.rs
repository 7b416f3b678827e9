use stellatune_plugins::host_runtime::{
    active_plugin_metadata_json, active_plugins_snapshot, decoder_capability_plugin_ids,
    decoder_has_wildcard_candidate, decoder_score_for_ext, decoder_supported_extensions,
    find_capability, list_capabilities, list_capabilities_of_kind,
    list_decoder_candidates_for_ext, map_ability_kind, normalize_disabled_ids, normalize_ext,
    shutdown_report, summarize_sync, unload_report, unload_target, AbilityKind, ActivePlugin,
    DecoderExtScore, RuntimeCapability, RuntimeCapabilityKind, RuntimePluginStatus,
    RuntimePluginTransition, RuntimePluginTransitionOutcome, RuntimePluginTransitionTrigger,
};

fn cap(kind: AbilityKind, type_id: &str, wildcard: u16, rules: &[(&str, u16)]) -> RuntimeCapability {
    RuntimeCapability {
        kind,
        type_id: type_id.to_string(),
        display_name: format!("{type_id} display"),
        config_schema_json: "{}".to_string(),
        default_config_json: "{}".to_string(),
        decoder_wildcard_score: wildcard,
        decoder_ext_scores: rules
            .iter()
            .map(|(e, s)| DecoderExtScore { ext: e.to_string(), score: *s })
            .collect(),
    }
}

fn plugin(id: &str, caps: Vec<RuntimeCapability>) -> ActivePlugin {
    ActivePlugin { id: id.to_string(), name: format!("{id} name"), version: "1.2.3".to_string(), capabilities: caps }
}

fn sample() -> Vec<ActivePlugin> {
    vec![
        plugin("dev.b", vec![
            cap(AbilityKind::Decoder, "flac-dec", 0, &[("flac", 80), ("wav", 10)]),
            cap(AbilityKind::Dsp, "eq", 0, &[]),
        ]),
        plugin("dev.a", vec![cap(AbilityKind::Decoder, "any-dec", 5, &[("FLAC", 90), ("mp3", 50)])]),
        plugin("dev.c", vec![cap(AbilityKind::Lyrics, "lrc", 0, &[])]),
    ]
}

#[test]
fn extensions_are_normalized() {
    assert_eq!(normalize_ext("  ..FLAC "), "flac");
    assert_eq!(normalize_ext(".Mp3"), "mp3");
    assert_eq!(normalize_ext("   "), "");
}

#[test]
fn ability_kinds_map() {
    assert_eq!(map_ability_kind(AbilityKind::Source), RuntimeCapabilityKind::SourceCatalog);
    assert_eq!(map_ability_kind(AbilityKind::Lyrics), RuntimeCapabilityKind::LyricsProvider);
    assert_eq!(map_ability_kind(AbilityKind::Decoder), RuntimeCapabilityKind::Decoder);
}

#[test]
fn decoder_scores() {
    let c = cap(AbilityKind::Decoder, "d", 3, &[("flac", 80), ("flac", 20)]);
    assert_eq!(decoder_score_for_ext(&c, "flac"), 80);
    assert_eq!(decoder_score_for_ext(&c, "ogg"), 3);
    assert_eq!(decoder_score_for_ext(&c, ""), 3);
}

#[test]
fn decoder_candidates_best_first() {
    let active = sample();
    let c = list_decoder_candidates_for_ext(&active, ".FLAC");
    let rows: Vec<(&str, &str, u16)> = c.iter().map(|c| (c.plugin_id.as_str(), c.type_id.as_str(), c.score)).collect();
    assert_eq!(rows, vec![("dev.b", "flac-dec", 80), ("dev.a", "any-dec", 5)]);
    let c = list_decoder_candidates_for_ext(&active, "wav");
    let rows: Vec<(&str, u16)> = c.iter().map(|c| (c.plugin_id.as_str(), c.score)).collect();
    assert_eq!(rows, vec![("dev.b", 10), ("dev.a", 5)]);
    let c = list_decoder_candidates_for_ext(&active, "ogg");
    assert_eq!(c.len(), 1);
    assert_eq!(c[0].plugin_id, "dev.a");
}

#[test]
fn supported_extensions_sorted_once() {
    let exts = decoder_supported_extensions(&sample());
    assert_eq!(exts, vec!["flac".to_string(), "mp3".to_string(), "wav".to_string()]);
}

#[test]
fn wildcard_and_decoder_plugins() {
    assert!(decoder_has_wildcard_candidate(&sample()));
    assert!(!decoder_has_wildcard_candidate(&sample()[..1].to_vec_plugins()));
    assert_eq!(decoder_capability_plugin_ids(&sample()), vec!["dev.a".to_string(), "dev.b".to_string()]);
}

trait ToVecPlugins {
    fn to_vec_plugins(&self) -> Vec<ActivePlugin>;
}

impl ToVecPlugins for [ActivePlugin] {
    fn to_vec_plugins(&self) -> Vec<ActivePlugin> {
        self.iter()
            .map(|p| ActivePlugin {
                id: p.id.clone(),
                name: p.name.clone(),
                version: p.version.clone(),
                capabilities: p
                    .capabilities
                    .iter()
                    .map(|c| RuntimeCapability {
                        kind: c.kind,
                        type_id: c.type_id.clone(),
                        display_name: c.display_name.clone(),
                        config_schema_json: c.config_schema_json.clone(),
                        default_config_json: c.default_config_json.clone(),
                        decoder_wildcard_score: c.decoder_wildcard_score,
                        decoder_ext_scores: c
                            .decoder_ext_scores
                            .iter()
                            .map(|r| DecoderExtScore { ext: r.ext.clone(), score: r.score })
                            .collect(),
                    })
                    .collect(),
            })
            .collect()
    }
}

#[test]
fn capability_listing() {
    let active = sample();
    let caps = list_capabilities(&active, " dev.b ");
    let ids: Vec<&str> = caps.iter().map(|c| c.type_id.as_str()).collect();
    assert_eq!(ids, vec!["eq", "flac-dec"]);
    assert_eq!(caps[0].kind, RuntimeCapabilityKind::Dsp);
    assert!(list_capabilities(&active, "  ").is_empty());
    assert!(list_capabilities(&active, "dev.zzz").is_empty());
    let dsp = list_capabilities_of_kind(&active, "dev.b", RuntimeCapabilityKind::Dsp);
    assert_eq!(dsp.len(), 1);
    assert_eq!(dsp[0].type_id, "eq");
}

#[test]
fn capability_lookup() {
    let active = sample();
    let found = find_capability(&active, "dev.b", RuntimeCapabilityKind::Decoder, " flac-dec ").expect("found");
    assert_eq!(found.display_name, "flac-dec display");
    assert!(find_capability(&active, "dev.b", RuntimeCapabilityKind::Dsp, "flac-dec").is_none());
    assert!(find_capability(&active, "", RuntimeCapabilityKind::Dsp, "eq").is_none());
    assert!(find_capability(&active, "dev.b", RuntimeCapabilityKind::Dsp, " ").is_none());
}

#[test]
fn snapshot_sorted_by_id() {
    let snap = active_plugins_snapshot(&sample());
    let ids: Vec<&str> = snap.iter().map(|p| p.id.as_str()).collect();
    assert_eq!(ids, vec!["dev.a", "dev.b", "dev.c"]);
    assert_eq!(snap[0].version, "1.2.3");
}

#[test]
fn metadata_json_of_an_active_plugin() {
    let mut active = sample();
    active[1].name = "A \"quoted\" name".to_string();
    let json = active_plugin_metadata_json(&active, " dev.a ").expect("json");
    assert_eq!(json, r#"{"id":"dev.a","name":"A \"quoted\" name","version":"1.2.3"}"#);
    assert!(active_plugin_metadata_json(&active, "dev.none").is_none());
    assert!(active_plugin_metadata_json(&active, " ").is_none());
}

#[test]
fn metadata_json_escapes_control_characters() {
    let mut active = sample();
    active[1].name = "tab\there\\ \u{1}\u{1f} é\u{7f}\r\n\u{8}\u{c}".to_string();
    let json = active_plugin_metadata_json(&active, "dev.a").expect("json");
    assert_eq!(
        json,
        "{\"id\":\"dev.a\",\"name\":\"tab\\there\\\\ \\u0001\\u001f é\u{7f}\\r\\n\\b\\f\",\"version\":\"1.2.3\"}"
    );
}

#[test]
fn disabled_ids_trimmed_sorted_once() {
    let ids = normalize_disabled_ids(vec![" b ".to_string(), "a".to_string(), "b".to_string(), "  ".to_string()]);
    assert_eq!(ids, vec!["a".to_string(), "b".to_string()]);
}

fn t(id: &str, trigger: RuntimePluginTransitionTrigger, outcome: RuntimePluginTransitionOutcome, detail: &str) -> RuntimePluginTransition {
    RuntimePluginTransition { plugin_id: id.to_string(), trigger, outcome, detail: detail.to_string() }
}

#[test]
fn sync_report_summarizes_transitions() {
    let ts = vec![
        t("a", RuntimePluginTransitionTrigger::LoadNew, RuntimePluginTransitionOutcome::Applied, ""),
        t("b", RuntimePluginTransitionTrigger::ReloadChanged, RuntimePluginTransitionOutcome::Applied, ""),
        t("c", RuntimePluginTransitionTrigger::RemovedFromDisk, RuntimePluginTransitionOutcome::Applied, ""),
        t("d", RuntimePluginTransitionTrigger::DisableRequested, RuntimePluginTransitionOutcome::Applied, ""),
        t("e", RuntimePluginTransitionTrigger::LoadNew, RuntimePluginTransitionOutcome::Skipped, "already current"),
        t("f", RuntimePluginTransitionTrigger::ReloadChanged, RuntimePluginTransitionOutcome::Failed, "boom"),
    ];
    let statuses = vec![
        RuntimePluginStatus { desired_disabled: true, missing: false },
        RuntimePluginStatus { desired_disabled: true, missing: true },
        RuntimePluginStatus { desired_disabled: false, missing: false },
    ];
    let r = summarize_sync(&ts, &statuses, 7, vec!["err".to_string()]);
    assert_eq!(r.load_report.loaded, vec!["a".to_string(), "b".to_string()]);
    assert_eq!(r.load_report.deactivated, vec!["c".to_string(), "d".to_string()]);
    assert_eq!(r.load_report.errors, vec!["err".to_string()]);
    assert_eq!(r.plan.discovered, 7);
    assert_eq!(r.plan.disabled, 1);
    assert_eq!(r.plan.actions_total, 6);
    assert_eq!((r.plan.load_new, r.plan.reload_changed, r.plan.deactivate), (1, 1, 2));
    let actions: Vec<(&str, &str, &str)> = r
        .actions
        .iter()
        .map(|a| (a.action.as_str(), a.plugin_id.as_str(), a.outcome.as_str()))
        .collect();
    assert_eq!(actions, vec![
        ("load_new", "a", "ok"),
        ("reload_changed", "b", "ok"),
        ("deactivate_missing_or_disabled", "c", "ok"),
        ("deactivate_missing_or_disabled", "d", "ok"),
        ("skip", "e", "already current"),
        ("fail", "f", "boom"),
    ]);
    assert_eq!((r.plan_ms, r.execute_ms, r.total_ms), (0, 0, 0));
}

#[test]
fn unload_and_shutdown_reports() {
    assert_eq!(unload_target("  "), None);
    assert_eq!(unload_target(" p ").as_deref(), Some("p"));
    let r = unload_report("p".to_string(), Ok(true));
    assert_eq!(r.deactivated, vec!["p".to_string()]);
    let r = unload_report("p".to_string(), Ok(false));
    assert!(r.deactivated.is_empty() && r.errors.is_empty());
    let r = unload_report("p".to_string(), Err("bad".to_string()));
    assert_eq!(r.errors, vec!["bad".to_string()]);
    let r = shutdown_report(Ok(vec!["x".to_string()]));
    assert_eq!(r.deactivated, vec!["x".to_string()]);
    let r = shutdown_report(Err("down".to_string()));
    assert_eq!(r.errors, vec!["down".to_string()]);
}
