use opencadstudio::manifest::{ApiVersion, OwnedPluginManifest, API_VERSION};
use opencadstudio::modules::storm_sewer::dispatch::{handle, params_argument, route, StormCommand};
use opencadstudio::modules::storm_sewer::manifest::manifest as storm_manifest;
use opencadstudio::modules::storm_sewer::StormSewerModule;
use opencadstudio::plugin::external::{
    lib_extension, parse_plugin_toml, plugins_dir, sort_discovered, startup_candidates,
    ExternalPlugin, PluginsEnv, TargetOs,
};
use opencadstudio::plugin::host::{HostEffect, HostSession};
use opencadstudio::plugin::registry::{
    all_plugins, all_ribbon_tabs, next_dispatch_target, ribbon_tabs_enabled, LoadedTab,
};
use opencadstudio::plugin::toml::{parse_string_array, unquote};
use opencadstudio::ribbon::{CadModule, RibbonItem};
use rustc_hash::FxHashSet;

#[test]
fn current_matches_const() {
    assert_eq!(ApiVersion::current().major, API_VERSION);
}

#[test]
fn same_major_is_compatible() {
    assert!(ApiVersion::is_compatible_with(ApiVersion::current()));
    assert!(!ApiVersion::is_compatible_with(ApiVersion {
        major: API_VERSION + 1,
    }));
}

#[test]
fn parses_documented_keys() {
    let toml = r#"
[plugin]
id = "opencad.storm_sewer"
name = "Storm Sewer"
version = "0.2.0"
description = "Gravity storm-drain design"

[opencad]
api_version = 1
ribbon_order = 50
command_prefixes = ["SS_", "STORM_"]
"#;
    let p = parse_plugin_toml(toml).expect("parsed");
    assert_eq!(p.id, "opencad.storm_sewer");
    assert_eq!(p.name, "Storm Sewer");
    assert_eq!(p.version, "0.2.0");
    assert_eq!(p.api_version, 1);
    assert_eq!(p.ribbon_order, 50);
    assert_eq!(p.command_prefixes, vec!["SS_", "STORM_"]);
    assert!(!p.api_compatible());
}

#[test]
fn missing_id_is_rejected() {
    assert!(parse_plugin_toml("name = \"x\"").is_none());
}

#[test]
fn incompatible_api_flagged() {
    let p = parse_plugin_toml("id=\"a\"\napi_version = 9999").unwrap();
    assert!(!p.api_compatible());
    assert!(!p.loadable());
}

#[test]
fn storm_plugin_is_registered() {
    let ids: Vec<_> = all_plugins().iter().map(|p| p.id).collect();
    assert!(
        ids.contains(&"opencad.storm_sewer"),
        "expected storm plugin; got {ids:?}"
    );
}

#[test]
fn built_in_plugin_is_the_storm_manifest() {
    let all = all_plugins();
    assert_eq!(all.len(), 1);
    let m = &all[0];
    assert_eq!((m.name, m.version, m.ribbon_order), ("Storm Sewer", "0.2.0", 50));
    assert_eq!(m.xdata_apps, &["STORMSEWER_STRUCT", "STORMSEWER_PIPE", "STORMSEWER_CATCHMENT"]);
}

#[test]
fn ribbon_exposes_core_tools() {
    let mut ids = Vec::new();
    for g in StormSewerModule.ribbon_groups() {
        for item in g.tools {
            if let RibbonItem::Tool(t) | RibbonItem::LargeTool(t) = item {
                ids.push(t.id);
            }
        }
    }
    for needed in [
        "SS_INLET", "SS_PIPE", "SS_ANALYZE", "SS_SIZE", "SS_PARAMS", "SS_MULTIRP", "SS_REPORT", "SS_PROFILE",
    ] {
        assert!(ids.contains(&needed), "missing {needed}; have {ids:?}");
    }
}

// ── plugin.toml details ────────────────────────────────────────────────────

#[test]
fn compatible_package_with_library_is_loadable() {
    let text = format!("id = 'a'\napi_version = {API_VERSION}\n");
    let mut p = parse_plugin_toml(&text).unwrap();
    assert!(p.api_compatible());
    assert!(!p.loadable());
    p.lib_present = true;
    assert!(p.loadable());
}

#[test]
fn later_keys_win_and_junk_is_ignored() {
    let text = "# comment\n[plugin]\nid = \"first\"\nnot a key line\nid = \"second\"\r\nunknown = 3\nribbon_order = -7\napi_version = nope\n";
    let p = parse_plugin_toml(text).unwrap();
    assert_eq!(p.id, "second");
    assert_eq!(p.ribbon_order, -7);
    assert_eq!(p.api_version, 0);
    assert_eq!(p.name, "");
    assert!(p.command_prefixes.is_empty());
    assert!(!p.lib_present);
    assert_eq!(p.dir, std::path::PathBuf::new());
}

#[test]
fn value_may_contain_equals_sign() {
    let p = parse_plugin_toml("id = \"a=b\"\ndescription = x = y").unwrap();
    assert_eq!(p.id, "a=b");
    assert_eq!(p.description, "x = y");
}

#[test]
fn out_of_range_numbers_fall_back_to_zero() {
    let p = parse_plugin_toml("id=a\napi_version=4294967296\nribbon_order=2147483648").unwrap();
    assert_eq!(p.api_version, 0);
    assert_eq!(p.ribbon_order, 0);
    let q = parse_plugin_toml("id=a\napi_version=+4294967295\nribbon_order=-2147483648").unwrap();
    assert_eq!(q.api_version, 4294967295);
    assert_eq!(q.ribbon_order, i32::MIN);
}

#[test]
fn unquote_strips_one_matching_pair() {
    assert_eq!(unquote("  \"abc\"  "), "abc");
    assert_eq!(unquote("'abc'"), "abc");
    assert_eq!(unquote("\"abc'"), "\"abc'");
    assert_eq!(unquote("\""), "\"");
    assert_eq!(unquote("\"\""), "");
}

#[test]
fn string_array_tolerates_spacing_and_drops_empties() {
    assert_eq!(parse_string_array("[ \"a\" , 'b',, ]"), vec!["a", "b"]);
    assert_eq!(parse_string_array("x, y"), vec!["x", "y"]);
    assert!(parse_string_array("[]").is_empty());
    assert_eq!(parse_string_array("[[\"a\"]]"), vec!["a"]);
}

fn pkg(id: &str, order: i32, version: &str) -> ExternalPlugin {
    let mut p = parse_plugin_toml(&format!("id = \"{id}\"\nversion = \"{version}\"")).unwrap();
    p.ribbon_order = order;
    p
}

#[test]
fn discovery_sorts_by_order_then_id_stably() {
    let found = vec![
        pkg("b", 10, "1"),
        pkg("a", 20, "1"),
        pkg("a", 10, "1"),
        pkg("b", 10, "2"),
        pkg("Z", 10, "1"),
        pkg("é", -5, "1"),
    ];
    let sorted = sort_discovered(found);
    let got: Vec<(String, i32, String)> = sorted
        .iter()
        .map(|p| (p.id.clone(), p.ribbon_order, p.version.clone()))
        .collect();
    let want: Vec<(String, i32, String)> = vec![
        ("é".into(), -5, "1".into()),
        ("Z".into(), 10, "1".into()),
        ("a".into(), 10, "1".into()),
        ("b".into(), 10, "1".into()),
        ("b".into(), 10, "2".into()),
        ("a".into(), 20, "1".into()),
    ];
    assert_eq!(got, want);
}

// ── registry ───────────────────────────────────────────────────────────────

fn tab(id: &str, order: i32, alive: bool) -> LoadedTab {
    LoadedTab { id: id.to_string(), ribbon_order: order, alive }
}

#[test]
fn addon_tabs_skip_disabled_and_dead_and_sort_stably() {
    let loaded = vec![tab("x", 50, true), tab("y", 10, true), tab("z", 50, true), tab("dead", 0, false), tab("off", 1, true)];
    let mut disabled: FxHashSet<String> = FxHashSet::default();
    disabled.insert("off".to_string());
    assert_eq!(ribbon_tabs_enabled(&loaded, &disabled), vec![1, 0, 2]);
    assert_eq!(all_ribbon_tabs(&loaded), vec![4, 1, 0, 2]);
}

#[test]
fn dispatch_targets_skip_disabled() {
    let loaded = vec![tab("a", 0, true), tab("b", 0, false), tab("c", 0, true)];
    let mut disabled: FxHashSet<String> = FxHashSet::default();
    disabled.insert("a".to_string());
    assert_eq!(next_dispatch_target(&loaded, &disabled, 0), Some(1));
    assert_eq!(next_dispatch_target(&loaded, &disabled, 2), Some(2));
    assert_eq!(next_dispatch_target(&loaded, &disabled, 3), None);
    disabled.insert("b".to_string());
    disabled.insert("c".to_string());
    assert_eq!(next_dispatch_target(&loaded, &disabled, 0), None);
}

// ── storm sewer ────────────────────────────────────────────────────────────

#[test]
fn storm_routes_known_commands_only() {
    assert_eq!(route("SS_INLET"), Some(StormCommand::PlaceInlet));
    assert_eq!(route("SS_IMPORTXML"), Some(StormCommand::ImportLandXml));
    assert_eq!(route("SS_LANDXML"), Some(StormCommand::ImportLandXml));
    assert_eq!(route("SS_PARAMS"), Some(StormCommand::Params));
    assert_eq!(route("SS_PARAMS idf 60"), Some(StormCommand::Params));
    assert_eq!(route("SS_PARAMSX"), None);
    assert_eq!(route("SS_NOTACOMMAND"), None);
    assert_eq!(route("LINE"), None);
    assert_eq!(route("ss_inlet"), None);
}

#[test]
fn storm_params_argument_is_trimmed_rest() {
    assert_eq!(params_argument("SS_PARAMS"), "");
    assert_eq!(params_argument("SS_PARAMS   rp 10  "), "rp 10");
}

#[test]
fn storm_handle_hands_work_to_host() {
    let mut host = HostSession::new(3);
    assert!(!handle(&mut host, "SS_NOTACOMMAND"));
    assert!(host.requests().is_empty());
    assert!(handle(&mut host, "SS_PIPE"));
    assert_eq!(host.requests(), &vec![HostEffect::Command("SS_PIPE".to_string())]);
    assert_eq!(host.tab_index(), 3);
}

#[test]
fn storm_manifest_matches_package() {
    let m = storm_manifest();
    assert_eq!(m.id, "opencad.storm_sewer");
    assert_eq!(m.ribbon_order, 50);
    assert_eq!(m.command_prefixes, &["SS_"]);
    assert!(ApiVersion::is_compatible_with(m.api_version));
    let owned = OwnedPluginManifest::from(&m);
    assert_eq!(owned.xdata_apps, vec!["STORMSEWER_STRUCT", "STORMSEWER_PIPE", "STORMSEWER_CATCHMENT"]);
    assert_eq!(owned.api_version().major, API_VERSION);
}

#[test]
fn host_session_records_requests_in_order() {
    let mut host = HostSession::new(0);
    host.push_undo("SS_SIZE");
    host.set_dirty();
    host.bump_geometry();
    host.push_info("done");
    host.push_output("line");
    host.push_error("oops");
    assert_eq!(
        host.requests(),
        &vec![
            HostEffect::PushUndo("SS_SIZE".to_string()),
            HostEffect::SetDirty,
            HostEffect::BumpGeometry,
            HostEffect::Info("done".to_string()),
            HostEffect::Output("line".to_string()),
            HostEffect::Error("oops".to_string()),
        ]
    );
}

#[test]
fn plugins_folder_per_platform() {
    let env = |o: Option<&str>, a: Option<&str>, h: Option<&str>, x: Option<&str>| PluginsEnv {
        override_dir: o.map(String::from),
        appdata: a.map(String::from),
        home: h.map(String::from),
        xdg_config_home: x.map(String::from),
    };
    let full = env(None, Some("C:\\Users\\u\\AppData"), Some("/home/u"), Some("/cfg"));
    assert_eq!(
        plugins_dir(TargetOs::Windows, &full),
        Some(vec!["C:\\Users\\u\\AppData".to_string(), "OpenCADStudio".into(), "plugins".into()])
    );
    assert_eq!(
        plugins_dir(TargetOs::MacOs, &full),
        Some(vec!["/home/u".to_string(), "Library".into(), "Application Support".into(), "OpenCADStudio".into(), "plugins".into()])
    );
    assert_eq!(
        plugins_dir(TargetOs::Other, &full),
        Some(vec!["/cfg".to_string(), "OpenCADStudio".into(), "plugins".into()])
    );
    assert_eq!(
        plugins_dir(TargetOs::Other, &env(None, None, Some("/home/u"), None)),
        Some(vec!["/home/u".to_string(), ".config".into(), "OpenCADStudio".into(), "plugins".into()])
    );
    assert_eq!(plugins_dir(TargetOs::Other, &env(None, None, None, None)), None);
    assert_eq!(plugins_dir(TargetOs::Windows, &env(None, None, Some("/h"), None)), None);
    assert_eq!(plugins_dir(TargetOs::MacOs, &env(Some("/tmp/p"), None, None, None)), Some(vec!["/tmp/p".to_string()]));
    assert_eq!(lib_extension(TargetOs::Windows), "dll");
    assert_eq!(lib_extension(TargetOs::MacOs), "dylib");
    assert_eq!(lib_extension(TargetOs::Other), "so");
}

#[test]
fn every_registered_storm_command_is_consumed_and_prefixed() {
    let reg = opencadstudio::modules::storm_sewer::command_names();
    assert_eq!(reg.names.len(), 14);
    for name in reg.names {
        assert!(route(name).is_some(), "{name} not routed");
        assert!(name.starts_with(storm_manifest().command_prefixes[0]));
    }
    let tmpl = opencadstudio::modules::plugin_template::command_names();
    assert_eq!(tmpl.names, &["MP_HELLO"]);
}

#[test]
fn startup_loads_only_compatible_packages_with_a_library() {
    let mk = |api: u32, lib: bool| {
        let mut p = parse_plugin_toml(&format!("id = x\napi_version = {api}")).unwrap();
        p.lib_present = lib;
        p
    };
    let found = vec![mk(API_VERSION, true), mk(API_VERSION, false), mk(1, true), mk(API_VERSION, true)];
    assert_eq!(startup_candidates(&found), vec![0, 3]);
    assert!(startup_candidates(&vec![]).is_empty());
}
