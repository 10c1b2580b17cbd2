use lemonyde::catalog::{cursor_targets, known_fflags, presets};
use lemonyde::editor::{custom_flag, setting_name, AppState, Setting};
use lemonyde::keyed_map::KeyedMap;
use lemonyde::value::{coerce_value, Coerced, ConfigValue, FlagValue};

fn rows(state: &AppState) -> Vec<(String, String)> {
    state.flag_rows()
}

fn sample_config() -> KeyedMap<ConfigValue> {
    let mut flags: KeyedMap<FlagValue> = KeyedMap::new();
    flags.insert("FIntFRMMaxGrassDistance".to_string(), FlagValue::Int(0));
    flags.insert("DFFlagDebugPauseVoxelizer".to_string(), FlagValue::Bool(true));
    let mut cfg: KeyedMap<ConfigValue> = KeyedMap::new();
    cfg.insert("fflags".to_string(), ConfigValue::Table(flags));
    cfg.insert("use_opengl".to_string(), ConfigValue::Value(FlagValue::Bool(true)));
    cfg.insert("touch_mode".to_string(), ConfigValue::Value(FlagValue::Text("off".to_string())));
    cfg.insert("bring_back_oof".to_string(), ConfigValue::Value(FlagValue::Int(1)));
    cfg
}

#[test]
fn loading_splits_fflags_from_the_rest() {
    let state = AppState::from_config(sample_config());
    assert_eq!(
        rows(&state),
        vec![
            ("DFFlagDebugPauseVoxelizer".to_string(), "true".to_string()),
            ("FIntFRMMaxGrassDistance".to_string(), "0".to_string()),
        ]
    );
    assert!(state.setting_enabled(Setting::UseOpengl));
    assert!(!state.setting_enabled(Setting::EnableHidpi));
    assert_eq!(state.touch_mode(), "off");
}

#[test]
fn saving_puts_flags_back_under_fflags() {
    let state = AppState::from_config(sample_config());
    let doc = state.config_document();
    assert_eq!(doc.len(), 4);
    let keys: Vec<String> = (0..doc.len()).map(|i| doc.entry(i).0.clone()).collect();
    assert_eq!(keys, vec!["bring_back_oof", "fflags", "touch_mode", "use_opengl"]);
    match doc.get("fflags") {
        Some(ConfigValue::Table(m)) => {
            assert_eq!(m.len(), 2);
            assert!(matches!(m.get("FIntFRMMaxGrassDistance"), Some(FlagValue::Int(0))));
        }
        other => panic!("unexpected {:?}", other),
    }
    let again = AppState::from_config(doc);
    assert_eq!(rows(&again), rows(&state));
    assert_eq!(again.touch_mode(), "off");
}

#[test]
fn malformed_fflags_is_dropped_and_saved_empty() {
    let mut cfg: KeyedMap<ConfigValue> = KeyedMap::new();
    cfg.insert("fflags".to_string(), ConfigValue::Value(FlagValue::Text("oops".to_string())));
    let state = AppState::from_config(cfg);
    assert!(rows(&state).is_empty());
    let doc = state.config_document();
    assert!(matches!(doc.get("fflags"), Some(ConfigValue::Table(m)) if m.len() == 0));
}

#[test]
fn missing_config_gives_empty_state() {
    let state = AppState::from_config(KeyedMap::new());
    assert!(rows(&state).is_empty());
    assert!(!state.setting_enabled(Setting::CloseOnLeave));
    assert_eq!(state.touch_mode(), "");
    let doc = state.config_document();
    assert_eq!(doc.len(), 1);
}

#[test]
fn editing_and_removing_flags() {
    let mut state = AppState::new();
    state.set_flag("B".to_string(), FlagValue::Int(1));
    state.set_flag("A".to_string(), FlagValue::Text("x".to_string()));
    state.set_flag("B".to_string(), FlagValue::Bool(false));
    assert_eq!(
        rows(&state),
        vec![("A".to_string(), "x".to_string()), ("B".to_string(), "false".to_string())]
    );
    state.remove_flag("A");
    state.remove_flag("missing");
    assert_eq!(rows(&state), vec![("B".to_string(), "false".to_string())]);
    state.clear_flags();
    assert!(rows(&state).is_empty());
}

#[test]
fn known_flags_do_not_overwrite() {
    let mut state = AppState::new();
    state.set_flag("FIntDebugForceMSAASamples".to_string(), FlagValue::Int(8));
    let known = known_fflags();
    let msaa = known.iter().find(|k| k.name == "FIntDebugForceMSAASamples").unwrap();
    let value = match coerce_value(&msaa.default_text) {
        Coerced::Value(v) => v,
        other => panic!("unexpected {:?}", other),
    };
    assert!(!state.add_known_flag(&msaa.name, value));
    assert_eq!(rows(&state), vec![("FIntDebugForceMSAASamples".to_string(), "8".to_string())]);
    assert!(state.add_known_flag("FIntFRMMinGrassDistance", FlagValue::Int(0)));
    assert!(state.has_flag("FIntFRMMinGrassDistance"));
}

#[test]
fn presets_override_and_keep_other_flags() {
    let mut state = AppState::new();
    state.set_flag("Custom".to_string(), FlagValue::Int(9));
    state.set_flag("DFIntTextureQualityOverride".to_string(), FlagValue::Int(0));
    let all = presets();
    state.apply_preset(&all[0].flags);
    let r = rows(&state);
    assert_eq!(r.len(), 11);
    assert!(r.contains(&("Custom".to_string(), "9".to_string())));
    assert!(r.contains(&("DFIntTextureQualityOverride".to_string(), "1".to_string())));
    let once = rows(&state);
    state.apply_preset(&all[0].flags);
    assert_eq!(rows(&state), once);
    let names: Vec<&String> = r.iter().map(|(n, _)| n).collect();
    let mut sorted = names.clone();
    sorted.sort();
    assert_eq!(names, sorted);
}

#[test]
fn settings_read_back() {
    let mut state = AppState::new();
    state.set_setting(Setting::EnableHidpi, true);
    assert!(state.setting_enabled(Setting::EnableHidpi));
    assert!(!state.setting_enabled(Setting::UseOpengl));
    state.set_setting(Setting::EnableHidpi, false);
    assert!(!state.setting_enabled(Setting::EnableHidpi));
    state.set_touch_mode("on".to_string());
    assert_eq!(state.touch_mode(), "on");
    assert_eq!(setting_name(Setting::CloseOnLeave), "close_on_leave");
    let doc = state.config_document();
    assert!(matches!(doc.get("enable_hidpi"), Some(ConfigValue::Value(FlagValue::Bool(false)))));
}

#[test]
fn reset_forgets_everything() {
    let mut state = AppState::from_config(sample_config());
    state.reset();
    assert!(rows(&state).is_empty());
    assert!(!state.setting_enabled(Setting::UseOpengl));
    assert_eq!(state.touch_mode(), "");
}

#[test]
fn custom_flags_from_the_dialog() {
    assert!(custom_flag("   ", "5").is_none());
    match custom_flag("  MyFlag ", "") {
        Some((n, Coerced::Value(FlagValue::Bool(true)))) => assert_eq!(n, "MyFlag"),
        other => panic!("unexpected {:?}", other),
    }
    match custom_flag("F", " 12 ") {
        Some((n, Coerced::Value(FlagValue::Int(12)))) => assert_eq!(n, "F"),
        other => panic!("unexpected {:?}", other),
    }
    match custom_flag("F", " some text ") {
        Some((_, Coerced::Value(FlagValue::Text(t)))) => assert_eq!(t, "some text"),
        other => panic!("unexpected {:?}", other),
    }
}

#[test]
fn catalogue_contents() {
    let known = known_fflags();
    assert_eq!(known.len(), 13);
    assert_eq!(known[0].name, "DFIntCSGLevelOfDetailSwitchingDistance");
    assert_eq!(known[0].default_text, "400");
    assert_eq!(known[12].name, "FIntGrassMovementReducedMotionFactor");
    for k in &known {
        assert!(matches!(coerce_value(&k.default_text), Coerced::Value(_)));
    }
    let p = presets();
    assert_eq!(p.len(), 3);
    assert_eq!(p[1].name, "Balanced / Mid-Range");
    assert_eq!(p[0].flags.len(), 10);
    assert_eq!(p[1].flags.len(), 9);
    assert_eq!(p[2].flags.len(), 6);
    assert!(matches!(p[2].flags.get("DFIntDebugFRMQualityLevelOverride"), Some(FlagValue::Int(21))));
    let c = cursor_targets();
    assert_eq!(c.len(), 3);
    assert_eq!(c[1].file_name, "ArrowFarCursor.png");
}
