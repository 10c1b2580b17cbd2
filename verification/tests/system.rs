use lemonyde::flatpak::{count_running, install_status, installed_subtitle, parse_version, running_label, InstallStatus};
use lemonyde::markup::{escape_markup, gradient_stops, green_yellow_stops, heading_file_name, slugify};
use lemonyde::paths::{
    cursor_dir, font_dir, font_target, instances_dir, join, real_home, slot_home, xdg_dir, Paths,
};
use lemonyde::slots::{
    launch_log_text, launch_step, launch_toast_text, slot_closed_text, slot_failed_text,
    slot_launched_text, slot_skipped_text, ActiveSlots, LaunchAction,
};

#[test]
fn joining_paths_like_pathbuf() {
    assert_eq!(join(b"/home/u", b"a/b"), b"/home/u/a/b".to_vec());
    assert_eq!(join(b"/home/u/", b"a"), b"/home/u/a".to_vec());
    assert_eq!(join(b"", b"a"), b"a".to_vec());
    assert_eq!(join(b"/home/u", b"/etc"), b"/etc".to_vec());
    assert_eq!(join(b"/home/u", b""), b"/home/u/".to_vec());
}

#[test]
fn sober_paths_under_home() {
    let p = Paths::new(b"/home/u");
    assert_eq!(p.config_dir, b"/home/u/.var/app/org.vinegarhq.Sober/config/sober".to_vec());
    assert_eq!(p.config_file, b"/home/u/.var/app/org.vinegarhq.Sober/config/sober/config.json".to_vec());
    assert_eq!(p.config_backup, b"/home/u/.var/app/org.vinegarhq.Sober/config/sober/config.json.bak".to_vec());
    assert_eq!(p.data_dir, b"/home/u/.var/app/org.vinegarhq.Sober/data/sober".to_vec());
    assert_eq!(
        p.client_settings,
        b"/home/u/.var/app/org.vinegarhq.Sober/data/sober/exe/ClientSettings/ClientAppSettings.json".to_vec()
    );
    assert_eq!(p.asset_overlay, b"/home/u/.var/app/org.vinegarhq.Sober/data/sober/asset_overlay".to_vec());
    assert_eq!(
        cursor_dir(&p.asset_overlay),
        b"/home/u/.var/app/org.vinegarhq.Sober/data/sober/asset_overlay/content/textures/Cursors/KeyboardMouse".to_vec()
    );
    assert_eq!(font_dir(b"/o"), b"/o/content/fonts".to_vec());
    let q = Paths::new(&real_home(None));
    assert_eq!(q.config_file, b"./.var/app/org.vinegarhq.Sober/config/sober/config.json".to_vec());
}

#[test]
fn xdg_dirs_and_slot_homes() {
    assert_eq!(xdg_dir(Some(b"/data".to_vec()), b"/home/u", ".local/share"), b"/data".to_vec());
    assert_eq!(xdg_dir(Some(Vec::new()), b"/home/u", ".local/share"), Vec::<u8>::new());
    assert_eq!(xdg_dir(None, b"/home/u", ".local/share"), b"/home/u/.local/share".to_vec());
    let inst = instances_dir(b"/home/u/.local/share");
    assert_eq!(inst, b"/home/u/.local/share/lemonyde/instances".to_vec());
    assert_eq!(slot_home(&inst, 1), b"/home/u/.local/share/lemonyde/instances/slot-1".to_vec());
    assert_eq!(slot_home(&inst, 42), b"/home/u/.local/share/lemonyde/instances/slot-42".to_vec());
    assert_ne!(slot_home(&inst, 1), slot_home(&inst, 11));
    assert_eq!(instances_dir(b""), b"lemonyde/instances".to_vec());
}

#[test]
fn launching_skips_running_slots() {
    let mut active = ActiveSlots::new();
    let s = launch_step(1, 3, &active).unwrap();
    assert_eq!((s.slot, s.action, s.next), (1, LaunchAction::Spawn, Some(2)));
    active.insert(1);
    active.insert(1);
    let s = launch_step(1, 3, &active).unwrap();
    assert_eq!(s.action, LaunchAction::Skip);
    let s = launch_step(3, 3, &active).unwrap();
    assert_eq!((s.action, s.next), (LaunchAction::Spawn, None));
    assert!(launch_step(4, 3, &active).is_none());
    assert!(launch_step(1, 0, &active).is_none());
    active.remove(1);
    assert!(!active.contains(1));
    assert_eq!(launch_step(1, 1, &active).unwrap().action, LaunchAction::Spawn);
}

#[test]
fn counting_running_sandboxes() {
    let out = "org.vinegarhq.Sober\n  org.vinegarhq.Sober  \norg.other.App\norg.vinegarhq.Sober\r\n";
    assert_eq!(count_running(out, "org.vinegarhq.Sober"), 3);
    assert_eq!(count_running("", "org.vinegarhq.Sober"), 0);
    assert_eq!(count_running("org.vinegarhq.Sober", "org.vinegarhq.Sober"), 1);
    assert_eq!(count_running("a\n\n", ""), 1);
}

#[test]
fn reading_the_version() {
    let info = "\nSober - Roblox\n\n          ID: org.vinegarhq.Sober\n     Version: 1.2.3  \n     Version: 9\n";
    assert_eq!(parse_version(info), Some("1.2.3".to_string()));
    assert_eq!(parse_version("no version here"), None);
    assert_eq!(parse_version("Version:"), Some(String::new()));
    assert_eq!(parse_version("version: 1"), None);
}

#[test]
fn status_texts() {
    assert!(matches!(install_status(false, true, None), InstallStatus::FlatpakMissing));
    assert!(matches!(install_status(true, false, None), InstallStatus::NotInstalled));
    match install_status(true, true, Some("1.0".to_string())) {
        InstallStatus::Installed(Some(v)) => assert_eq!(v, "1.0"),
        other => panic!("unexpected {:?}", other),
    }
    assert_eq!(installed_subtitle(&Some("1.0".to_string())), "Version 1.0");
    assert_eq!(installed_subtitle(&None), "Ready to launch");
    assert_eq!(running_label(0), "None running");
    assert_eq!(running_label(1), "1 instance running");
    assert_eq!(running_label(12), "12 instances running");
}

#[test]
fn headings_markup() {
    assert_eq!(slugify("Multi-Instance Launch"), "multi-instance-launch");
    assert_eq!(slugify("In-Game Font (experimental)"), "in-game-font--experimental-");
    assert_eq!(slugify("Ünïcode 9"), "-n-code-9");
    assert_eq!(slugify(&slugify("A b")), slugify("A b"));
    assert_eq!(escape_markup("a & <b> c"), "a &amp; &lt;b&gt; c");
    assert_eq!(escape_markup("plain"), "plain");
    let escaped = escape_markup("<<a>&>");
    assert_eq!(escaped, "&lt;&lt;a&gt;&amp;&gt;");
    assert!(!escaped.contains('<') && !escaped.contains('>'));
    assert_eq!(heading_file_name("Activity Log", 18), "activity-log-18.svg");
    assert_eq!(
        gradient_stops(&green_yellow_stops()),
        "<stop offset=\"0%\" stop-color=\"#fff066\"/><stop offset=\"55%\" stop-color=\"#9be23f\"/><stop offset=\"100%\" stop-color=\"#2fae4a\"/>"
    );
}

#[test]
fn font_target_stays_inside_the_fonts_folder() {
    assert_eq!(font_target(b"/o", b"a.ttf"), Some(b"/o/content/fonts/a.ttf".to_vec()));
    assert_eq!(font_target(b"/o", b"sub/a.ttf"), Some(b"/o/content/fonts/sub/a.ttf".to_vec()));
    assert_eq!(font_target(b"/o", b"a..b"), Some(b"/o/content/fonts/a..b".to_vec()));
    assert_eq!(font_target(b"/o", b"..a"), Some(b"/o/content/fonts/..a".to_vec()));
    assert_eq!(font_target(b"/o", b""), None);
    assert_eq!(font_target(b"/o", b"/etc/x"), None);
    assert_eq!(font_target(b"/o", b"../x"), None);
    assert_eq!(font_target(b"/o", b"a/../b"), None);
    assert_eq!(font_target(b"/o", b".."), None);
    assert_eq!(font_target(b"/o", b"a/.."), None);
}

#[test]
fn slot_messages() {
    assert_eq!(
        slot_skipped_text(2),
        "Slot 2 is already running — close it before relaunching, skipping"
    );
    assert_eq!(
        slot_launched_text(10),
        "Slot 10 launched — complete its one-time sign-in/setup, it'll go straight to Roblox next time"
    );
    assert_eq!(slot_closed_text(3), "Slot 3 closed — free to relaunch");
    assert_eq!(slot_failed_text(1, "not found"), "Slot 1 failed to launch: not found");
    assert_eq!(launch_log_text(4), "$ launching up to 4 Sober instance(s)…");
    assert_eq!(launch_toast_text(4), "Launching up to 4 instance(s)…");
}
