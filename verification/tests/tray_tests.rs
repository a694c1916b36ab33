use minio_drive::tray::{hides_on_close, shows_window_at_start, autostart_label, build_menu, menu_command, status_text, tooltip, MenuCommand, MenuEntry, MenuItemSpec};

fn item(id: &str, label: &str, enabled: bool) -> MenuItemSpec {
    MenuItemSpec { id: id.to_string(), label: label.to_string(), enabled }
}

#[test]
fn texts() {
    assert_eq!(status_text(0), "状态: 未连接");
    assert_eq!(status_text(12), "状态: 12 个 Bucket 已挂载");
    assert_eq!(tooltip(0), "MinIO Drive - 已挂载 0 个 Bucket");
    assert_eq!(tooltip(3), "MinIO Drive - 已挂载 3 个 Bucket");
    assert_eq!(autostart_label(true), "开机自启  \u{2713}");
    assert_eq!(autostart_label(false), "开机自启");
}

#[test]
fn menu_without_mounts() {
    let m = build_menu(&vec![], false);
    assert_eq!(
        m.items,
        vec![
            MenuEntry::Item(item("show", "显示窗口", true)),
            MenuEntry::Item(item("status", "状态: 未连接", false)),
            MenuEntry::Separator,
            MenuEntry::Item(item("mount", "快速挂载", true)),
            MenuEntry::Item(item("unmount", "卸载全部", false)),
            MenuEntry::Item(item("autostart", "开机自启", true)),
            MenuEntry::Separator,
            MenuEntry::Item(item("quit", "退出", true)),
        ]
    );
    assert_eq!(m.mounted_submenu, None);
}

#[test]
fn menu_with_mounts() {
    let m = build_menu(&vec!["a".to_string(), "b".to_string()], true);
    assert_eq!(m.items[1], MenuEntry::Item(item("status", "状态: 2 个 Bucket 已挂载", false)));
    assert_eq!(m.items[4], MenuEntry::Item(item("unmount", "卸载全部", true)));
    assert_eq!(m.items[5], MenuEntry::Item(item("autostart", "开机自启  \u{2713}", true)));
    assert_eq!(
        m.mounted_submenu,
        Some(vec![item("unmount:a", "a  \u{2716}", true), item("unmount:b", "b  \u{2716}", true)])
    );
}

#[test]
fn menu_ids_are_read_back() {
    assert_eq!(menu_command("show"), MenuCommand::Show);
    assert_eq!(menu_command("mount"), MenuCommand::QuickMount);
    assert_eq!(menu_command("unmount"), MenuCommand::UnmountAll);
    assert_eq!(menu_command("autostart"), MenuCommand::ToggleAutostart);
    assert_eq!(menu_command("quit"), MenuCommand::Quit);
    assert_eq!(menu_command("unmount:photos"), MenuCommand::Unmount("photos".to_string()));
    assert_eq!(menu_command("unmount:"), MenuCommand::Unmount(String::new()));
    assert_eq!(menu_command("status"), MenuCommand::Ignore);
    assert_eq!(menu_command("Show"), MenuCommand::Ignore);
}

#[test]
fn submenu_item_unmounts_its_bucket() {
    let buckets = vec!["show".to_string(), "unmount".to_string(), "a b".to_string()];
    let m = build_menu(&buckets, false);
    for (it, b) in m.mounted_submenu.unwrap().iter().zip(buckets.iter()) {
        assert_eq!(menu_command(&it.id), MenuCommand::Unmount(b.clone()));
    }
}

#[test]
fn only_the_main_window_hides_on_close() {
    assert!(hides_on_close("main"));
    assert!(!hides_on_close("settings"));
    assert!(!hides_on_close(""));
    assert!(!hides_on_close("\"main\""));
}

#[test]
fn autostart_launch_starts_silently() {
    let prog = "minio-drive".to_string();
    assert!(shows_window_at_start(&vec![prog.clone()]));
    assert!(shows_window_at_start(&vec![]));
    assert!(!shows_window_at_start(&vec![prog.clone(), "--autostart".to_string()]));
    assert!(!shows_window_at_start(&vec![prog.clone(), "--verbose".to_string(), "--autostart".to_string()]));
    assert!(shows_window_at_start(&vec![prog, "--autostart=1".to_string()]));
}
