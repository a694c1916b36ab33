//! The tray icon's menu and tooltip, and what a click on a menu item asks for.
use vstd::prelude::*;
use crate::text::{decimal, push_decimal, chars_of, string_from_range, starts_with, has_prefix};
use crate::listing::string_views;

verus! {

/// A clickable line of the menu.
#[derive(Debug, PartialEq, Eq)]
pub struct MenuItemSpec {
    pub id: String,
    pub label: String,
    pub enabled: bool,
}

/// A line of the menu.
#[derive(Debug, PartialEq, Eq)]
pub enum MenuEntry {
    Item(MenuItemSpec),
    Separator,
}

/// The tray menu: its lines, then the submenu of mounted buckets when there is one.
#[derive(Debug, PartialEq, Eq)]
pub struct TrayMenu {
    pub items: Vec<MenuEntry>,
    pub mounted_submenu: Option<Vec<MenuItemSpec>>,
}

/// [`MenuItemSpec`] as values.
pub struct ItemView {
    pub id: Seq<char>,
    pub label: Seq<char>,
    pub enabled: bool,
}

/// [`MenuEntry`] as values.
pub enum EntryView {
    Item(ItemView),
    Separator,
}

impl View for MenuItemSpec {
    type V = ItemView;

    open spec fn view(&self) -> ItemView {
        ItemView { id: self.id@, label: self.label@, enabled: self.enabled }
    }
}

impl View for MenuEntry {
    type V = EntryView;

    open spec fn view(&self) -> EntryView {
        match self {
            MenuEntry::Item(i) => EntryView::Item(i@),
            MenuEntry::Separator => EntryView::Separator,
        }
    }
}

/// The entries as values.
pub open spec fn entry_views(v: Seq<MenuEntry>) -> Seq<EntryView> {
    v.map_values(|e: MenuEntry| e@)
}

/// The items as values.
pub open spec fn item_views(v: Seq<MenuItemSpec>) -> Seq<ItemView> {
    v.map_values(|i: MenuItemSpec| i@)
}

/// The status line: how many buckets are mounted, or that none is.
pub open spec fn status_text_spec(count: nat) -> Seq<char> {
    if count > 0 {
        "状态: "@ + decimal(count) + " 个 Bucket 已挂载"@
    } else {
        "状态: 未连接"@
    }
}

/// The tooltip of the tray icon.
pub open spec fn tooltip_spec(count: nat) -> Seq<char> {
    "MinIO Drive - 已挂载 "@ + decimal(count) + " 个 Bucket"@
}

/// The label of the autostart item, ticked when autostart is on.
pub open spec fn autostart_label_spec(enabled: bool) -> Seq<char> {
    if enabled {
        "开机自启  \u{2713}"@
    } else {
        "开机自启"@
    }
}

/// The id of the item that unmounts `bucket`.
pub open spec fn unmount_item_id(bucket: Seq<char>) -> Seq<char> {
    "unmount:"@ + bucket
}

/// The submenu item that unmounts `bucket`.
pub open spec fn unmount_item(bucket: Seq<char>) -> ItemView {
    ItemView { id: unmount_item_id(bucket), label: bucket + "  \u{2716}"@, enabled: true }
}

/// The submenu items that unmount each of `buckets`, in order.
pub open spec fn unmount_items(buckets: Seq<Seq<char>>) -> Seq<ItemView> {
    buckets.map_values(|b: Seq<char>| unmount_item(b))
}

/// The lines of the tray menu when `count` buckets are mounted.
pub open spec fn menu_items_spec(count: nat, autostart_enabled: bool) -> Seq<EntryView> {
    seq![
        EntryView::Item(ItemView { id: "show"@, label: "显示窗口"@, enabled: true }),
        EntryView::Item(ItemView { id: "status"@, label: status_text_spec(count), enabled: false }),
        EntryView::Separator,
        EntryView::Item(ItemView { id: "mount"@, label: "快速挂载"@, enabled: true }),
        EntryView::Item(ItemView { id: "unmount"@, label: "卸载全部"@, enabled: count > 0 }),
        EntryView::Item(ItemView { id: "autostart"@, label: autostart_label_spec(autostart_enabled), enabled: true }),
        EntryView::Separator,
        EntryView::Item(ItemView { id: "quit"@, label: "退出"@, enabled: true }),
    ]
}

/// The tray's status line names the number of mounted buckets whenever one or more is
/// mounted, and says that nothing is connected exactly when none is; it is the menu's
/// second line, which cannot be clicked.
pub proof fn lemma_status_line(count: nat, autostart_enabled: bool)
    ensures
        count > 0 ==> status_text_spec(count) == "状态: "@ + decimal(count) + " 个 Bucket 已挂载"@,
        count == 0 ==> status_text_spec(count) == "状态: 未连接"@,
        (status_text_spec(count) == "状态: 未连接"@) <==> count == 0,
        menu_items_spec(count, autostart_enabled)[1] == EntryView::Item(
            ItemView { id: "status"@, label: status_text_spec(count), enabled: false },
        ),
{
    reveal_strlit("状态: ");
    reveal_strlit(" 个 Bucket 已挂载");
    reveal_strlit("状态: 未连接");
    assert(decimal(count).len() >= 1);
    if count > 0 {
        assert(status_text_spec(count).len() > ("状态: 未连接"@).len());
    }
}

/// The status line for `count` mounted buckets.
pub fn status_text(count: usize) -> (r: String)
    ensures
        r@ == status_text_spec(count as nat),
{
    if count > 0 {
        let mut r = String::from_str("状态: ");
        push_decimal(&mut r, count as u64);
        r.append(" 个 Bucket 已挂载");
        r
    } else {
        String::from_str("状态: 未连接")
    }
}

/// The tooltip for `count` mounted buckets.
pub fn tooltip(count: usize) -> (r: String)
    ensures
        r@ == tooltip_spec(count as nat),
{
    let mut r = String::from_str("MinIO Drive - 已挂载 ");
    push_decimal(&mut r, count as u64);
    r.append(" 个 Bucket");
    r
}

/// The label of the autostart item.
pub fn autostart_label(enabled: bool) -> (r: String)
    ensures
        r@ == autostart_label_spec(enabled),
{
    if enabled {
        String::from_str("开机自启  \u{2713}")
    } else {
        String::from_str("开机自启")
    }
}

/// A menu item.
fn item(id: &str, label: String, enabled: bool) -> (r: MenuEntry)
    ensures
        r@ == EntryView::Item(ItemView { id: id@, label: label@, enabled }),
{
    MenuEntry::Item(MenuItemSpec { id: String::from_str(id), label, enabled })
}

/// The tray menu when the buckets `mounted_buckets` are mounted: fixed lines with the
/// number of mounts and the state of autostart, and, when something is mounted, a
/// submenu with one item per mounted bucket that unmounts it.
pub fn build_menu(mounted_buckets: &Vec<String>, autostart_enabled: bool) -> (r: TrayMenu)
    ensures
        entry_views(r.items@) == menu_items_spec(mounted_buckets@.len(), autostart_enabled),
        r.mounted_submenu is Some <==> mounted_buckets@.len() > 0,
        r.mounted_submenu is Some ==> item_views(r.mounted_submenu->0@) == unmount_items(string_views(mounted_buckets@)),
{
    let count = mounted_buckets.len();
    let mut items: Vec<MenuEntry> = Vec::new();
    items.push(item("show", String::from_str("显示窗口"), true));
    items.push(item("status", status_text(count), false));
    items.push(MenuEntry::Separator);
    items.push(item("mount", String::from_str("快速挂载"), true));
    items.push(item("unmount", String::from_str("卸载全部"), count > 0));
    items.push(item("autostart", autostart_label(autostart_enabled), true));
    items.push(MenuEntry::Separator);
    items.push(item("quit", String::from_str("退出"), true));
    assert(entry_views(items@) =~= menu_items_spec(count as nat, autostart_enabled));
    if count == 0 {
        return TrayMenu { items, mounted_submenu: None };
    }
    let mut sub: Vec<MenuItemSpec> = Vec::new();
    let mut k: usize = 0;
    while k < count
        invariant
            count == mounted_buckets@.len(),
            k <= count,
            sub@.len() == k,
            item_views(sub@) == unmount_items(string_views(mounted_buckets@.take(k as int))),
        decreases count - k,
    {
        let bucket = &mounted_buckets[k];
        let mut id = String::from_str("unmount:");
        id.append(bucket.as_str());
        let mut label = bucket.clone();
        label.append("  \u{2716}");
        let ghost old_sub = sub@;
        sub.push(MenuItemSpec { id, label, enabled: true });
        proof {
            let b = mounted_buckets@[k as int]@;
            assert(sub@[k as int]@ == unmount_item(b));
            assert(item_views(sub@) =~= item_views(old_sub).push(unmount_item(b)));
            assert(unmount_items(string_views(mounted_buckets@.take(k as int)).push(b)) =~= unmount_items(string_views(mounted_buckets@.take(k as int))).push(unmount_item(b)));
            assert(string_views(mounted_buckets@.take(k + 1)) =~= string_views(mounted_buckets@.take(k as int)).push(
                mounted_buckets@[k as int]@,
            ));
            assert(item_views(sub@) =~= unmount_items(string_views(mounted_buckets@.take(k + 1))));
        }
        k = k + 1;
    }
    proof {
        assert(mounted_buckets@.take(count as int) =~= mounted_buckets@);
    }
    TrayMenu { items, mounted_submenu: Some(sub) }
}

/// What a click on a tray menu item asks for.
#[derive(Debug, PartialEq, Eq)]
pub enum MenuCommand {
    /// Show the main window.
    Show,
    /// Mount every bucket that is not mounted yet.
    QuickMount,
    /// Unmount every bucket.
    UnmountAll,
    /// Turn autostart on or off.
    ToggleAutostart,
    /// Unmount everything and quit.
    Quit,
    /// Unmount this bucket.
    Unmount(String),
    /// Nothing.
    Ignore,
}

/// What the click on the item with id `id` asks for.
pub open spec fn command_for(id: Seq<char>) -> (Option<Seq<char>>, nat) {
    if id == "show"@ {
        (None, 0)
    } else if id == "mount"@ {
        (None, 1)
    } else if id == "unmount"@ {
        (None, 2)
    } else if id == "autostart"@ {
        (None, 3)
    } else if id == "quit"@ {
        (None, 4)
    } else if has_prefix(id, "unmount:"@) {
        (Some(id.skip("unmount:"@.len() as int)), 5)
    } else {
        (None, 6)
    }
}

/// [`MenuCommand`] as the pair that [`command_for`] gives.
pub open spec fn command_code(c: MenuCommand) -> (Option<Seq<char>>, nat) {
    match c {
        MenuCommand::Show => (None, 0),
        MenuCommand::QuickMount => (None, 1),
        MenuCommand::UnmountAll => (None, 2),
        MenuCommand::ToggleAutostart => (None, 3),
        MenuCommand::Quit => (None, 4),
        MenuCommand::Unmount(b) => (Some(b@), 5),
        MenuCommand::Ignore => (None, 6),
    }
}

/// Reads the id of a clicked menu item: the fixed items by their ids, and
/// `unmount:<bucket>` as unmounting that bucket; anything else asks for nothing.
pub fn menu_command(id: &str) -> (r: MenuCommand)
    ensures
        command_code(r) == command_for(id@),
{
    let s = String::from_str(id);
    if s == String::from_str("show") {
        MenuCommand::Show
    } else if s == String::from_str("mount") {
        MenuCommand::QuickMount
    } else if s == String::from_str("unmount") {
        MenuCommand::UnmountAll
    } else if s == String::from_str("autostart") {
        MenuCommand::ToggleAutostart
    } else if s == String::from_str("quit") {
        MenuCommand::Quit
    } else {
        let cs = chars_of(id);
        let prefix = chars_of("unmount:");
        if starts_with(&cs, &prefix) {
            let bucket = string_from_range(&cs, prefix.len(), cs.len());
            assert(bucket@ =~= id@.skip("unmount:"@.len() as int));
            MenuCommand::Unmount(bucket)
        } else {
            MenuCommand::Ignore
        }
    }
}

/// Whether a window with this label is hidden, not closed, when its close button is
/// pressed, so that the application keeps running in the tray: only the main window is.
pub fn hides_on_close(label: &str) -> (b: bool)
    ensures
        b == (label@ == "main"@),
{
    let l = String::from_str(label);
    l == String::from_str("main")
}

/// Whether the launch arguments mark a start by the system at login.
pub open spec fn started_at_login(args: Seq<Seq<char>>) -> bool {
    exists|i: int| 0 <= i < args.len() && args[i] == "--autostart"@
}

/// Whether the main window is shown when the application starts: it is, unless the
/// system started the application at login (the argument `--autostart`), which then
/// starts silently in the tray.
pub fn shows_window_at_start(args: &Vec<String>) -> (b: bool)
    ensures
        b == !started_at_login(string_views(args@)),
{
    let flag = String::from_str("--autostart");
    let n = args.len();
    let mut i: usize = 0;
    while i < n
        invariant
            n == args@.len(),
            i <= n,
            flag@ == "--autostart"@,
            forall|j: int| 0 <= j < i ==> string_views(args@)[j] != "--autostart"@,
        decreases n - i,
    {
        if args[i] == flag {
            assert(string_views(args@)[i as int] == "--autostart"@);
            return false;
        }
        i = i + 1;
    }
    true
}

/// Each submenu item unmounts its own bucket: clicking the item built for `bucket`
/// asks to unmount exactly `bucket`.
pub proof fn lemma_unmount_item_round_trip(bucket: Seq<char>)
    ensures
        command_for(unmount_item(bucket).id) == (Some(bucket), 5nat),
{
    reveal_strlit("unmount:");
    reveal_strlit("show");
    reveal_strlit("mount");
    reveal_strlit("unmount");
    reveal_strlit("autostart");
    reveal_strlit("quit");
    let id = unmount_item_id(bucket);
    assert(id.len() >= 8);
    assert(id[7] == ':');
    assert(id != "show"@) by {
        if id.len() == 4 {
        }
    }
    assert(id != "mount"@);
    assert(id != "unmount"@);
    assert(id != "autostart"@) by {
        if id.len() == 9 {
            assert("autostart"@[7] == 'r');
        }
    }
    assert(id != "quit"@);
    assert(id.take(8) =~= "unmount:"@);
    assert(id.skip(8) =~= bucket);
}

} // verus!
