//! The desktop session as text: the header, the active tab's view and the
//! inspector drawer.

use vstd::prelude::*;
use crate::object::types::ObjectType;
use crate::model::ActorID;
use crate::product::home::{SpaceType, InterfaceComplexity, space_name, complexity_name};
use crate::product::desktop_app::DesktopAppSession;
use crate::product::panels::{PersonContextualSurface, DeviceContextualSurface};
use crate::product::settings::{SettingItem, SettingsConsequenceTree};
use crate::product::inspector::UniversalObjectInspector;
use crate::text::{decimal, decimal_text, str_debug, str_debug_text};

verus! {

/// One entry of the home feed.
pub struct FeedItem {
    pub title: String,
    pub status_badge: String,
}

/// What the home screen shows of a space.
pub struct HomeScreen {
    pub space_title: String,
    pub sync_status_label: String,
    pub identity_protection_label: String,
    pub total_items_in_space: usize,
    pub feed_items: Vec<FeedItem>,
}

/// One row of the photos or drive lens.
pub struct LensRow {
    pub name: String,
    pub byte_size_formatted: String,
    pub status_badge: String,
}

/// What the photos or drive lens shows of a space.
pub struct LensScreen {
    pub active_space: SpaceType,
    pub total: usize,
    pub storage_used_label: String,
    pub rows: Vec<LensRow>,
}

/// The view model of the active tab.
pub enum TabView {
    Home(HomeScreen),
    Photos(LensScreen),
    Drive(LensScreen),
    People(PersonContextualSurface),
    Devices(DeviceContextualSurface),
    Settings(SettingsConsequenceTree),
}

/// The derived `Debug` text of an object kind.
pub open spec fn object_type_debug(t: ObjectType) -> Seq<char> {
    match t {
        ObjectType::DriveInode => "DriveInode"@,
        ObjectType::DriveFolder => "DriveFolder"@,
        ObjectType::PhotoMedia => "PhotoMedia"@,
        ObjectType::PhotoAlbum => "PhotoAlbum"@,
        ObjectType::ChatChannel => "ChatChannel"@,
        ObjectType::ChatMessage => "ChatMessage"@,
        ObjectType::ChatReceipt => "ChatReceipt"@,
        ObjectType::Community => "Community"@,
        ObjectType::MemberRole => "MemberRole"@,
        ObjectType::VaultItem => "VaultItem"@,
        ObjectType::BackupIndex => "BackupIndex"@,
        ObjectType::Synthetic(n) => "Synthetic("@ + decimal(n as nat) + ")"@,
    }
}

fn object_type_text(t: ObjectType) -> (r: String)
    ensures
        r@ == object_type_debug(t),
{
    match t {
        ObjectType::DriveInode => "DriveInode".to_string(),
        ObjectType::DriveFolder => "DriveFolder".to_string(),
        ObjectType::PhotoMedia => "PhotoMedia".to_string(),
        ObjectType::PhotoAlbum => "PhotoAlbum".to_string(),
        ObjectType::ChatChannel => "ChatChannel".to_string(),
        ObjectType::ChatMessage => "ChatMessage".to_string(),
        ObjectType::ChatReceipt => "ChatReceipt".to_string(),
        ObjectType::Community => "Community".to_string(),
        ObjectType::MemberRole => "MemberRole".to_string(),
        ObjectType::VaultItem => "VaultItem".to_string(),
        ObjectType::BackupIndex => "BackupIndex".to_string(),
        ObjectType::Synthetic(n) => cat(cat("Synthetic(".to_string(), decimal_text(n as u64).as_str()), ")"),
    }
}

/// The quoted strings separated by `", "`.
pub open spec fn quoted_list(s: Seq<String>) -> Seq<char>
    decreases s.len(),
{
    if s.len() == 0 {
        Seq::empty()
    } else if s.len() == 1 {
        str_debug(s[0]@)
    } else {
        quoted_list(s.drop_last()) + ", "@ + str_debug(s.last()@)
    }
}

/// The `Debug` text of a list of strings.
pub open spec fn strings_debug(s: Seq<String>) -> Seq<char> {
    "["@ + quoted_list(s) + "]"@
}

fn strings_debug_text(v: &Vec<String>) -> (r: String)
    ensures
        r@ == strings_debug(v@),
{
    let mut out = "[".to_string();
    let mut i: usize = 0;
    while i < v.len()
        invariant
            i <= v@.len(),
            out@ == "["@ + quoted_list(v@.take(i as int)),
        decreases v@.len() - i,
    {
        proof {
            assert(v@.take(i + 1).drop_last() =~= v@.take(i as int));
            assert(v@.take(1) =~= seq![v@[0]]);
        }
        if i > 0 {
            vstd::string::StringExecFns::append(&mut out, ", ");
        }
        let d = str_debug_text(v[i].as_str());
        vstd::string::StringExecFns::append(&mut out, d.as_str());
        proof {
            assert(out@ =~= "["@ + quoted_list(v@.take(i + 1)));
        }
        i = i + 1;
    }
    assert(v@.take(v@.len() as int) =~= v@);
    vstd::string::StringExecFns::append(&mut out, "]");
    out
}

/// `a` followed by `b`.
fn cat(a: String, b: &str) -> (r: String)
    ensures
        r@ == a@ + b@,
{
    let mut r = a;
    vstd::string::StringExecFns::append(&mut r, b);
    r
}

/// The numbered feed lines.
pub open spec fn feed_lines(s: Seq<FeedItem>) -> Seq<char>
    decreases s.len(),
{
    if s.len() == 0 {
        Seq::empty()
    } else {
        feed_lines(s.drop_last()) + "   ["@ + decimal(s.len()) + "] "@ + s.last().title@ + " ("@
            + s.last().status_badge@ + ")\n"@
    }
}

/// The lens rows.
pub open spec fn lens_lines(s: Seq<LensRow>) -> Seq<char>
    decreases s.len(),
{
    if s.len() == 0 {
        Seq::empty()
    } else {
        lens_lines(s.drop_last()) + "   \u{2022} "@ + s.last().name@ + " ["@ + s.last().byte_size_formatted@
            + "] \u{2014} "@ + s.last().status_badge@ + "\n"@
    }
}

/// The quick actions, each bracketed.
pub open spec fn action_lines(s: Seq<String>) -> Seq<char>
    decreases s.len(),
{
    if s.len() == 0 { Seq::empty() } else { action_lines(s.drop_last()) + "     [ "@ + s.last()@ + " ]"@ }
}

/// The settings of a section.
pub open spec fn setting_lines(s: Seq<SettingItem>) -> Seq<char>
    decreases s.len(),
{
    if s.len() == 0 {
        Seq::empty()
    } else {
        setting_lines(s.drop_last()) + "     \u{2022} "@ + s.last().title@ + ": "@ + s.last().current_value@ + " ("@
            + s.last().explanation@ + ")\n"@
    }
}

/// The header: space, level and status, then the tab bar.
pub open spec fn header_text(s: DesktopAppSession) -> Seq<char> {
    "================================================================================\n"@ + "  NEX DESKTOP  |  Space: "@ + space_name(s.active_space) + "  |  Level: "@
        + complexity_name(s.complexity) + "  |  Status: "@ + s.status_message@ + "\n"@ + "================================================================================\n"@
        + "  [1] Home  |  [2] Photos  |  [3] Drive  |  [4] People  |  [5] Devices  |  [6] Settings\n"@
        + "--------------------------------------------------------------------------------\n\n"@
}

/// A lens screen, under its heading.
pub open spec fn lens_text(l: LensScreen, heading: Seq<char>, total_label: Seq<char>, empty: Seq<char>) -> Seq<char> {
    heading + space_name(l.active_space) + " Space\n"@ + total_label + decimal(l.total as nat) + "\n"@
        + "   Storage Used : "@ + l.storage_used_label@ + "\n\n"@
        + if l.rows@.len() == 0 { empty } else { lens_lines(l.rows@) }
}

/// The active tab's view.
pub open spec fn tab_text(v: TabView) -> Seq<char> {
    match v {
        TabView::Home(h) => "\u{1F3E0} HOME \u{2014} "@ + h.space_title@ + "\n"@
            + "   Sync Status : "@ + h.sync_status_label@ + "\n"@
            + "   Protection  : "@ + h.identity_protection_label@ + "\n"@
            + "   Total Items : "@ + decimal(h.total_items_in_space as nat) + "\n\n"@
            + "   Recent Feed:\n"@
            + if h.feed_items@.len() == 0 { "   (No items in this Space yet. Import photos or files to begin.)\n"@ }
                else { feed_lines(h.feed_items@) },
        TabView::Photos(l) => lens_text(l, "\u{1F4F7} PHOTOS LENS \u{2014} "@, "   Total Photos : "@,
            "   (No photos in this Space. Use file import to add photos.)\n"@),
        TabView::Drive(l) => lens_text(l, "\u{1F4C1} DRIVE LENS \u{2014} "@, "   Total Files  : "@,
            "   (No documents in this Space. Use file import to add files.)\n"@),
        TabView::People(p) => "\u{1F464} PERSON PANEL \u{2014} "@ + p.display_name@ + "\n"@
            + "   Trust State : "@ + p.trust_badge@ + "\n"@
            + "   Connection  : "@ + p.connection_type_label@ + "\n"@
            + "   Shared Items: "@ + decimal(p.shared_objects_count as nat) + " objects\n"@
            + "   Quick Actions:\n"@ + action_lines(p.quick_actions@) + "\n"@
            + match p.technical_identity_info { Some(t) => "\n   \u{1F52C} Advanced Identity: "@ + t@ + "\n"@, None => Seq::empty() },
        TabView::Devices(d) => "\u{1F4F1} DEVICE PANEL \u{2014} "@ + d.device_name@ + "\n"@
            + "   Status      : "@ + d.connection_badge@ + "\n"@
            + "   Transport   : "@ + d.transport_type_label@ + "\n"@
            + "   Latency     : "@ + decimal(d.latency_ms as nat) + " ms\n"@
            + "   Storage     : "@ + d.storage_quota_label@ + "\n"@
            + "   Protection  : "@ + d.key_protection_status@ + "\n"@
            + match d.technical_device_info { Some(t) => "\n   \u{1F52C} Diagnostics: "@ + t@ + "\n"@, None => Seq::empty() },
        TabView::Settings(t) => "\u{2699}\u{FE0F} SETTINGS & EXPERIENCE SLIDER\n"@
            + "   Active Slider: "@ + complexity_name(t.active_complexity_slider) + "\n\n"@
            + "   User & Identity:\n"@ + setting_lines(t.user_section@)
            + "\n   Your NEX System:\n"@ + setting_lines(t.your_nex_section@)
            + match t.advanced_section {
                Some(a) => "\n   \u{1F52C} Cryptographic & Storage Diagnostics:\n"@ + setting_lines(a@),
                None => Seq::empty(),
            },
    }
}

/// The inspector drawer for an inspected object.
pub open spec fn drawer_text(i: UniversalObjectInspector) -> Seq<char> {
    "\n--------------------------------------------------------------------------------\n"@ + "\u{1F50D} UNIVERSAL OBJECT INSPECTOR \u{2014} "@ + i.title@ + "\n"@
        + "   Type       : "@ + object_type_debug(i.object_type) + "  |  Space: "@ + i.space_name@ + "  |  Size: "@
        + i.byte_size_formatted@ + "\n"@
        + "   Status     : "@ + i.status_badge@ + "\n"@
        + "   Replicas   : "@ + decimal(i.replica_count as nat) + " stored on "@ + strings_debug(i.stored_on_devices@) + "\n"@
        + "   Shared With: "@ + strings_debug(i.shared_with_peers@) + "\n"@
        + "   Actions    : "@ + strings_debug(i.available_capabilities@) + "\n"@
        + match i.advanced_dag_info {
            Some(d) => "   \u{1F52C} DAG Info: Schema v"@ + decimal(d.schema_version as nat) + ", Created Epoch "@
                + decimal(d.created_epoch as nat) + ", CAS Chunks: "@ + decimal(d.cas_chunk_count as nat) + "\n"@,
            None => Seq::empty(),
        }
}

/// The whole screen: header, tab view, the drawer if an object is inspected, and
/// the closing rule.
pub open spec fn screen_text(s: DesktopAppSession, v: TabView, drawer: Option<UniversalObjectInspector>) -> Seq<char> {
    header_text(s) + tab_text(v) + match drawer { Some(i) => drawer_text(i), None => Seq::empty() } + "================================================================================\n"@
}

fn feed_text(items: &Vec<FeedItem>) -> (r: String)
    ensures
        r@ == feed_lines(items@),
{
    let mut out = String::new();
    let mut i: usize = 0;
    while i < items.len()
        invariant
            i <= items@.len(),
            out@ == feed_lines(items@.take(i as int)),
        decreases items@.len() - i,
    {
        proof {
            assert(items@.take(i + 1).drop_last() =~= items@.take(i as int));
        }
        let it = &items[i];
        let n = decimal_text((i + 1) as u64);
        out = cat(cat(cat(cat(cat(cat(cat(out, "   ["), n.as_str()), "] "), it.title.as_str()), " ("),
            it.status_badge.as_str()), ")\n");
        proof {
            assert(out@ =~= feed_lines(items@.take(i + 1)));
        }
        i = i + 1;
    }
    assert(items@.take(items@.len() as int) =~= items@);
    out
}

fn lens_rows_text(rows: &Vec<LensRow>) -> (r: String)
    ensures
        r@ == lens_lines(rows@),
{
    let mut out = String::new();
    let mut i: usize = 0;
    while i < rows.len()
        invariant
            i <= rows@.len(),
            out@ == lens_lines(rows@.take(i as int)),
        decreases rows@.len() - i,
    {
        proof {
            assert(rows@.take(i + 1).drop_last() =~= rows@.take(i as int));
        }
        let it = &rows[i];
        out = cat(cat(cat(cat(cat(cat(cat(out, "   \u{2022} "), it.name.as_str()), " ["), it.byte_size_formatted.as_str()),
            "] \u{2014} "), it.status_badge.as_str()), "\n");
        proof {
            assert(out@ =~= lens_lines(rows@.take(i + 1)));
        }
        i = i + 1;
    }
    assert(rows@.take(rows@.len() as int) =~= rows@);
    out
}

fn actions_text(items: &Vec<String>) -> (r: String)
    ensures
        r@ == action_lines(items@),
{
    let mut out = String::new();
    let mut i: usize = 0;
    while i < items.len()
        invariant
            i <= items@.len(),
            out@ == action_lines(items@.take(i as int)),
        decreases items@.len() - i,
    {
        proof {
            assert(items@.take(i + 1).drop_last() =~= items@.take(i as int));
        }
        out = cat(cat(cat(out, "     [ "), items[i].as_str()), " ]");
        proof {
            assert(out@ =~= action_lines(items@.take(i + 1)));
        }
        i = i + 1;
    }
    assert(items@.take(items@.len() as int) =~= items@);
    out
}

fn settings_text(items: &Vec<SettingItem>) -> (r: String)
    ensures
        r@ == setting_lines(items@),
{
    let mut out = String::new();
    let mut i: usize = 0;
    while i < items.len()
        invariant
            i <= items@.len(),
            out@ == setting_lines(items@.take(i as int)),
        decreases items@.len() - i,
    {
        proof {
            assert(items@.take(i + 1).drop_last() =~= items@.take(i as int));
        }
        let it = &items[i];
        out = cat(cat(cat(cat(cat(cat(cat(out, "     \u{2022} "), it.title.as_str()), ": "), it.current_value.as_str()), " ("),
            it.explanation.as_str()), ")\n");
        proof {
            assert(out@ =~= setting_lines(items@.take(i + 1)));
        }
        i = i + 1;
    }
    assert(items@.take(items@.len() as int) =~= items@);
    out
}

fn lens_screen_text(l: &LensScreen, heading: &str, total_label: &str, empty: &str) -> (r: String)
    ensures
        r@ == lens_text(*l, heading@, total_label@, empty@),
{
    let mut out = cat(cat(heading.to_string(), l.active_space.name()), " Space\n");
    out = cat(cat(cat(out, total_label), decimal_text(l.total as u64).as_str()), "\n");
    out = cat(cat(cat(out, "   Storage Used : "), l.storage_used_label.as_str()), "\n\n");
    if l.rows.len() == 0 {
        out = cat(out, empty);
    } else {
        out = cat(out, lens_rows_text(&l.rows).as_str());
    }
    out
}

fn tab_view_text(v: &TabView) -> (r: String)
    ensures
        r@ == tab_text(*v),
{
    match v {
        TabView::Home(h) => {
            let mut out = cat(cat("\u{1F3E0} HOME \u{2014} ".to_string(), h.space_title.as_str()), "\n");
            out = cat(cat(cat(out, "   Sync Status : "), h.sync_status_label.as_str()), "\n");
            out = cat(cat(cat(out, "   Protection  : "), h.identity_protection_label.as_str()), "\n");
            out = cat(cat(cat(out, "   Total Items : "), decimal_text(h.total_items_in_space as u64).as_str()), "\n\n");
            out = cat(out, "   Recent Feed:\n");
            if h.feed_items.len() == 0 {
                out = cat(out, "   (No items in this Space yet. Import photos or files to begin.)\n");
            } else {
                out = cat(out, feed_text(&h.feed_items).as_str());
            }
            out
        }
        TabView::Photos(l) => lens_screen_text(l, "\u{1F4F7} PHOTOS LENS \u{2014} ", "   Total Photos : ",
            "   (No photos in this Space. Use file import to add photos.)\n"),
        TabView::Drive(l) => lens_screen_text(l, "\u{1F4C1} DRIVE LENS \u{2014} ", "   Total Files  : ",
            "   (No documents in this Space. Use file import to add files.)\n"),
        TabView::People(p) => {
            let mut out = cat(cat("\u{1F464} PERSON PANEL \u{2014} ".to_string(), p.display_name.as_str()), "\n");
            out = cat(cat(cat(out, "   Trust State : "), p.trust_badge.as_str()), "\n");
            out = cat(cat(cat(out, "   Connection  : "), p.connection_type_label.as_str()), "\n");
            out = cat(cat(cat(out, "   Shared Items: "), decimal_text(p.shared_objects_count as u64).as_str()), " objects\n");
            out = cat(cat(cat(out, "   Quick Actions:\n"), actions_text(&p.quick_actions).as_str()), "\n");
            match &p.technical_identity_info {
                Some(t) => {
                    out = cat(cat(cat(out, "\n   \u{1F52C} Advanced Identity: "), t.as_str()), "\n");
                }
                None => {}
            }
            out
        }
        TabView::Devices(d) => {
            let mut out = cat(cat("\u{1F4F1} DEVICE PANEL \u{2014} ".to_string(), d.device_name.as_str()), "\n");
            out = cat(cat(cat(out, "   Status      : "), d.connection_badge.as_str()), "\n");
            out = cat(cat(cat(out, "   Transport   : "), d.transport_type_label.as_str()), "\n");
            out = cat(cat(cat(out, "   Latency     : "), decimal_text(d.latency_ms as u64).as_str()), " ms\n");
            out = cat(cat(cat(out, "   Storage     : "), d.storage_quota_label.as_str()), "\n");
            out = cat(cat(cat(out, "   Protection  : "), d.key_protection_status.as_str()), "\n");
            match &d.technical_device_info {
                Some(t) => {
                    out = cat(cat(cat(out, "\n   \u{1F52C} Diagnostics: "), t.as_str()), "\n");
                }
                None => {}
            }
            out
        }
        TabView::Settings(t) => {
            let mut out = "\u{2699}\u{FE0F} SETTINGS & EXPERIENCE SLIDER\n".to_string();
            out = cat(cat(cat(out, "   Active Slider: "), t.active_complexity_slider.name()), "\n\n");
            out = cat(cat(out, "   User & Identity:\n"), settings_text(&t.user_section).as_str());
            out = cat(cat(out, "\n   Your NEX System:\n"), settings_text(&t.your_nex_section).as_str());
            match &t.advanced_section {
                Some(a) => {
                    out = cat(cat(out, "\n   \u{1F52C} Cryptographic & Storage Diagnostics:\n"), settings_text(a).as_str());
                }
                None => {}
            }
            out
        }
    }
}

fn drawer(i: &UniversalObjectInspector) -> (r: String)
    ensures
        r@ == drawer_text(*i),
{
    let mut out = cat(cat(cat("\n--------------------------------------------------------------------------------\n".to_string(), "\u{1F50D} UNIVERSAL OBJECT INSPECTOR \u{2014} "), i.title.as_str()), "\n");
    out = cat(cat(cat(cat(cat(cat(cat(out, "   Type       : "), object_type_text(i.object_type).as_str()), "  |  Space: "),
        i.space_name.as_str()), "  |  Size: "), i.byte_size_formatted.as_str()), "\n");
    out = cat(cat(cat(out, "   Status     : "), i.status_badge.as_str()), "\n");
    out = cat(cat(cat(cat(cat(out, "   Replicas   : "), decimal_text(i.replica_count as u64).as_str()), " stored on "),
        strings_debug_text(&i.stored_on_devices).as_str()), "\n");
    out = cat(cat(cat(out, "   Shared With: "), strings_debug_text(&i.shared_with_peers).as_str()), "\n");
    out = cat(cat(cat(out, "   Actions    : "), strings_debug_text(&i.available_capabilities).as_str()), "\n");
    match &i.advanced_dag_info {
        Some(d) => {
            out = cat(cat(cat(cat(cat(cat(cat(out, "   \u{1F52C} DAG Info: Schema v"), decimal_text(d.schema_version as u64).as_str()),
                ", Created Epoch "), decimal_text(d.created_epoch).as_str()), ", CAS Chunks: "),
                decimal_text(d.cas_chunk_count as u64).as_str()), "\n");
        }
        None => {}
    }
    out
}

impl DesktopAppSession {
    /// The person the People tab shows: the selected one, else Amy.
    pub fn people_target(&self) -> (r: (ActorID, String))
        ensures
            match self.selected_person {
                Some((a, n)) => r.0 == a && r.1@ == n@,
                None => r.0@ == Seq::new(32, |i: int| 0xAAu8) && r.1@ == "Amy"@,
            },
    {
        match &self.selected_person {
            Some((a, n)) => (*a, n.as_str().to_string()),
            None => {
                let amy = [0xAAu8; 32];
                assert(amy@ =~= Seq::new(32, |i: int| 0xAAu8));
                (amy, "Amy".to_string())
            }
        }
    }

    /// The device the Devices tab shows: the selected one, else this station.
    pub fn device_target(&self, local_actor: &ActorID) -> (r: (ActorID, String))
        ensures
            match self.selected_device {
                Some((a, n)) => r.0 == a && r.1@ == n@,
                None => r.0 == *local_actor && r.1@ == "Chris's Desktop Station"@,
            },
    {
        match &self.selected_device {
            Some((a, n)) => (*a, n.as_str().to_string()),
            None => (*local_actor, "Chris's Desktop Station".to_string()),
        }
    }

    /// The screen as text: the header, `view` (the active tab's view model) and,
    /// when an object is selected and inspected, the inspector drawer.
    pub fn render_view_string(&self, view: &TabView, inspected: Option<&UniversalObjectInspector>) -> (r: String)
        ensures
            r@ == screen_text(*self, *view, match inspected { Some(i) => Some(*i), None => None }),
    {
        let mut out = cat(cat("================================================================================\n".to_string(), "  NEX DESKTOP  |  Space: "), self.active_space.name());
        out = cat(cat(cat(cat(cat(out, "  |  Level: "), self.complexity.name()), "  |  Status: "), self.status_message.as_str()), "\n");
        out = cat(cat(cat(out, "================================================================================\n"),
            "  [1] Home  |  [2] Photos  |  [3] Drive  |  [4] People  |  [5] Devices  |  [6] Settings\n"),
            "--------------------------------------------------------------------------------\n\n");
        out = cat(out, tab_view_text(view).as_str());
        match inspected {
            Some(i) => {
                out = cat(out, drawer(i).as_str());
            }
            None => {}
        }
        out = cat(out, "================================================================================\n");
        proof {
            assert(out@ =~= screen_text(*self, *view, match inspected { Some(i) => Some(*i), None => None }));
        }
        out
    }
}

} // verus!
