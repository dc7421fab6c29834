//! The settings screen: what each setting is, its current value and its consequence.

use vstd::prelude::*;
use crate::product::home::InterfaceComplexity;

verus! {

#[derive(Debug)]
pub struct SettingItem {
    pub key: String,
    pub title: String,
    pub current_value: String,
    pub explanation: String,
}

#[derive(Debug)]
pub struct SettingsConsequenceTree {
    pub active_complexity_slider: InterfaceComplexity,
    pub user_section: Vec<SettingItem>,
    pub your_nex_section: Vec<SettingItem>,
    pub applications_section: Vec<SettingItem>,
    pub system_section: Vec<SettingItem>,
    pub advanced_section: Option<Vec<SettingItem>>,
}

/// Whether a setting holds these texts.
pub open spec fn item_is(it: SettingItem, key: Seq<char>, title: Seq<char>, value: Seq<char>, explanation: Seq<char>) -> bool {
    it.key@ == key && it.title@ == title && it.current_value@ == value && it.explanation@ == explanation
}

fn item(key: &str, title: &str, value: &str, explanation: &str) -> (r: SettingItem)
    ensures
        item_is(r, key@, title@, value@, explanation@),
{
    SettingItem {
        key: key.to_string(),
        title: title.to_string(),
        current_value: value.to_string(),
        explanation: explanation.to_string(),
    }
}

pub struct SettingsController;

impl SettingsController {
    /// The settings tree at a given interface level; the diagnostics section is
    /// present only at the Advanced and Expert levels.
    pub fn build_settings_tree(complexity: InterfaceComplexity) -> (r: SettingsConsequenceTree)
        ensures
            r.active_complexity_slider == complexity,
            r.user_section@.len() == 2,
            item_is(r.user_section@[0], "profile"@, "You & Profile"@, "Chris"@, "Your sovereign root profile name"@),
            item_is(r.user_section@[1], "security"@, "Security & Recovery"@, "3-of-5 Shamir Social Recovery Active"@,
                "Key guardianship and emergency restore settings"@),
            r.your_nex_section@.len() == 3,
            item_is(r.your_nex_section@[0], "spaces"@, "Spaces"@, "5 active (Personal, Family, Work, Community, Project)"@,
                "Human context boundaries"@),
            item_is(r.your_nex_section@[1], "devices"@, "Devices"@, "3 paired hardware devices"@,
                "KeyStore hardware-backed hosts under your identity"@),
            item_is(r.your_nex_section@[2], "sync"@, "Synchronization"@, "Local Mesh + Opaque Store-and-Forward Relay"@,
                "Anti-entropy replication rules"@),
            r.applications_section@.len() == 2,
            item_is(r.applications_section@[0], "photos"@, "Photos Lens"@, "Auto-organize by Space"@,
                "Display rules for sovereign media"@),
            item_is(r.applications_section@[1], "drive"@, "Drive Lens"@, "FastCDC Deduplication Active"@,
                "Content-addressed storage and folder view"@),
            r.system_section@.len() == 1,
            item_is(r.system_section@[0], "notifications"@, "Activity & Notifications"@, "Calm / Low Noise"@,
                "Alerts for shared items and device connections"@),
            r.advanced_section is Some <==> complexity.shows_internals(),
            r.advanced_section matches Some(adv) ==> {
                &&& adv@.len() == 2
                &&& item_is(adv@[0], "smt"@, "SMT State Root Inspector"@, "Verified 256-bit Sparse Merkle Tree"@,
                    "Cryptographic state proofs and frontier logs"@)
                &&& item_is(adv@[1], "wal"@, "Write-Ahead Log"@, "NEX/WAL/v1 Append-Only Store"@,
                    "Crash resilience and mutation journal"@)
            },
    {
        let mut user_sec: Vec<SettingItem> = Vec::new();
        user_sec.push(item("profile", "You & Profile", "Chris", "Your sovereign root profile name"));
        user_sec.push(item("security", "Security & Recovery", "3-of-5 Shamir Social Recovery Active",
            "Key guardianship and emergency restore settings"));
        let mut your_nex_sec: Vec<SettingItem> = Vec::new();
        your_nex_sec.push(item("spaces", "Spaces", "5 active (Personal, Family, Work, Community, Project)",
            "Human context boundaries"));
        your_nex_sec.push(item("devices", "Devices", "3 paired hardware devices",
            "KeyStore hardware-backed hosts under your identity"));
        your_nex_sec.push(item("sync", "Synchronization", "Local Mesh + Opaque Store-and-Forward Relay",
            "Anti-entropy replication rules"));
        let mut apps_sec: Vec<SettingItem> = Vec::new();
        apps_sec.push(item("photos", "Photos Lens", "Auto-organize by Space", "Display rules for sovereign media"));
        apps_sec.push(item("drive", "Drive Lens", "FastCDC Deduplication Active", "Content-addressed storage and folder view"));
        let mut system_sec: Vec<SettingItem> = Vec::new();
        system_sec.push(item("notifications", "Activity & Notifications", "Calm / Low Noise",
            "Alerts for shared items and device connections"));
        let adv_sec = match complexity {
            InterfaceComplexity::Advanced | InterfaceComplexity::Expert => {
                let mut adv: Vec<SettingItem> = Vec::new();
                adv.push(item("smt", "SMT State Root Inspector", "Verified 256-bit Sparse Merkle Tree",
                    "Cryptographic state proofs and frontier logs"));
                adv.push(item("wal", "Write-Ahead Log", "NEX/WAL/v1 Append-Only Store", "Crash resilience and mutation journal"));
                Some(adv)
            }
            _ => None,
        };
        SettingsConsequenceTree {
            active_complexity_slider: complexity,
            user_section: user_sec,
            your_nex_section: your_nex_sec,
            applications_section: apps_sec,
            system_section: system_sec,
            advanced_section: adv_sec,
        }
    }
}

} // verus!
