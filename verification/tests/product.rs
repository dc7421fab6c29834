use nex_core::product::desktop_app::{DesktopAppSession, DesktopNavigationTab};
use nex_core::product::home::{InterfaceComplexity, NexHomeController, SpaceType};
use nex_core::product::inspector::EpistemicStatus;
use nex_core::product::settings::SettingsController;

#[test]
fn session_navigation() {
    let mut s = DesktopAppSession::new();
    assert_eq!(s.active_tab, DesktopNavigationTab::Home);
    assert_eq!(s.active_space, SpaceType::Family);
    assert_eq!(s.status_message, "NEX Desktop Ready");
    s.inspect_object([1u8; 32]);
    s.select_space(SpaceType::Work);
    assert_eq!(s.selected_object_id, None);
    assert_eq!(s.status_message, "Switched to Work Space");
    s.set_complexity_slider(InterfaceComplexity::Expert);
    assert_eq!(s.status_message, "Interface Complexity: Expert");
    s.open_person([2u8; 32], "Amy");
    assert_eq!(s.active_tab, DesktopNavigationTab::People);
    assert_eq!(s.selected_person, Some(([2u8; 32], "Amy".to_string())));
    s.open_device([3u8; 32], "Pixel");
    assert_eq!(s.active_tab, DesktopNavigationTab::Devices);
    s.select_tab(DesktopNavigationTab::Settings);
    assert_eq!(s.active_tab, DesktopNavigationTab::Settings);
}

#[test]
fn spaces_and_statuses() {
    assert_eq!(NexHomeController::list_available_spaces(),
        vec![SpaceType::Personal, SpaceType::Family, SpaceType::Work, SpaceType::Community, SpaceType::Project]);
    assert_eq!(EpistemicStatus::ExpectedHistorical.label(), "Expected / Historical");
    assert_eq!(EpistemicStatus::VerifiedFact.symbol(), "\u{2713}");
    assert_eq!(EpistemicStatus::VerificationFailed.symbol(), "\u{26A0}");
}

#[test]
fn settings_show_diagnostics_only_when_advanced() {
    let simple = SettingsController::build_settings_tree(InterfaceComplexity::Simple);
    assert!(simple.advanced_section.is_none());
    assert_eq!(simple.user_section[1].current_value, "3-of-5 Shamir Social Recovery Active");
    assert_eq!(simple.your_nex_section.len(), 3);
    let adv = SettingsController::build_settings_tree(InterfaceComplexity::Advanced);
    let diag = adv.advanced_section.unwrap();
    assert_eq!(diag[1].key, "wal");
    assert_eq!(adv.active_complexity_slider, InterfaceComplexity::Advanced);
}
