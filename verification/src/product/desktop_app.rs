//! The desktop session: which tab, space, level and selections are active.

use vstd::prelude::*;
use crate::object::types::ObjectID;
use crate::model::ActorID;
use crate::product::home::{SpaceType, InterfaceComplexity, space_name, complexity_name};

verus! {

#[derive(Debug, Clone, Copy, PartialEq, Eq, Structural)]
pub enum DesktopNavigationTab {
    Home,
    Photos,
    Drive,
    People,
    Devices,
    Settings,
}

#[derive(Debug)]
pub struct DesktopAppSession {
    pub active_tab: DesktopNavigationTab,
    pub active_space: SpaceType,
    pub complexity: InterfaceComplexity,
    pub selected_object_id: Option<ObjectID>,
    pub selected_person: Option<(ActorID, String)>,
    pub selected_device: Option<(ActorID, String)>,
    pub is_hardware_keystore_verified: bool,
    pub status_message: String,
}

impl DesktopAppSession {
    /// A session on the Home tab of the Family space at the Standard level, with
    /// nothing selected and the hardware keystore not verified.
    pub fn new() -> (r: Self)
        ensures
            r.active_tab == DesktopNavigationTab::Home,
            r.active_space == SpaceType::Family,
            r.complexity == InterfaceComplexity::Standard,
            r.selected_object_id is None,
            r.selected_person is None,
            r.selected_device is None,
            !r.is_hardware_keystore_verified,
            r.status_message@ == "NEX Desktop Ready"@,
    {
        DesktopAppSession {
            active_tab: DesktopNavigationTab::Home,
            active_space: SpaceType::Family,
            complexity: InterfaceComplexity::Standard,
            selected_object_id: None,
            selected_person: None,
            selected_device: None,
            is_hardware_keystore_verified: false,
            status_message: "NEX Desktop Ready".to_string(),
        }
    }

    pub fn select_tab(&mut self, tab: DesktopNavigationTab)
        ensures
            *final(self) == (DesktopAppSession { active_tab: tab, ..*old(self) }),
    {
        self.active_tab = tab;
    }

    /// Switches space, clearing the selected object.
    pub fn select_space(&mut self, space: SpaceType)
        ensures
            final(self).active_space == space,
            final(self).selected_object_id is None,
            final(self).status_message@ == "Switched to "@ + space_name(space) + " Space"@,
            final(self).active_tab == old(self).active_tab,
            final(self).complexity == old(self).complexity,
            final(self).selected_person == old(self).selected_person,
            final(self).selected_device == old(self).selected_device,
            final(self).is_hardware_keystore_verified == old(self).is_hardware_keystore_verified,
    {
        self.active_space = space;
        self.selected_object_id = None;
        let mut msg = "Switched to ".to_string();
        vstd::string::StringExecFns::append(&mut msg, space.name());
        vstd::string::StringExecFns::append(&mut msg, " Space");
        self.status_message = msg;
    }

    pub fn set_complexity_slider(&mut self, level: InterfaceComplexity)
        ensures
            final(self).complexity == level,
            final(self).status_message@ == "Interface Complexity: "@ + complexity_name(level),
            final(self).active_tab == old(self).active_tab,
            final(self).active_space == old(self).active_space,
            final(self).selected_object_id == old(self).selected_object_id,
            final(self).selected_person == old(self).selected_person,
            final(self).selected_device == old(self).selected_device,
            final(self).is_hardware_keystore_verified == old(self).is_hardware_keystore_verified,
    {
        self.complexity = level;
        let mut msg = "Interface Complexity: ".to_string();
        vstd::string::StringExecFns::append(&mut msg, level.name());
        self.status_message = msg;
    }

    pub fn inspect_object(&mut self, object_id: ObjectID)
        ensures
            *final(self) == (DesktopAppSession { selected_object_id: Some(object_id), ..*old(self) }),
    {
        self.selected_object_id = Some(object_id);
    }

    /// Opens a person on the People tab.
    pub fn open_person(&mut self, actor_id: ActorID, name: &str)
        ensures
            final(self).active_tab == DesktopNavigationTab::People,
            final(self).selected_person matches Some((a, n)) && a == actor_id && n@ == name@,
            final(self).active_space == old(self).active_space,
            final(self).complexity == old(self).complexity,
            final(self).selected_object_id == old(self).selected_object_id,
            final(self).selected_device == old(self).selected_device,
            final(self).status_message == old(self).status_message,
    {
        self.active_tab = DesktopNavigationTab::People;
        self.selected_person = Some((actor_id, name.to_string()));
    }

    /// Opens a device on the Devices tab.
    pub fn open_device(&mut self, actor_id: ActorID, name: &str)
        ensures
            final(self).active_tab == DesktopNavigationTab::Devices,
            final(self).selected_device matches Some((a, n)) && a == actor_id && n@ == name@,
            final(self).active_space == old(self).active_space,
            final(self).complexity == old(self).complexity,
            final(self).selected_object_id == old(self).selected_object_id,
            final(self).selected_person == old(self).selected_person,
            final(self).status_message == old(self).status_message,
    {
        self.active_tab = DesktopNavigationTab::Devices;
        self.selected_device = Some((actor_id, name.to_string()));
    }
}

} // verus!
