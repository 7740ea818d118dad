//! What the menu-bar icon and its menu show.
use vstd::prelude::*;

use crate::text::str_eq;

verus! {

pub const MENU_ID_TOGGLE: &'static str = "toggle_recording";
pub const MENU_ID_SETTINGS: &'static str = "settings";
pub const MENU_ID_ONBOARDING: &'static str = "onboarding";
pub const MENU_ID_QUIT: &'static str = "quit";

#[derive(Clone, Copy, PartialEq, Eq, Structural, Debug)]
pub enum TrayState {
    Idle,
    Recording,
    Saving,
    Transcribing,
    PermissionMissing,
}

#[derive(Clone, Copy, PartialEq, Eq, Structural, Debug)]
pub enum MeetingPlatform {
    GoogleMeet,
    Zoom,
    Teams,
    Unknown,
}

pub open spec fn platform_label(p: MeetingPlatform) -> Seq<char> {
    match p {
        MeetingPlatform::GoogleMeet => "Google Meet"@,
        MeetingPlatform::Zoom => "Zoom"@,
        MeetingPlatform::Teams => "Microsoft Teams"@,
        MeetingPlatform::Unknown => "meeting"@,
    }
}

impl MeetingPlatform {
    pub fn label(&self) -> (r: &'static str)
        ensures
            r@ == platform_label(*self),
    {
        match self {
            MeetingPlatform::GoogleMeet => "Google Meet",
            MeetingPlatform::Zoom => "Zoom",
            MeetingPlatform::Teams => "Microsoft Teams",
            MeetingPlatform::Unknown => "meeting",
        }
    }
}

pub open spec fn status_text_of(s: TrayState) -> Seq<char> {
    match s {
        TrayState::Idle => "Idle"@,
        TrayState::Recording => "Recording…"@,
        TrayState::Saving => "Saving recording…"@,
        TrayState::Transcribing => "Transcribing…"@,
        TrayState::PermissionMissing => "Permissions needed — open Settings"@,
    }
}

pub open spec fn tooltip_of(s: TrayState) -> Seq<char> {
    match s {
        TrayState::Idle => "Lord Varys — idle"@,
        TrayState::Recording => "Lord Varys — recording"@,
        TrayState::Saving => "Lord Varys — saving"@,
        TrayState::Transcribing => "Lord Varys — transcribing"@,
        TrayState::PermissionMissing => "Lord Varys — needs permissions"@,
    }
}

pub open spec fn toggle_label_of(s: TrayState) -> Seq<char> {
    match s {
        TrayState::Recording => "Stop Recording"@,
        TrayState::Saving => "Saving…"@,
        _ => "Start Recording"@,
    }
}

/// The icons the tray can show.
#[derive(Clone, Copy, PartialEq, Eq, Structural, Debug)]
pub enum TrayIcon {
    Idle,
    Recording,
    Transcribing,
    Badge,
}

/// The badge wins whenever setup is needed or a permission is missing;
/// otherwise recording and saving show the recording icon, transcribing
/// its own, and everything else the idle icon.
pub open spec fn icon_of(s: TrayState, setup_needed: bool) -> TrayIcon {
    if setup_needed {
        TrayIcon::Badge
    } else {
        match s {
            TrayState::PermissionMissing => TrayIcon::Badge,
            TrayState::Recording => TrayIcon::Recording,
            TrayState::Saving => TrayIcon::Recording,
            TrayState::Transcribing => TrayIcon::Transcribing,
            TrayState::Idle => TrayIcon::Idle,
        }
    }
}

impl TrayState {
    /// The status line at the top of the menu.
    pub fn status_text(&self) -> (r: &'static str)
        ensures
            r@ == status_text_of(*self),
    {
        match self {
            TrayState::Idle => "Idle",
            TrayState::Recording => "Recording…",
            TrayState::Saving => "Saving recording…",
            TrayState::Transcribing => "Transcribing…",
            TrayState::PermissionMissing => "Permissions needed — open Settings",
        }
    }

    pub fn tooltip(&self) -> (r: &'static str)
        ensures
            r@ == tooltip_of(*self),
    {
        match self {
            TrayState::Idle => "Lord Varys — idle",
            TrayState::Recording => "Lord Varys — recording",
            TrayState::Saving => "Lord Varys — saving",
            TrayState::Transcribing => "Lord Varys — transcribing",
            TrayState::PermissionMissing => "Lord Varys — needs permissions",
        }
    }

    /// The label of the start/stop menu item.
    pub fn toggle_label(&self) -> (r: &'static str)
        ensures
            r@ == toggle_label_of(*self),
    {
        match self {
            TrayState::Idle | TrayState::PermissionMissing | TrayState::Transcribing => {
                "Start Recording"
            },
            TrayState::Recording => "Stop Recording",
            TrayState::Saving => "Saving…",
        }
    }

    /// The start/stop item is disabled only while saving.
    pub fn toggle_enabled(&self) -> (r: bool)
        ensures
            r == (*self != TrayState::Saving),
    {
        !matches!(self, TrayState::Saving)
    }
}

/// Everything the tray shows for one state.
pub struct TrayAppearance {
    pub tooltip: &'static str,
    pub status_text: &'static str,
    pub toggle_label: &'static str,
    pub toggle_enabled: bool,
    pub icon: TrayIcon,
}

pub open spec fn appearance_matches(a: TrayAppearance, s: TrayState, setup_needed: bool) -> bool {
    &&& a.tooltip@ == tooltip_of(s)
    &&& a.status_text@ == status_text_of(s)
    &&& a.toggle_label@ == toggle_label_of(s)
    &&& a.toggle_enabled == (s != TrayState::Saving)
    &&& a.icon == icon_of(s, setup_needed)
}

/// The tray's state and whether setup is still needed; the icon follows
/// both.
pub struct TrayModel {
    state: TrayState,
    setup_needed: bool,
}

impl View for TrayModel {
    type V = (TrayState, bool);

    closed spec fn view(&self) -> (TrayState, bool) {
        (self.state, self.setup_needed)
    }
}

impl TrayModel {
    pub fn new() -> (r: Self)
        ensures
            r@ == (TrayState::Idle, false),
    {
        TrayModel { state: TrayState::Idle, setup_needed: false }
    }

    pub fn state(&self) -> (r: TrayState)
        ensures
            r == self@.0,
    {
        self.state
    }

    pub fn setup_needed(&self) -> (r: bool)
        ensures
            r == self@.1,
    {
        self.setup_needed
    }

    pub fn icon(&self) -> (r: TrayIcon)
        ensures
            r == icon_of(self@.0, self@.1),
    {
        if self.setup_needed {
            TrayIcon::Badge
        } else {
            match self.state {
                TrayState::PermissionMissing => TrayIcon::Badge,
                TrayState::Recording => TrayIcon::Recording,
                TrayState::Saving => TrayIcon::Recording,
                TrayState::Transcribing => TrayIcon::Transcribing,
                TrayState::Idle => TrayIcon::Idle,
            }
        }
    }

    /// Moves to `state` and says how the tray must look.
    pub fn set_state(&mut self, state: TrayState) -> (r: TrayAppearance)
        ensures
            final(self)@ == (state, old(self)@.1),
            appearance_matches(r, state, old(self)@.1),
    {
        self.state = state;
        TrayAppearance {
            tooltip: state.tooltip(),
            status_text: state.status_text(),
            toggle_label: state.toggle_label(),
            toggle_enabled: state.toggle_enabled(),
            icon: self.icon(),
        }
    }

    /// Records whether setup is needed; when that changes, returns the icon
    /// to show now (the menu is rebuilt too).
    pub fn set_setup_needed(&mut self, needed: bool) -> (r: Option<TrayIcon>)
        ensures
            final(self)@ == (old(self)@.0, needed),
            r == (if old(self)@.1 != needed {
                Some(icon_of(old(self)@.0, needed))
            } else {
                None
            }),
    {
        let prev = self.setup_needed;
        self.setup_needed = needed;
        if prev != needed {
            Some(self.icon())
        } else {
            None
        }
    }
}

/// An entry of the tray menu.
pub enum MenuEntry {
    Item { id: &'static str, label: &'static str, enabled: bool, accelerator: Option<&'static str> },
    Separator,
}

pub open spec fn item_is(
    e: MenuEntry,
    id: Seq<char>,
    label: Seq<char>,
    enabled: bool,
    accel: Option<Seq<char>>,
) -> bool {
    match e {
        MenuEntry::Item { id: i, label: l, enabled: en, accelerator: a } => {
            &&& i@ == id
            &&& l@ == label
            &&& en == enabled
            &&& match (a, accel) {
                (Some(x), Some(y)) => x@ == y,
                (None, None) => true,
                _ => false,
            }
        },
        MenuEntry::Separator => false,
    }
}

/// The tray menu: status line (disabled), start/stop, separator, settings,
/// the setup guide while setup is needed, separator, quit.
pub fn menu_entries(setup_needed: bool) -> (r: Vec<MenuEntry>)
    ensures
        r.len() == if setup_needed { 7usize } else { 6usize },
        item_is(r@[0], "status"@, "Idle"@, false, None),
        item_is(r@[1], MENU_ID_TOGGLE@, "Start Recording"@, true, None),
        r@[2] is Separator,
        item_is(r@[3], MENU_ID_SETTINGS@, "Settings…"@, true, None),
        setup_needed ==> item_is(r@[4], MENU_ID_ONBOARDING@, "🔴  Setup Guide…"@, true, None),
        r@[r.len() - 2] is Separator,
        item_is(r@[r.len() - 1], MENU_ID_QUIT@, "Quit Lord Varys"@, true, Some("Cmd+Q"@)),
{
    let mut v: Vec<MenuEntry> = Vec::new();
    v.push(
        MenuEntry::Item {
            id: "status",
            label: TrayState::Idle.status_text(),
            enabled: false,
            accelerator: None,
        },
    );
    v.push(
        MenuEntry::Item {
            id: MENU_ID_TOGGLE,
            label: "Start Recording",
            enabled: true,
            accelerator: None,
        },
    );
    v.push(MenuEntry::Separator);
    v.push(
        MenuEntry::Item { id: MENU_ID_SETTINGS, label: "Settings…", enabled: true, accelerator: None },
    );
    if setup_needed {
        v.push(
            MenuEntry::Item {
                id: MENU_ID_ONBOARDING,
                label: "🔴  Setup Guide…",
                enabled: true,
                accelerator: None,
            },
        );
    }
    v.push(MenuEntry::Separator);
    v.push(
        MenuEntry::Item {
            id: MENU_ID_QUIT,
            label: "Quit Lord Varys",
            enabled: true,
            accelerator: Some("Cmd+Q"),
        },
    );
    v
}

/// What a click on a menu item asks for.
#[derive(Clone, Copy, PartialEq, Eq, Structural, Debug)]
pub enum MenuAction {
    Quit,
    OpenSettings,
    OpenOnboarding,
    ToggleRecording,
    Nothing,
}

pub open spec fn menu_action_of(id: Seq<char>) -> MenuAction {
    if id == MENU_ID_QUIT@ {
        MenuAction::Quit
    } else if id == MENU_ID_SETTINGS@ {
        MenuAction::OpenSettings
    } else if id == MENU_ID_ONBOARDING@ {
        MenuAction::OpenOnboarding
    } else if id == MENU_ID_TOGGLE@ {
        MenuAction::ToggleRecording
    } else {
        MenuAction::Nothing
    }
}

pub fn menu_action(id: &str) -> (r: MenuAction)
    ensures
        r == menu_action_of(id@),
{
    if str_eq(id, MENU_ID_QUIT) {
        MenuAction::Quit
    } else if str_eq(id, MENU_ID_SETTINGS) {
        MenuAction::OpenSettings
    } else if str_eq(id, MENU_ID_ONBOARDING) {
        MenuAction::OpenOnboarding
    } else if str_eq(id, MENU_ID_TOGGLE) {
        MenuAction::ToggleRecording
    } else {
        MenuAction::Nothing
    }
}

/// One tick of the watcher that colours the tray while a transcription
/// runs: recording always wins (and resets the watcher); otherwise the tray
/// turns to `Transcribing` when a job starts and back to `Idle` when it
/// ends. Returns the state to show, if it changes, and the new
/// "was active" flag.
pub fn transcription_tray_tick(recording: bool, active: bool, was_active: bool) -> (r: (
    Option<TrayState>,
    bool,
))
    ensures
        recording ==> r == (None::<TrayState>, false),
        !recording && active && !was_active ==> r == (Some(TrayState::Transcribing), true),
        !recording && !active && was_active ==> r == (Some(TrayState::Idle), false),
        !recording && active == was_active ==> r == (None::<TrayState>, was_active),
{
    if recording {
        (None, false)
    } else if active && !was_active {
        (Some(TrayState::Transcribing), true)
    } else if !active && was_active {
        (Some(TrayState::Idle), false)
    } else {
        (None, was_active)
    }
}

/// One tick of the setup watcher: when completeness changes, the badge is
/// set to whether setup is still needed.
pub fn setup_watch_tick(prev_complete: bool, complete: bool) -> (r: Option<bool>)
    ensures
        r == (if complete != prev_complete { Some(!complete) } else { None }),
{
    if complete != prev_complete {
        Some(!complete)
    } else {
        None
    }
}

/// Only an explicit exit (with a code, from the Quit item) ends the app;
/// closing its last window does not.
pub fn should_prevent_exit(code: Option<i32>) -> (r: bool)
    ensures
        r == code.is_none(),
{
    code.is_none()
}

} // verus!
