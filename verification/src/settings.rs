//! Settings, and what follows when they are saved.
use vstd::prelude::*;
use crate::chat_view::ChatStyle;
use crate::digits::{decimal, push_decimal};
use crate::message::{opt_text, RetentionPolicy};
use crate::text::same_text;

verus! {

/// The name that stands for the system's own device.
pub const DEFAULT_DEVICE: &'static str = "<default>";

/// How well sound is sent.
#[derive(Clone, Copy, Debug, PartialEq, Eq, Structural)]
pub enum AudioQuality {
    Low,
    Medium,
    High,
    Ultra,
}

/// The devices and the processing of sound.
#[derive(Debug)]
pub struct UiAudioConfig {
    pub selected_input: String,
    pub selected_output: String,
    pub processing_enabled: bool,
    pub noise_suppression_enabled: bool,
    pub quality: AudioQuality,
}

impl Default for UiAudioConfig {
    /// The system's own devices, with all processing. Which quality is chosen at first is left
    /// open.
    fn default() -> (c: Self)
        ensures
            c.selected_input@ == DEFAULT_DEVICE@,
            c.selected_output@ == DEFAULT_DEVICE@,
            c.processing_enabled,
            c.noise_suppression_enabled,
    {
        UiAudioConfig {
            selected_input: DEFAULT_DEVICE.to_owned(),
            selected_output: DEFAULT_DEVICE.to_owned(),
            processing_enabled: true,
            noise_suppression_enabled: true,
            quality: AudioQuality::High,
        }
    }
}

/// What the service is told of devices: none for the system's own.
#[derive(Debug)]
pub struct AudioConfig {
    pub input_device: Option<String>,
    pub output_device: Option<String>,
    pub processing_enabled: bool,
    pub noise_suppression_enabled: bool,
    pub quality: AudioQuality,
}

/// A device by its name; none for the system's own.
pub open spec fn device_of(name: Seq<char>) -> Option<Seq<char>> {
    if name == DEFAULT_DEVICE@ {
        None
    } else {
        Some(name)
    }
}

fn pick_device(name: &String) -> (r: Option<String>)
    ensures
        opt_text(r) == device_of(name@),
{
    if same_text(name.as_str(), DEFAULT_DEVICE) {
        None
    } else {
        Some(name.clone())
    }
}

impl UiAudioConfig {
    /// What the service is told of these devices.
    pub fn audio_config(&self) -> (c: AudioConfig)
        ensures
            opt_text(c.input_device) == device_of(self.selected_input@),
            opt_text(c.output_device) == device_of(self.selected_output@),
            c.processing_enabled == self.processing_enabled,
            c.noise_suppression_enabled == self.noise_suppression_enabled,
            c.quality == self.quality,
    {
        AudioConfig {
            input_device: pick_device(&self.selected_input),
            output_device: pick_device(&self.selected_output),
            processing_enabled: self.processing_enabled,
            noise_suppression_enabled: self.noise_suppression_enabled,
            quality: self.quality,
        }
    }
}

/// How a device is shown.
pub fn device_label(name: &str) -> (s: String)
    ensures
        s@ == if name@ == DEFAULT_DEVICE@ {
            "System default"@
        } else {
            name@
        },
{
    if same_text(name, DEFAULT_DEVICE) {
        "System default".to_owned()
    } else {
        name.to_owned()
    }
}

/// The settings that rule what the library decides.
#[derive(Debug)]
pub struct Settings {
    pub audio: UiAudioConfig,
    pub configured: bool,
    pub chat_retention: RetentionPolicy,
    pub chat_style: ChatStyle,
    pub max_image_bytes: Option<u64>,
    pub start_with_system: bool,
    pub show_system_usage: bool,
    pub share_system_audio: bool,
}

impl Default for Settings {
    fn default() -> (s: Self)
        ensures
            s.audio.selected_input@ == DEFAULT_DEVICE@,
            s.audio.selected_output@ == DEFAULT_DEVICE@,
            s.audio.processing_enabled,
            s.audio.noise_suppression_enabled,
            !s.configured,
            s.chat_retention == RetentionPolicy::Unlimited,
            s.chat_style == ChatStyle::Bubbles,
            s.max_image_bytes is None,
            !s.start_with_system,
            !s.show_system_usage,
            s.share_system_audio,
    {
        Settings {
            audio: UiAudioConfig::default(),
            configured: false,
            chat_retention: RetentionPolicy::Unlimited,
            chat_style: ChatStyle::default(),
            max_image_bytes: None,
            start_with_system: false,
            show_system_usage: false,
            share_system_audio: true,
        }
    }
}

/// A step that carries settings out.
#[derive(Clone, Copy, Debug, PartialEq, Eq, Structural)]
pub enum SetupStep {
    SetAudio,
    SetVideo,
    SetMaxImageBytes(Option<u64>),
    SetChatRetention(RetentionPolicy),
    SetFriends,
    /// Store everything but the start with the system.
    Persist,
    /// Have the system start the program, or no longer; stored once that has worked.
    UpdateAutostart(bool),
}

/// What the first look at the settings gives.
#[derive(Clone, Copy, Debug, PartialEq, Eq, Structural)]
pub struct Startup {
    pub configured: bool,
    pub show_settings: bool,
}

/// Whether the settings were made before: they are stored so, or this is a development call.
pub fn startup(stored_configured: Option<bool>, dev_fixture: bool) -> (r: Startup)
    ensures
        r.configured == (stored_configured == Some(true) || dev_fixture),
        r.show_settings == !r.configured,
{
    let stored = match stored_configured {
        Some(configured) => configured,
        None => false,
    };
    let configured = stored || dev_fixture;
    Startup { configured, show_settings: !configured }
}

/// What the service is told at the start. Devices are left alone until they were chosen.
pub fn startup_steps(
    configured: bool,
    max_image_bytes: Option<u64>,
    chat_retention: RetentionPolicy,
) -> (steps: Vec<SetupStep>)
    ensures
        steps@ == (if configured {
            seq![SetupStep::SetAudio, SetupStep::SetVideo]
        } else {
            Seq::empty()
        }) + seq![
            SetupStep::SetMaxImageBytes(max_image_bytes),
            SetupStep::SetChatRetention(chat_retention),
            SetupStep::SetFriends,
        ],
{
    let mut steps: Vec<SetupStep> = Vec::new();
    if configured {
        steps.push(SetupStep::SetAudio);
        steps.push(SetupStep::SetVideo);
    }
    steps.push(SetupStep::SetMaxImageBytes(max_image_bytes));
    steps.push(SetupStep::SetChatRetention(chat_retention));
    steps.push(SetupStep::SetFriends);
    assert(steps@ =~= (if configured {
        seq![SetupStep::SetAudio, SetupStep::SetVideo]
    } else {
        Seq::empty()
    }) + seq![
        SetupStep::SetMaxImageBytes(max_image_bytes),
        SetupStep::SetChatRetention(chat_retention),
        SetupStep::SetFriends,
    ]);
    steps
}

/// The dialog of the settings.
#[derive(Clone, Copy, Debug, PartialEq, Eq, Structural)]
pub struct SettingsDialog {
    /// Whether the settings were made.
    pub configured: bool,
    pub shown: bool,
}

impl SettingsDialog {
    /// Saves the settings and closes the dialog; gives what is to be done, in this order.
    pub fn save(&mut self, settings: &Settings) -> (steps: Vec<SetupStep>)
        ensures
            final(self).configured,
            !final(self).shown,
            steps@ == seq![
                SetupStep::SetAudio,
                SetupStep::SetVideo,
                SetupStep::SetMaxImageBytes(settings.max_image_bytes),
                SetupStep::SetChatRetention(settings.chat_retention),
                SetupStep::Persist,
                SetupStep::UpdateAutostart(settings.start_with_system),
            ],
    {
        let mut steps: Vec<SetupStep> = Vec::new();
        steps.push(SetupStep::SetAudio);
        steps.push(SetupStep::SetVideo);
        steps.push(SetupStep::SetMaxImageBytes(settings.max_image_bytes));
        steps.push(SetupStep::SetChatRetention(settings.chat_retention));
        steps.push(SetupStep::Persist);
        steps.push(SetupStep::UpdateAutostart(settings.start_with_system));
        self.configured = true;
        self.shown = false;
        assert(steps@ =~= seq![
            SetupStep::SetAudio,
            SetupStep::SetVideo,
            SetupStep::SetMaxImageBytes(settings.max_image_bytes),
            SetupStep::SetChatRetention(settings.chat_retention),
            SetupStep::Persist,
            SetupStep::UpdateAutostart(settings.start_with_system),
        ]);
        steps
    }

    /// Closes the dialog without saving, which is possible only once the settings were made.
    pub fn close(&mut self)
        ensures
            final(self).configured == old(self).configured,
            final(self).shown == (old(self).shown && !old(self).configured),
    {
        if self.configured {
            self.shown = false;
        }
    }
}

/// The settings as they are stored: they were made, and the program starts with the system as the
/// system has last confirmed.
pub fn persisted(settings: Settings, start: StartWithSystem) -> (r: Settings)
    ensures
        r == (Settings { configured: true, start_with_system: start.stored, ..settings }),
{
    let mut stored = settings;
    stored.configured = true;
    stored.start_with_system = start.stored;
    stored
}

/// The corners of the window.
#[derive(Clone, Copy, Debug, PartialEq, Eq, Structural)]
pub enum WindowFrameStyle {
    Auto,
    Rounded,
    Square,
}

/// What the settings say of the corners of the window. `windows_11` says, on Windows, whether the
/// system is at least Windows 11.
pub fn frame_detail(style: WindowFrameStyle, windows_11: Option<bool>) -> (s: &'static str)
    ensures
        s@ == match style {
            WindowFrameStyle::Auto => match windows_11 {
                Some(true) => "Rounded on this PC (Windows 11+)"@,
                Some(false) => "Square on this PC (before Windows 11)"@,
                None => "Square on this platform"@,
            },
            WindowFrameStyle::Rounded => "Always rounded"@,
            WindowFrameStyle::Square => "Always square"@,
        },
{
    match style {
        WindowFrameStyle::Auto => match windows_11 {
            Some(rounded) => if rounded {
                "Rounded on this PC (Windows 11+)"
            } else {
                "Square on this PC (before Windows 11)"
            },
            None => "Square on this platform",
        },
        WindowFrameStyle::Rounded => "Always rounded",
        WindowFrameStyle::Square => "Always square",
    }
}

/// What the settings say of the size and the rate of a shared screen.
pub fn resolution_detail(width: u32, height: u32, framerate: u32) -> (s: String)
    ensures
        s@ == decimal(width as nat) + "×"@ + decimal(height as nat) + " @ "@ + decimal(
            framerate as nat,
        ) + " fps"@,
{
    let mut s: String = String::new();
    assert(s@ =~= Seq::empty());
    push_decimal(&mut s, width as u64);
    assert(s@ =~= decimal(width as nat));
    s.append("×");
    push_decimal(&mut s, height as u64);
    s.append(" @ ");
    push_decimal(&mut s, framerate as u64);
    s.append(" fps");
    s
}

/// What the settings say of the bandwidth of a shared screen.
pub fn bitrate_detail(bits_per_second: u64) -> (s: String)
    ensures
        s@ == decimal((bits_per_second / 1_000_000) as nat) + " Mbps effective"@,
{
    let mut s: String = String::new();
    push_decimal(&mut s, bits_per_second / 1_000_000);
    assert(s@ =~= decimal((bits_per_second / 1_000_000) as nat));
    s.append(" Mbps effective");
    s
}

/// The choices for how long messages are kept.
pub fn retention_choices() -> (choices: Vec<RetentionPolicy>)
    ensures
        choices@ == seq![
            RetentionPolicy::Unlimited,
            RetentionPolicy::Days(7),
            RetentionPolicy::Days(30),
            RetentionPolicy::Days(90),
        ],
{
    let mut choices: Vec<RetentionPolicy> = Vec::new();
    choices.push(RetentionPolicy::Unlimited);
    choices.push(RetentionPolicy::Days(7));
    choices.push(RetentionPolicy::Days(30));
    choices.push(RetentionPolicy::Days(90));
    assert(choices@ =~= seq![
        RetentionPolicy::Unlimited,
        RetentionPolicy::Days(7),
        RetentionPolicy::Days(30),
        RetentionPolicy::Days(90),
    ]);
    choices
}

/// The choices for the largest image, in megabytes; the last one sets no limit.
pub open spec fn image_megabytes() -> Seq<u64> {
    seq![1, 5, 10, 25, 50, 100, 250, 500, 1024]
}

/// The choices for the largest image.
pub fn image_limit_choices() -> (choices: Vec<Option<u64>>)
    ensures
        choices@.len() == 10,
        forall|i: int|
            0 <= i < 9 ==> #[trigger] choices@[i] == Some((image_megabytes()[i] * 0x10_0000) as u64),
        choices@[9] is None,
{
    let sizes: [u64; 9] = [1, 5, 10, 25, 50, 100, 250, 500, 1024];
    let mut choices: Vec<Option<u64>> = Vec::new();
    let mut i: usize = 0;
    while i < 9
        invariant
            0 <= i <= 9,
            sizes@ == image_megabytes(),
            choices@.len() == i,
            forall|j: int|
                0 <= j < i ==> #[trigger] choices@[j] == Some(
                    (image_megabytes()[j] * 0x10_0000) as u64,
                ),
        decreases 9 - i,
    {
        assert(sizes@[i as int] <= 1024);
        choices.push(Some(sizes[i] * 0x10_0000));
        i += 1;
    }
    choices.push(None);
    choices
}

// ---------------------------------------------------------------------------
// Starting with the system
// ---------------------------------------------------------------------------

/// Whether the program starts with the system: as it is shown, and as it is stored.
#[derive(Clone, Copy, Debug, PartialEq, Eq, Structural)]
pub struct StartWithSystem {
    pub shown: bool,
    pub stored: bool,
}

impl StartWithSystem {
    /// Once the system has answered whether it starts the program, or no longer.
    pub open spec fn answered(self, enabled: bool, worked: bool) -> StartWithSystem {
        if worked {
            StartWithSystem { shown: enabled, stored: enabled }
        } else {
            StartWithSystem { shown: self.stored, stored: self.stored }
        }
    }

    /// The system was asked to start the program, or no longer. Only where that worked it is
    /// stored; else what is shown goes back to what is stored.
    pub fn finished(&mut self, enabled: bool, worked: bool) -> (store: bool)
        ensures
            store == worked,
            *final(self) == old(self).answered(enabled, worked),
    {
        if worked {
            self.stored = enabled;
            self.shown = enabled;
        } else {
            self.shown = self.stored;
        }
        worked
    }
}

/// What is shown and what is stored agree once the system has answered.
pub proof fn law_start_setting_is_what_is_stored(before: StartWithSystem, enabled: bool, worked: bool)
    ensures
        before.answered(enabled, worked).shown == before.answered(enabled, worked).stored,
{
}

// ---------------------------------------------------------------------------
// Updates
// ---------------------------------------------------------------------------

/// How far an update has come. A release is known by its version.
#[derive(Debug)]
pub enum UpdateStatus {
    Idle,
    Checking,
    UpToDate,
    Available(String),
    Downloading(String),
    Error(String),
}

/// What an update has come to.
#[derive(Debug)]
pub enum UpdateNews {
    /// The check found this version, or none that is newer.
    Checked(Option<String>),
    CheckFailed(String),
    /// The download is done, and the new program was started or not.
    Relaunched,
    RelaunchFailed(String),
    DownloadFailed(String),
}

/// An update, and whether it is offered.
pub struct Updater {
    pub status: UpdateStatus,
    pub prompt: bool,
    pub exit: bool,
}

impl Updater {
    /// Begins a check, unless one is on its way.
    pub fn start_check(&mut self) -> (begun: bool)
        ensures
            begun == !(old(self).status is Checking),
            final(self).status is Checking,
            final(self).prompt == old(self).prompt,
            final(self).exit == old(self).exit,
    {
        let begun = match &self.status {
            UpdateStatus::Checking => false,
            _ => true,
        };
        if begun {
            self.status = UpdateStatus::Checking;
        }
        begun
    }

    /// Begins a download, unless one is on its way; the offer is taken away then.
    pub fn start_download(&mut self, version: String) -> (begun: bool)
        ensures
            begun == !(old(self).status is Downloading),
            begun ==> final(self).status == UpdateStatus::Downloading(version)
                && !final(self).prompt,
            !begun ==> final(self).status == old(self).status && final(self).prompt
                == old(self).prompt,
            final(self).exit == old(self).exit,
    {
        let begun = match &self.status {
            UpdateStatus::Downloading(_) => false,
            _ => true,
        };
        if begun {
            self.status = UpdateStatus::Downloading(version);
            self.prompt = false;
        }
        begun
    }

    /// Takes in what an update has come to.
    pub fn apply(&mut self, news: UpdateNews)
        ensures
            final(self).prompt == (old(self).prompt || news matches UpdateNews::Checked(Some(_))),
            final(self).exit == (old(self).exit || news is Relaunched),
            match news {
                UpdateNews::Checked(Some(version)) => final(self).status
                    == UpdateStatus::Available(version),
                UpdateNews::Checked(None) => final(self).status is UpToDate,
                UpdateNews::CheckFailed(problem) => final(self).status == UpdateStatus::Error(
                    problem,
                ),
                UpdateNews::DownloadFailed(problem) => final(self).status == UpdateStatus::Error(
                    problem,
                ),
                UpdateNews::RelaunchFailed(problem) => final(self).status matches
                    UpdateStatus::Error(text) && text@
                    == "Downloaded the update, but could not relaunch it: "@ + problem@,
                UpdateNews::Relaunched => final(self).status == old(self).status,
            },
    {
        match news {
            UpdateNews::Checked(found) => match found {
                Some(version) => {
                    self.prompt = true;
                    self.status = UpdateStatus::Available(version);
                },
                None => {
                    self.status = UpdateStatus::UpToDate;
                },
            },
            UpdateNews::CheckFailed(problem) => {
                self.status = UpdateStatus::Error(problem);
            },
            UpdateNews::DownloadFailed(problem) => {
                self.status = UpdateStatus::Error(problem);
            },
            UpdateNews::RelaunchFailed(problem) => {
                let mut s: String =
                    "Downloaded the update, but could not relaunch it: ".to_owned();
                s.append(problem.as_str());
                self.status = UpdateStatus::Error(s);
            },
            UpdateNews::Relaunched => {
                self.exit = true;
            },
        }
    }

    /// Whether the offer is shown: only while an update is there to be had.
    pub fn shows_prompt(&mut self) -> (r: bool)
        ensures
            r == (old(self).prompt && old(self).status is Available),
            final(self).prompt == r,
            final(self).status == old(self).status,
            final(self).exit == old(self).exit,
    {
        let there = match &self.status {
            UpdateStatus::Available(_) => true,
            _ => false,
        };
        if !there {
            self.prompt = false;
        }
        self.prompt
    }

    /// What the settings say of an update.
    pub fn status_text(&self) -> (r: Option<String>)
        ensures
            opt_text(r) == match self.status {
                UpdateStatus::Idle => None,
                UpdateStatus::Checking => Some("Checking for updates..."@),
                UpdateStatus::UpToDate => Some("You are up to date"@),
                UpdateStatus::Available(version) => Some(
                    "Version v"@ + version@ + " is available"@,
                ),
                UpdateStatus::Downloading(version) => Some("Downloading v"@ + version@ + "..."@),
                UpdateStatus::Error(problem) => Some(problem@),
            },
    {
        match &self.status {
            UpdateStatus::Idle => None,
            UpdateStatus::Checking => Some("Checking for updates...".to_owned()),
            UpdateStatus::UpToDate => Some("You are up to date".to_owned()),
            UpdateStatus::Available(version) => {
                let mut s: String = "Version v".to_owned();
                s.append(version.as_str());
                s.append(" is available");
                Some(s)
            },
            UpdateStatus::Downloading(version) => {
                let mut s: String = "Downloading v".to_owned();
                s.append(version.as_str());
                s.append("...");
                Some(s)
            },
            UpdateStatus::Error(problem) => Some(problem.clone()),
        }
    }

    /// The button that the settings offer for a check, where they do.
    pub fn check_button(&self) -> (r: Option<&'static str>)
        ensures
            match r {
                Some(s) => (self.status is Idle && s@ == "Check for updates"@) || (self.status
                    is UpToDate && s@ == "Check again"@) || (self.status is Error && s@
                    == "Try again"@),
                None => self.status is Checking || self.status is Available || self.status
                    is Downloading,
            },
    {
        match &self.status {
            UpdateStatus::Idle => Some("Check for updates"),
            UpdateStatus::UpToDate => Some("Check again"),
            UpdateStatus::Error(_) => Some("Try again"),
            UpdateStatus::Checking => None,
            UpdateStatus::Available(_) => None,
            UpdateStatus::Downloading(_) => None,
        }
    }
}

/// What the offer of an update says.
pub fn prompt_text(version: &str, installed: &str) -> (s: String)
    ensures
        s@ == "Wire v"@ + version@ + " is available. You are running v"@ + installed@ + "."@,
{
    let mut s: String = "Wire v".to_owned();
    s.append(version);
    s.append(" is available. You are running v");
    s.append(installed);
    s.append(".");
    s
}

/// What is stored changes only where the system has done what it was asked for.
pub proof fn law_start_setting_follows_the_system(
    before: StartWithSystem,
    enabled: bool,
    worked: bool,
)
    ensures
        worked ==> before.answered(enabled, worked).stored == enabled,
        !worked ==> before.answered(enabled, worked).stored == before.stored,
{
}

/// The system's own device goes by no name, and every other by its own.
pub proof fn law_devices_go_by_their_names(name: Seq<char>)
    ensures
        name == "<default>"@ ==> device_of(name) is None,
        name != "<default>"@ ==> device_of(name) == Some(name),
{
}

} // verus!
