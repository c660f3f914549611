//! User settings: paste method, onboarding progress and the application
//! settings with their defaults.
//!
//! The voice-activity threshold is a floating-point setting; it lives with
//! the serialised form of the settings outside this crate.

use vstd::prelude::*;

verus! {

/// Default for whether voice-activity detection filters silence.
pub fn default_vad_enabled() -> (r: bool)
    ensures
        r == true,
{
    true
}

/// Default tail padding, in milliseconds, kept after speech ends.
pub fn default_vad_padding_ms() -> (r: u32)
    ensures
        r == 300,
{
    300
}

/// How a transcription is pasted into the focused application.
#[derive(Clone, Copy, Debug, PartialEq, Eq, Structural)]
pub enum PasteMethod {
    CtrlV,
    CtrlShiftV,
    Direct,
}

impl Default for PasteMethod {
    fn default() -> (r: Self)
        ensures
            r == PasteMethod::CtrlV,
    {
        PasteMethod::CtrlV
    }
}

/// Which onboarding steps the user has completed.
#[derive(Clone, Copy, Debug, PartialEq, Eq, Structural)]
pub struct OnboardingState {
    pub used_home_shortcut: bool,
    pub transcribed_outside_app: bool,
    pub added_dictionary_word: bool,
    pub congrats_dismissed: bool,
}

impl Default for OnboardingState {
    fn default() -> (r: Self)
        ensures
            !r.used_home_shortcut,
            !r.transcribed_outside_app,
            !r.added_dictionary_word,
            !r.congrats_dismissed,
    {
        OnboardingState {
            used_home_shortcut: false,
            transcribed_outside_app: false,
            added_dictionary_word: false,
            congrats_dismissed: false,
        }
    }
}

/// The application settings (all but the floating-point VAD threshold).
#[derive(Clone, Debug)]
pub struct AppSettings {
    pub record_shortcut: String,
    pub last_transcript_shortcut: String,
    pub llm_record_shortcut: String,
    pub command_shortcut: String,
    pub llm_mode_1_shortcut: String,
    pub llm_mode_2_shortcut: String,
    pub llm_mode_3_shortcut: String,
    pub llm_mode_4_shortcut: String,
    pub dictionary: Vec<String>,
    /// `"push_to_talk"` or `"toggle_to_talk"`.
    pub record_mode: String,
    /// `"hidden"`, `"recording"` or `"always"`.
    pub overlay_mode: String,
    /// `"top"` or `"bottom"`.
    pub overlay_position: String,
    /// Whether the local HTTP API is enabled.
    pub api_enabled: bool,
    /// Port of the local HTTP API.
    pub api_port: u16,
    /// Keep the transcription in the clipboard after recording finishes.
    pub copy_to_clipboard: bool,
    pub paste_method: PasteMethod,
    /// Persist the last transcriptions to disk.
    pub persist_history: bool,
    /// UI language code (e.g. `"en"`, `"fr"`).
    pub language: String,
    pub sound_enabled: bool,
    pub onboarding: OnboardingState,
    /// Shortcut that cancels an active recording.
    pub cancel_shortcut: String,
    /// Selected microphone device, if any.
    pub mic_id: Option<String>,
    /// Friendly name of the selected microphone.
    pub mic_label: Option<String>,
    /// `"info"`, `"debug"`, `"trace"`, `"warn"` or `"error"`.
    pub log_level: String,
    pub wake_word_enabled: bool,
    pub wake_word_record: String,
    pub wake_word_llm: String,
    pub wake_word_command: String,
    pub wake_word_cancel: String,
    pub wake_word_validate: String,
    pub auto_enter_after_wake_word: bool,
    /// Voice-activity detection filters silence from the recording.
    pub vad_enabled: bool,
    /// Milliseconds of audio kept after speech ends.
    pub vad_padding_ms: u32,
}

fn text(s: &str) -> (r: String)
    ensures
        r@ == s@,
{
    s.to_string()
}

impl Default for AppSettings {
    fn default() -> (r: Self)
        ensures
            r.record_shortcut@ == "ctrl+space"@,
            r.last_transcript_shortcut@ == "ctrl+shift+space"@,
            r.llm_record_shortcut@ == "ctrl+alt+space"@,
            r.command_shortcut@ == "ctrl+shift+x"@,
            r.llm_mode_1_shortcut@ == "ctrl+shift+1"@,
            r.llm_mode_2_shortcut@ == "ctrl+shift+2"@,
            r.llm_mode_3_shortcut@ == "ctrl+shift+3"@,
            r.llm_mode_4_shortcut@ == "ctrl+shift+4"@,
            r.dictionary@.len() == 0,
            r.record_mode@ == "push_to_talk"@,
            r.overlay_mode@ == "recording"@,
            r.overlay_position@ == "bottom"@,
            !r.api_enabled,
            r.api_port == 4800,
            !r.copy_to_clipboard,
            r.paste_method == PasteMethod::CtrlV,
            !r.persist_history,
            r.language@ == "default"@,
            r.sound_enabled,
            r.onboarding == (OnboardingState {
                used_home_shortcut: false,
                transcribed_outside_app: false,
                added_dictionary_word: false,
                congrats_dismissed: false,
            }),
            r.cancel_shortcut@ == "escape"@,
            r.mic_id.is_none(),
            r.mic_label.is_none(),
            r.log_level@ == "info"@,
            !r.wake_word_enabled,
            r.wake_word_record@ == "ok alix"@,
            r.wake_word_llm@ == "alix connect"@,
            r.wake_word_command@ == "alix command"@,
            r.wake_word_cancel@ == "alix cancel"@,
            r.wake_word_validate@ == "alix validate"@,
            !r.auto_enter_after_wake_word,
            r.vad_enabled == true,
            r.vad_padding_ms == 300,
    {
        AppSettings {
            record_shortcut: text("ctrl+space"),
            last_transcript_shortcut: text("ctrl+shift+space"),
            llm_record_shortcut: text("ctrl+alt+space"),
            command_shortcut: text("ctrl+shift+x"),
            llm_mode_1_shortcut: text("ctrl+shift+1"),
            llm_mode_2_shortcut: text("ctrl+shift+2"),
            llm_mode_3_shortcut: text("ctrl+shift+3"),
            llm_mode_4_shortcut: text("ctrl+shift+4"),
            dictionary: Vec::new(),
            record_mode: text("push_to_talk"),
            overlay_mode: text("recording"),
            overlay_position: text("bottom"),
            api_enabled: false,
            api_port: 4800,
            copy_to_clipboard: false,
            paste_method: PasteMethod::default(),
            persist_history: false,
            language: text("default"),
            sound_enabled: true,
            onboarding: OnboardingState::default(),
            cancel_shortcut: text("escape"),
            mic_id: None,
            mic_label: None,
            log_level: text("info"),
            wake_word_enabled: false,
            wake_word_record: text("ok alix"),
            wake_word_llm: text("alix connect"),
            wake_word_command: text("alix command"),
            wake_word_cancel: text("alix cancel"),
            wake_word_validate: text("alix validate"),
            auto_enter_after_wake_word: false,
            vad_enabled: default_vad_enabled(),
            vad_padding_ms: default_vad_padding_ms(),
        }
    }
}

} // verus!
