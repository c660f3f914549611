use murmure::settings::{
    default_vad_enabled, default_vad_padding_ms, AppSettings, OnboardingState, PasteMethod,
};

#[test]
fn vad_defaults() {
    assert!(default_vad_enabled());
    assert_eq!(default_vad_padding_ms(), 300);
}

#[test]
fn paste_method_defaults_to_ctrl_v() {
    assert_eq!(PasteMethod::default(), PasteMethod::CtrlV);
    assert_ne!(PasteMethod::default(), PasteMethod::Direct);
}

#[test]
fn onboarding_starts_empty() {
    let o = OnboardingState::default();
    assert!(!o.used_home_shortcut);
    assert!(!o.transcribed_outside_app);
    assert!(!o.added_dictionary_word);
    assert!(!o.congrats_dismissed);
}

#[test]
fn app_settings_defaults() {
    let s = AppSettings::default();
    assert_eq!(s.record_shortcut, "ctrl+space");
    assert_eq!(s.last_transcript_shortcut, "ctrl+shift+space");
    assert_eq!(s.llm_record_shortcut, "ctrl+alt+space");
    assert_eq!(s.command_shortcut, "ctrl+shift+x");
    assert_eq!(s.llm_mode_1_shortcut, "ctrl+shift+1");
    assert_eq!(s.llm_mode_4_shortcut, "ctrl+shift+4");
    assert!(s.dictionary.is_empty());
    assert_eq!(s.record_mode, "push_to_talk");
    assert_eq!(s.overlay_mode, "recording");
    assert_eq!(s.overlay_position, "bottom");
    assert!(!s.api_enabled);
    assert_eq!(s.api_port, 4800);
    assert_eq!(s.paste_method, PasteMethod::CtrlV);
    assert_eq!(s.language, "default");
    assert!(s.sound_enabled);
    assert_eq!(s.onboarding, OnboardingState::default());
    assert_eq!(s.cancel_shortcut, "escape");
    assert_eq!(s.mic_id, None);
    assert_eq!(s.mic_label, None);
    assert_eq!(s.log_level, "info");
    assert!(!s.wake_word_enabled);
    assert_eq!(s.wake_word_record, "ok alix");
    assert_eq!(s.wake_word_validate, "alix validate");
    assert!(s.vad_enabled);
    assert_eq!(s.vad_padding_ms, 300);
}
