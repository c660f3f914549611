//! Verified core of the Murmure speech-to-text desktop application:
//! transcript cleaning, the voice-activity filter and silence auto-stop of
//! the recorder, the settings model and the model-file search order.

pub mod chars;
pub mod classes;
pub mod filler_cleaner;
pub mod settings;
pub mod cleaning_laws;
pub mod filler_words;
pub mod recorder;
pub mod model;
