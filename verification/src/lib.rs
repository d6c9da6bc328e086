//! Verified core of Voicebox's desktop shell: audio output, the global
//! dictation hotkey, and the auto-paste pipeline of the Linux backend.
pub mod accessibility;
pub mod text;
pub mod bytes;
pub mod wav_format;
pub mod wav_chunks;
pub mod id3_tag;
pub mod clip_probe;
pub mod text_order;
pub mod audio_buffer;
pub mod audio_decode;
pub mod audio_output;
pub mod hotkey_monitor;
pub mod hotkey_laws;
pub mod linux;
