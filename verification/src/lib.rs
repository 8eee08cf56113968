//! The logic of the m5mic wireless microphone: its wire protocol, its audio
//! codec, the firmware's decisions, and the receivers that turn its frames back
//! into audio.

pub mod bytes;
pub mod frame;
pub mod adpcm;
pub mod text;
pub mod fragment;
pub mod metadata;
pub mod control;
pub mod provision;
pub mod pcm;
pub mod virtual_mic;
pub mod receiver;
pub mod decoder;
pub mod discovery;
pub mod wifi_config;
pub mod power;
pub mod i2c_bus;
pub mod es8311;
pub mod usb_audio;
pub mod canvas;
pub mod display;
pub mod recording;
pub mod session;
pub mod pages;
pub mod setup;
pub mod coreaudio;
pub mod json;
pub mod prompts;
pub mod networks;
pub mod statusbar;
pub mod menu;
pub mod ble_receiver;
