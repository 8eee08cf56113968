//! The USB microphone: when it is on, and what it hands to the host.

use vstd::prelude::*;
use vstd::slice::slice_to_vec;

use crate::pcm::{pcm_peak_percent, peak_percent};

verus! {

#[derive(Debug, Clone, Copy, PartialEq, Eq, Structural)]
pub enum TransportMode {
    Wireless,
    Usb,
}

/// What the USB callback and the main loop share.
#[derive(Debug, Clone, Copy, PartialEq, Eq, Structural)]
pub struct UsbAudioState {
    pub transport: TransportMode,
    pub enabled: bool,
    pub level: u8,
}

impl UsbAudioState {
    pub fn new() -> (state: UsbAudioState)
        ensures
            state == (UsbAudioState {
                transport: TransportMode::Wireless,
                enabled: false,
                level: 0,
            }),
    {
        UsbAudioState { transport: TransportMode::Wireless, enabled: false, level: 0 }
    }

    /// The state once a transport is chosen.
    pub open spec fn with_transport(self, transport: TransportMode) -> UsbAudioState {
        UsbAudioState {
            transport,
            enabled: transport == TransportMode::Usb,
            level: if transport == TransportMode::Wireless {
                0
            } else {
                self.level
            },
        }
    }

    /// Switches the transport. USB is enabled exactly when it is chosen, and the
    /// level falls to zero with it.
    pub fn set_transport(&mut self, transport: TransportMode)
        ensures
            *final(self) == old(self).with_transport(transport),
    {
        self.transport = transport;
        match transport {
            TransportMode::Usb => {
                self.enabled = true;
            },
            TransportMode::Wireless => {
                self.enabled = false;
                self.level = 0;
            },
        }
    }

    pub open spec fn streams(self) -> bool {
        self.transport == TransportMode::Usb && self.enabled
    }

    /// Whether the host gets the microphone's samples.
    pub fn is_streaming(&self) -> (streaming: bool)
        ensures
            streaming == self.streams(),
    {
        self.transport == TransportMode::Usb && self.enabled
    }

    /// The bytes that the host gets, and the level that is shown then.
    pub open spec fn given(self, len: nat, captured: Option<Seq<u8>>) -> (Seq<u8>, int) {
        if self.streams() && captured is Some {
            (captured->0, peak_percent(captured->0))
        } else {
            (
                Seq::new(len, |i: int| 0u8),
                if self.streams() {
                    0
                } else {
                    self.level as int
                },
            )
        }
    }

    /// What the host gets when it asks for `len` bytes; `captured` is what was
    /// read from the microphone, if that succeeded. Without samples the host gets
    /// silence of the same length.
    pub fn input(&mut self, len: usize, captured: Option<&[u8]>) -> (bytes: Vec<u8>)
        ensures
            final(self).transport == old(self).transport,
            final(self).enabled == old(self).enabled,
            (bytes@, final(self).level as int) == old(self).given(
                len as nat,
                match captured {
                    Some(captured) => Some(captured@),
                    None => None,
                },
            ),
    {
        if self.is_streaming() {
            match captured {
                Some(captured) => {
                    self.level = pcm_peak_percent(captured);
                    return slice_to_vec(captured);
                },
                None => {
                    self.level = 0;
                },
            }
        }
        let bytes: Vec<u8> = vec![0u8; len];
        assert(bytes@ =~= Seq::new(len as nat, |i: int| 0u8));
        bytes
    }
}

/// A buffer that is being filled by reads that may stop short.
#[derive(Debug, Clone, Copy, PartialEq, Eq, Structural)]
pub enum ReadProgress {
    /// Go on at this offset.
    More { at: usize },
    Done,
    /// A read gave nothing.
    TimedOut,
}

/// How far a buffer of `len` bytes has come that was filled up to `at` when `read` more
/// were read.
pub open spec fn progress_of(len: int, at: int, read: int) -> ReadProgress {
    if read == 0 {
        ReadProgress::TimedOut
    } else if at + read == len {
        ReadProgress::Done
    } else {
        ReadProgress::More { at: (at + read) as usize }
    }
}

/// How a buffer of `len` bytes, filled up to `at`, goes on after a read of `read`
/// bytes.
pub fn after_read(len: usize, at: usize, read: usize) -> (progress: ReadProgress)
    requires
        at < len,
        at + read <= len,
    ensures
        progress == progress_of(len as int, at as int, read as int),
{
    if read == 0 {
        ReadProgress::TimedOut
    } else if at + read == len {
        ReadProgress::Done
    } else {
        ReadProgress::More { at: at + read }
    }
}

/// The host gets what was captured if and only if USB was chosen last; on any other
/// transport it gets silence of the length it asked for, and so it does where nothing was
/// captured.
pub proof fn law_the_host_hears_the_chosen_transport_alone(
    state: UsbAudioState,
    transport: TransportMode,
    len: nat,
    captured: Seq<u8>,
    i: int,
)
    ensures
        ({
            let chosen = state.with_transport(transport);
            let silence = chosen.given(len, None).0;
            &&& chosen.streams() <==> transport == TransportMode::Usb
            &&& transport == TransportMode::Usb ==> chosen.given(len, Some(captured)) == (
                captured,
                peak_percent(captured),
            )
            &&& transport == TransportMode::Wireless ==> chosen.given(len, Some(captured)).0
                == silence && chosen.level == 0
            &&& silence.len() == len && (0 <= i < len ==> silence[i] == 0)
            &&& chosen.given(len, None).1 == 0
            &&& chosen.with_transport(transport) == chosen
        }),
{
}

/// A buffer that is filled by reads is full after those that make up its length, goes on
/// from where the last of them ended until then, and fails only at a read of nothing.
pub proof fn law_a_buffer_is_filled_by_its_reads(len: int, at: int, first: int, second: int)
    requires
        0 <= at < len <= usize::MAX,
        first > 0,
        second > 0,
        at + first + second <= len,
    ensures
        progress_of(len, at, first) == (ReadProgress::More { at: (at + first) as usize }),
        progress_of(len, at + first, second) == progress_of(len, at, first + second),
        progress_of(len, at, len - at) == ReadProgress::Done,
        progress_of(len, at, 0) == ReadProgress::TimedOut,
{
}

} // verus!
