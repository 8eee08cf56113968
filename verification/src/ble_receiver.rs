//! The Mac's Bluetooth side: finding the microphone, and playing what it sends.

use vstd::prelude::*;
use vstd::string::*;

use crate::fragment::{reassemble, BleFrameReassembler, Pending};
use crate::frame::{decode_frame, ProtocolError};
use crate::receiver::{hear, silence, Heard, Hearing, LiveAudioOutput, LiveAudioStatus};
use crate::text::{equal_ignoring_case, same_ignoring_case};
use crate::wifi_config::optional_text;

verus! {

pub const BLE_SERVICE_UUID: &'static str = "6d356d69-6321-4d35-8000-000000000001";

pub const BLE_AUDIO_CHARACTERISTIC_UUID: &'static str = "6d356d69-6321-4d35-8000-000000000002";

pub const BLE_CONTROL_CHARACTERISTIC_UUID: &'static str = "6d356d69-6321-4d35-8000-000000000003";

pub const BLE_STATUS_CHARACTERISTIC_UUID: &'static str = "6d356d69-6321-4d35-8000-000000000004";

pub const BLE_PROVISION_CHARACTERISTIC_UUID: &'static str = "6d356d69-6321-4d35-8000-000000000005";

/// How often the microphone is looked for.
pub const SCAN_ROUNDS: usize = 20;

pub const DEVICE_NAME: &'static str = "m5mic";

#[derive(Debug, Clone, PartialEq, Eq)]
pub enum BleReceiverStatus {
    Disabled,
    Scanning,
    Connecting,
    Connected,
    Receiving { stream_id: u32 },
    Error(String),
}

/// The number that `uuid::Uuid::parse_str` reads in a text, if it reads one.
pub uninterp spec fn uuid_number(text: Seq<char>) -> Option<u128>;

pub open spec fn hex_digit(c: char) -> Option<int> {
    if '0' <= c <= '9' {
        Some(c as int - '0' as int)
    } else if 'a' <= c <= 'f' {
        Some(c as int - 'a' as int + 10)
    } else if 'A' <= c <= 'F' {
        Some(c as int - 'A' as int + 10)
    } else {
        None
    }
}

/// The number that the hexadecimal digits among the first `n` characters spell.
pub open spec fn digits_number(text: Seq<char>, n: nat) -> int
    decreases n,
{
    if n == 0 {
        0
    } else {
        match hex_digit(text[n - 1]) {
            Some(digit) => 16 * digits_number(text, (n - 1) as nat) + digit,
            None => digits_number(text, (n - 1) as nat),
        }
    }
}

/// An identifier in its usual form: groups of eight, four, four, four and twelve
/// hexadecimal digits with hyphens between them.
pub open spec fn is_hyphenated(text: Seq<char>) -> bool {
    &&& text.len() == 36
    &&& forall|i: int|
        0 <= i < 36 ==> if i == 8 || i == 13 || i == 18 || i == 23 {
            #[trigger] text[i] == '-'
        } else {
            hex_digit(text[i]) is Some
        }
}

/// `uuid::Uuid::parse_str` and `Uuid::as_u128`: the number of an identifier,
/// depending on the text alone. One in its usual form is read as the number that
/// its digits spell; what else is read is left open.
#[verifier::external_body]
fn parse_uuid(text: &str) -> (number: Option<u128>)
    ensures
        number == uuid_number(text@),
        is_hyphenated(text@) ==> number == Some(digits_number(text@, 36) as u128),
{
    uuid::Uuid::parse_str(text).ok().map(|uuid| uuid.as_u128())
}

/// The numbers under which the microphone offers what it has.
#[derive(Debug, Clone, Copy, PartialEq, Eq, Structural)]
pub struct BleNumbers {
    pub service: u128,
    pub audio: u128,
    pub control: u128,
    pub provision: u128,
}

/// What all identifiers begin with, as a number.
pub const BLE_NUMBER_BASE: u128 = 0x6d35_6d69_6321_4d35_8000_0000_0000_0000;

proof fn lemma_number(text: Seq<char>, last: int)
    requires
        text == "6d356d69-6321-4d35-8000-00000000000"@ + seq![(0x30 + last) as char],
        0 <= last <= 9,
    ensures
        is_hyphenated(text),
        digits_number(text, 36) == BLE_NUMBER_BASE + last,
{
    reveal_strlit("6d356d69-6321-4d35-8000-00000000000");
    let head = "6d356d69-6321-4d35-8000-00000000000"@;
    assert(forall|i: int| 0 <= i < 35 ==> text[i] == head[i]);
    assert(digits_number(text, 8) == 0x6d35_6d69) by {
        reveal_with_fuel(digits_number, 9);
    }
    assert(digits_number(text, 18) == 0x6d35_6d69_6321_4d35) by {
        reveal_with_fuel(digits_number, 11);
    }
    assert(digits_number(text, 28) == 0x6d35_6d69_6321_4d35_8000_0000) by {
        reveal_with_fuel(digits_number, 11);
    }
    assert(digits_number(text, 35) == 0x6d3_56d6_9632_14d3_5800_0000_0000_0000) by {
        reveal_with_fuel(digits_number, 8);
    }
}

/// The numbers of the service and of what it offers.
pub fn ble_numbers() -> (numbers: Option<BleNumbers>)
    ensures
        numbers == Some(
            BleNumbers {
                service: (BLE_NUMBER_BASE + 1) as u128,
                audio: (BLE_NUMBER_BASE + 2) as u128,
                control: (BLE_NUMBER_BASE + 3) as u128,
                provision: (BLE_NUMBER_BASE + 5) as u128,
            },
        ),
{
    proof {
        reveal_strlit("6d356d69-6321-4d35-8000-00000000000");
        reveal_strlit("6d356d69-6321-4d35-8000-000000000001");
        reveal_strlit("6d356d69-6321-4d35-8000-000000000002");
        reveal_strlit("6d356d69-6321-4d35-8000-000000000003");
        reveal_strlit("6d356d69-6321-4d35-8000-000000000005");
        let head = "6d356d69-6321-4d35-8000-00000000000"@;
        assert(BLE_SERVICE_UUID@ =~= head + seq!['1']);
        assert(BLE_AUDIO_CHARACTERISTIC_UUID@ =~= head + seq!['2']);
        assert(BLE_CONTROL_CHARACTERISTIC_UUID@ =~= head + seq!['3']);
        assert(BLE_PROVISION_CHARACTERISTIC_UUID@ =~= head + seq!['5']);
        lemma_number(BLE_SERVICE_UUID@, 1);
        lemma_number(BLE_AUDIO_CHARACTERISTIC_UUID@, 2);
        lemma_number(BLE_CONTROL_CHARACTERISTIC_UUID@, 3);
        lemma_number(BLE_PROVISION_CHARACTERISTIC_UUID@, 5);
    }
    match (
        parse_uuid(BLE_SERVICE_UUID),
        parse_uuid(BLE_AUDIO_CHARACTERISTIC_UUID),
        parse_uuid(BLE_CONTROL_CHARACTERISTIC_UUID),
        parse_uuid(BLE_PROVISION_CHARACTERISTIC_UUID),
    ) {
        (Some(service), Some(audio), Some(control), Some(provision)) => Some(
            BleNumbers { service, audio, control, provision },
        ),
        _ => None,
    }
}

/// Something that a Bluetooth device offers.
#[derive(Debug, Clone, Copy, PartialEq, Eq, Structural)]
pub struct Characteristic {
    pub uuid: u128,
    pub notify: bool,
    pub read: bool,
    pub write: bool,
    pub write_without_response: bool,
}

/// What a characteristic is wanted for.
#[derive(Debug, Clone, Copy, PartialEq, Eq, Structural)]
pub enum Purpose {
    Audio,
    Control,
    Provision,
}

/// Whether a characteristic serves a purpose: it has the number, and can do what
/// the purpose needs.
pub open spec fn serves(characteristic: Characteristic, purpose: Purpose, uuid: u128) -> bool {
    let writable = characteristic.write || characteristic.write_without_response;
    characteristic.uuid == uuid && match purpose {
        Purpose::Audio => characteristic.notify,
        Purpose::Control => writable,
        Purpose::Provision => characteristic.read && writable,
    }
}

/// The first characteristic that serves a purpose.
pub fn find_characteristic(characteristics: &Vec<Characteristic>, purpose: Purpose, uuid: u128) -> (found:
    Option<usize>)
    ensures
        match found {
            Some(i) => i < characteristics@.len() && serves(
                characteristics@[i as int],
                purpose,
                uuid,
            ) && forall|k: int|
                0 <= k < i ==> !serves(#[trigger] characteristics@[k], purpose, uuid),
            None => forall|k: int|
                0 <= k < characteristics@.len() ==> !serves(
                    #[trigger] characteristics@[k],
                    purpose,
                    uuid,
                ),
        },
{
    let mut i: usize = 0;
    while i < characteristics.len()
        invariant
            i <= characteristics@.len(),
            forall|k: int| 0 <= k < i ==> !serves(#[trigger] characteristics@[k], purpose, uuid),
        decreases characteristics@.len() - i,
    {
        let characteristic = characteristics[i];
        let writable = characteristic.write || characteristic.write_without_response;
        let able = match purpose {
            Purpose::Audio => characteristic.notify,
            Purpose::Control => writable,
            Purpose::Provision => characteristic.read && writable,
        };
        if characteristic.uuid == uuid && able {
            return Some(i);
        }
        i += 1;
    }
    None
}

/// Whether a device is the microphone: it offers the service, or has the name.
pub fn is_m5mic(has_service: bool, local_name: Option<&str>) -> (yes: bool)
    ensures
        yes == (has_service || match optional_text(local_name) {
            Some(name) => same_ignoring_case(name, DEVICE_NAME@),
            None => false,
        }),
{
    has_service || match local_name {
        Some(name) => equal_ignoring_case(name, DEVICE_NAME),
        None => false,
    }
}

/// Whether a search goes on into its round number `round`, counted from zero.
pub open spec fn searches_on(round: int, enabled: Option<bool>) -> bool {
    round < SCAN_ROUNDS && enabled != Some(false)
}

/// Whether the microphone is looked for again: there is a round left, and whoever
/// watches the search has not turned it off.
pub fn scan_goes_on(round: usize, enabled: Option<bool>) -> (on: bool)
    ensures
        on == searches_on(round as int, enabled),
{
    round < SCAN_ROUNDS && match enabled {
        Some(enabled) => enabled,
        None => true,
    }
}

/// Whether a change of the switch ends what is going on: it was turned off, or
/// nobody is left to turn it.
pub fn switch_ends(closed: bool, enabled: bool) -> (ends: bool)
    ensures
        ends == (closed || !enabled),
{
    closed || !enabled
}

/// What the receiver does next about its connection.
#[derive(Debug, Clone, Copy, PartialEq, Eq, Structural)]
pub enum LinkAction {
    /// Wait until the switch is turned.
    AwaitSwitch,
    /// Let go of what is left of an earlier connection, and get an adapter.
    Prepare,
    /// Look for the microphone.
    Scan,
    /// Connect to it, and ask what it offers.
    Connect,
    /// Disconnect: the receiver was turned off while it connected.
    Abandon,
    /// Subscribe to the audio.
    Subscribe,
    /// Open the feed that the audio goes to.
    OpenFeed,
    /// Wait for a notification, or for the switch to be turned.
    Listen,
    /// Have the feed go idle, and disconnect.
    Disconnect,
    /// Let go of the connection, and wait before trying again.
    Rest,
    /// Nothing more: there is nobody left to turn the switch.
    Stop,
}

/// What an action came to.
#[derive(Debug)]
pub enum LinkEvent {
    /// It was done.
    Done,
    /// What it was about is not there: the microphone was not found, no more
    /// notifications come, the receiver was turned off while it listened, or nobody is
    /// left to turn the switch.
    Gone,
    /// Audio was heard, which is announced.
    Heard(BleReceiverStatus),
    Failed(String),
}

/// A status to announce, if any, and then what to do.
#[derive(Debug)]
pub struct LinkStep {
    pub status: Option<BleReceiverStatus>,
    pub action: LinkAction,
}

/// The first step of a connection.
pub open spec fn first_link_step(enabled: bool) -> LinkStep {
    if enabled {
        LinkStep { status: None, action: LinkAction::Prepare }
    } else {
        LinkStep { status: Some(BleReceiverStatus::Disabled), action: LinkAction::AwaitSwitch }
    }
}

/// The step after `action` has come to `event`; `enabled` is how the switch is turned
/// now. Whatever does not belong to the action is passed over.
pub open spec fn next_link_step(action: LinkAction, event: LinkEvent, enabled: bool) -> LinkStep {
    match (action, event) {
        (LinkAction::Stop, _) => LinkStep { status: None, action },
        (_, LinkEvent::Failed(message)) => LinkStep {
            status: Some(BleReceiverStatus::Error(message)),
            action: LinkAction::Rest,
        },
        (LinkAction::AwaitSwitch, LinkEvent::Done) => first_link_step(enabled),
        (LinkAction::AwaitSwitch, LinkEvent::Gone) => LinkStep {
            status: None,
            action: LinkAction::Stop,
        },
        (LinkAction::Prepare, LinkEvent::Done) => LinkStep {
            status: Some(BleReceiverStatus::Scanning),
            action: LinkAction::Scan,
        },
        (LinkAction::Scan, LinkEvent::Done) => LinkStep {
            status: Some(BleReceiverStatus::Connecting),
            action: LinkAction::Connect,
        },
        (LinkAction::Scan, LinkEvent::Gone) => LinkStep {
            status: Some(BleReceiverStatus::Disabled),
            ..first_link_step(enabled)
        },
        (LinkAction::Connect, LinkEvent::Done) => LinkStep {
            status: None,
            action: if enabled {
                LinkAction::Subscribe
            } else {
                LinkAction::Abandon
            },
        },
        (LinkAction::Abandon, LinkEvent::Done) => LinkStep {
            status: Some(BleReceiverStatus::Disabled),
            ..first_link_step(enabled)
        },
        (LinkAction::Subscribe, LinkEvent::Done) => LinkStep {
            status: Some(BleReceiverStatus::Connected),
            action: LinkAction::OpenFeed,
        },
        (LinkAction::OpenFeed, LinkEvent::Done) => LinkStep {
            status: None,
            action: LinkAction::Listen,
        },
        (LinkAction::Listen, LinkEvent::Heard(status)) => LinkStep {
            status: Some(status),
            action: LinkAction::Listen,
        },
        (LinkAction::Listen, LinkEvent::Gone) => LinkStep {
            status: None,
            action: LinkAction::Disconnect,
        },
        (LinkAction::Disconnect, LinkEvent::Done) => first_link_step(enabled),
        (LinkAction::Rest, LinkEvent::Done) => first_link_step(enabled),
        _ => LinkStep { status: None, action },
    }
}

pub fn link_start(enabled: bool) -> (step: LinkStep)
    ensures
        step == first_link_step(enabled),
{
    if enabled {
        LinkStep { status: None, action: LinkAction::Prepare }
    } else {
        LinkStep { status: Some(BleReceiverStatus::Disabled), action: LinkAction::AwaitSwitch }
    }
}

pub fn link_step(action: LinkAction, event: LinkEvent, enabled: bool) -> (step: LinkStep)
    ensures
        step == next_link_step(action, event, enabled),
{
    match (action, event) {
        (LinkAction::Stop, _) => LinkStep { status: None, action },
        (_, LinkEvent::Failed(message)) => LinkStep {
            status: Some(BleReceiverStatus::Error(message)),
            action: LinkAction::Rest,
        },
        (LinkAction::AwaitSwitch, LinkEvent::Done) => link_start(enabled),
        (LinkAction::AwaitSwitch, LinkEvent::Gone) => LinkStep {
            status: None,
            action: LinkAction::Stop,
        },
        (LinkAction::Prepare, LinkEvent::Done) => LinkStep {
            status: Some(BleReceiverStatus::Scanning),
            action: LinkAction::Scan,
        },
        (LinkAction::Scan, LinkEvent::Done) => LinkStep {
            status: Some(BleReceiverStatus::Connecting),
            action: LinkAction::Connect,
        },
        (LinkAction::Scan, LinkEvent::Gone) => LinkStep {
            status: Some(BleReceiverStatus::Disabled),
            action: link_start(enabled).action,
        },
        (LinkAction::Connect, LinkEvent::Done) => LinkStep {
            status: None,
            action: if enabled {
                LinkAction::Subscribe
            } else {
                LinkAction::Abandon
            },
        },
        (LinkAction::Abandon, LinkEvent::Done) => LinkStep {
            status: Some(BleReceiverStatus::Disabled),
            action: link_start(enabled).action,
        },
        (LinkAction::Subscribe, LinkEvent::Done) => LinkStep {
            status: Some(BleReceiverStatus::Connected),
            action: LinkAction::OpenFeed,
        },
        (LinkAction::OpenFeed, LinkEvent::Done) => LinkStep {
            status: None,
            action: LinkAction::Listen,
        },
        (LinkAction::Listen, LinkEvent::Heard(status)) => LinkStep {
            status: Some(status),
            action: LinkAction::Listen,
        },
        (LinkAction::Listen, LinkEvent::Gone) => LinkStep {
            status: None,
            action: LinkAction::Disconnect,
        },
        (LinkAction::Disconnect, LinkEvent::Done) => link_start(enabled),
        (LinkAction::Rest, LinkEvent::Done) => link_start(enabled),
        _ => LinkStep { status: None, action },
    }
}

/// A receiver that is turned on comes back after a failure of whatever it was doing,
/// which it announces, and after the microphone has gone.
pub proof fn law_the_receiver_reconnects(action: LinkAction, message: String, enabled: bool)
    requires
        action != LinkAction::Stop,
    ensures
        next_link_step(action, LinkEvent::Failed(message), enabled) == (LinkStep {
            status: Some(BleReceiverStatus::Error(message)),
            action: LinkAction::Rest,
        }),
        next_link_step(LinkAction::Rest, LinkEvent::Done, true).action == LinkAction::Prepare,
        next_link_step(LinkAction::Listen, LinkEvent::Gone, enabled).action
            == LinkAction::Disconnect,
        next_link_step(LinkAction::Disconnect, LinkEvent::Done, true).action
            == LinkAction::Prepare,
        next_link_step(LinkAction::Scan, LinkEvent::Gone, true).action == LinkAction::Prepare,
{
}

/// The receiver stops only where it waits for a switch that nobody is left to turn.
pub proof fn law_the_receiver_stops_only_without_its_switch(
    action: LinkAction,
    event: LinkEvent,
    enabled: bool,
)
    ensures
        next_link_step(action, event, enabled).action == LinkAction::Stop <==> action
            == LinkAction::Stop || (action == LinkAction::AwaitSwitch && event is Gone),
{
}

/// What a notification comes to.
#[derive(Debug)]
pub struct BleStep {
    /// The status to announce.
    pub status: BleReceiverStatus,
    /// The PCM bytes to play.
    pub pcm: Option<Vec<u8>>,
    /// Whether the stream is over, and the feed goes idle.
    pub ended: bool,
}

/// A connection to the microphone.
#[derive(Debug)]
pub struct BleSession {
    reassembler: BleFrameReassembler,
    live: LiveAudioOutput,
}

impl BleSession {
    pub closed spec fn wf(self) -> bool {
        self.reassembler.wf() && self.live.wf()
    }

    pub closed spec fn pending(self) -> Option<Pending> {
        self.reassembler@
    }

    pub closed spec fn hearing(self) -> Hearing {
        self.live.hearing()
    }

    pub fn new() -> (session: BleSession)
        ensures
            session.wf(),
            session.pending() is None,
            session.hearing() == silence(),
    {
        BleSession { reassembler: BleFrameReassembler::new(), live: LiveAudioOutput::new() }
    }

    /// Takes in a notification of the audio characteristic. One that completes no
    /// frame comes to nothing; a malformed one fails.
    pub fn on_notification(&mut self, value: &[u8]) -> (result: Result<
        Option<BleStep>,
        ProtocolError,
    >)
        requires
            old(self).wf(),
        ensures
            final(self).wf(),
            final(self).pending() == reassemble(old(self).pending(), value@).0,
            match reassemble(old(self).pending(), value@).1 {
                Err(error) => result matches Err(e) && e == error && final(self).hearing() == old(
                    self,
                ).hearing(),
                Ok(None) => result matches Ok(None) && final(self).hearing() == old(self).hearing(),
                Ok(Some(frame)) => {
                    let (next, heard) = hear(old(self).hearing(), frame);
                    match decode_frame(frame) {
                        Err(error) => result matches Err(e) && e == error
                            && final(self).hearing() == old(self).hearing(),
                        Ok(header) => {
                            &&& result matches Ok(Some(step))
                            &&& step.ended == header.stream_end()
                            &&& step.status == if header.stream_end() {
                                BleReceiverStatus::Connected
                            } else {
                                BleReceiverStatus::Receiving { stream_id: header.stream_id }
                            }
                            &&& match heard {
                                Heard::Played(pcm) => step.pcm matches Some(played) && played@
                                    == pcm,
                                _ => step.pcm is None,
                            }
                            &&& final(self).hearing() == if header.stream_end() {
                                silence()
                            } else {
                                next
                            }
                        },
                    }
                },
            },
    {
        let frame = match self.reassembler.push(value) {
            Ok(Some(frame)) => frame,
            Ok(None) => return Ok(None),
            Err(error) => return Err(error),
        };
        let played = match self.live.handle_frame(frame.as_slice()) {
            Ok(played) => played,
            Err(error) => return Err(error),
        };
        let (status, ended) = match played.status {
            LiveAudioStatus::Started { stream_id } => (
                BleReceiverStatus::Receiving { stream_id },
                false,
            ),
            LiveAudioStatus::Audio { stream_id } => (
                BleReceiverStatus::Receiving { stream_id },
                false,
            ),
            LiveAudioStatus::Ended { .. } => (BleReceiverStatus::Connected, true),
        };
        Ok(Some(BleStep { status, pcm: played.pcm, ended }))
    }
}

/// The link after as many steps as there are events, all taken with the switch on, and
/// beginning with `action`.
pub open spec fn action_after(action: LinkAction, done: nat) -> LinkAction
    decreases done,
{
    if done == 0 {
        action
    } else {
        next_link_step(action_after(action, (done - 1) as nat), LinkEvent::Done, true).action
    }
}

/// A receiver that is turned on and meets with no failure listens after five steps, and
/// says on the way that it scans, connects and is connected, in this order.
pub proof fn law_the_link_comes_up()
    ensures
        action_after(first_link_step(true).action, 5) == LinkAction::Listen,
        forall|n: nat| n < 5 ==> #[trigger] action_after(first_link_step(true).action, n)
            != LinkAction::Listen,
        ({
            let start = first_link_step(true).action;
            let said = |n: nat| next_link_step(action_after(start, n), LinkEvent::Done, true).status;
            &&& said(0) == Some(BleReceiverStatus::Scanning)
            &&& said(1) == Some(BleReceiverStatus::Connecting)
            &&& said(2) is None
            &&& said(3) == Some(BleReceiverStatus::Connected)
            &&& said(4) is None
        }),
{
    reveal_with_fuel(action_after, 6);
    let start = first_link_step(true).action;
    assert(action_after(start, 1) == LinkAction::Scan);
    assert(action_after(start, 2) == LinkAction::Connect);
    assert(action_after(start, 3) == LinkAction::Subscribe);
    assert(action_after(start, 4) == LinkAction::OpenFeed);
    assert forall|n: nat| n < 5 implies #[trigger] action_after(start, n)
        != LinkAction::Listen by {
        assert(n == 0 || n == 1 || n == 2 || n == 3 || n == 4);
    }
}

/// A receiver that is turned off never gets as far as subscribing: a connection that is
/// just up is let go, and one that has ended is not made again.
pub proof fn law_a_link_that_is_turned_off_goes_down(action: LinkAction, event: LinkEvent)
    ensures
        ({
            let next = next_link_step(action, event, false);
            &&& next.action == LinkAction::Subscribe || next.action == LinkAction::Prepare
                ==> next.action == action
            &&& action == LinkAction::Connect && event is Done ==> next.action
                == LinkAction::Abandon
            &&& (action == LinkAction::Abandon || action == LinkAction::Disconnect || action
                == LinkAction::Rest) && event is Done ==> next.action == LinkAction::AwaitSwitch
                && next.status == Some(BleReceiverStatus::Disabled)
            &&& action == LinkAction::Scan && event is Gone ==> next.action
                == LinkAction::AwaitSwitch && next.status == Some(BleReceiverStatus::Disabled)
            &&& next.action == LinkAction::Abandon ==> action == LinkAction::Connect || action
                == LinkAction::Abandon
        }),
{
}

/// What does not belong to what the receiver does changes nothing and is not announced:
/// audio is heard only while it listens, and nothing is gone but the switch, the
/// microphone that is looked for, and the one that is listened to.
pub proof fn law_strange_events_are_passed_over(
    action: LinkAction,
    event: LinkEvent,
    enabled: bool,
)
    ensures
        ({
            let next = next_link_step(action, event, enabled);
            &&& event is Heard && action != LinkAction::Listen ==> next.action == action
                && next.status is None
            &&& event is Gone && action != LinkAction::AwaitSwitch && action != LinkAction::Scan
                && action != LinkAction::Listen ==> next.action == action && next.status is None
            &&& event is Done && (action == LinkAction::Listen || action == LinkAction::Stop)
                ==> next.action == action && next.status is None
            &&& (event matches LinkEvent::Heard(status) ==> action == LinkAction::Listen
                ==> next.action == action && next.status == Some(status))
        }),
{
}

/// A characteristic serves a purpose only under its number; being able to do more does
/// not keep it from serving, and either way of writing will do.
pub proof fn law_a_characteristic_serves_what_it_can_do(
    less: Characteristic,
    more: Characteristic,
    purpose: Purpose,
    uuid: u128,
)
    requires
        less.uuid == more.uuid,
        less.read ==> more.read,
        less.write ==> more.write || more.write_without_response,
        less.write_without_response ==> more.write || more.write_without_response,
        less.notify ==> more.notify,
    ensures
        serves(less, purpose, uuid) ==> serves(more, purpose, uuid) && more.uuid == uuid,
        serves(more, Purpose::Provision, uuid) <==> serves(more, Purpose::Control, uuid)
            && more.read,
        more.uuid == uuid && more.notify ==> serves(more, Purpose::Audio, uuid),
        more.uuid == uuid && (more.write || more.write_without_response) ==> serves(
            more,
            Purpose::Control,
            uuid,
        ),
        !more.notify ==> !serves(more, Purpose::Audio, uuid),
        !more.write && !more.write_without_response ==> !serves(more, Purpose::Control, uuid),
{
}

/// A search that nobody watches takes all its rounds, as does one that is left on; one that
/// is turned off takes no more.
pub proof fn law_a_search_ends_when_it_is_turned_off(round: int)
    ensures
        searches_on(round, None) <==> round < SCAN_ROUNDS,
        searches_on(round, Some(true)) == searches_on(round, None),
        !searches_on(round, Some(false)),
{
}

} // verus!
