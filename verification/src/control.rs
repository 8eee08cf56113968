//! Commands that switch the microphone's mode or its recording, and which of
//! them are obeyed.

use vstd::prelude::*;
use vstd::string::*;
use vstd::utf8::{encode_utf8, encode_utf8_decode_utf8, encode_utf8_valid_utf8};

use crate::metadata::{first_priority, metadata_priority, priority_in};
use crate::provision::ProvisionedWifi;
use crate::text::{
    chars_equal, chars_of, decimal, decode_text, has_prefix, is_ascii_space,
    law_a_text_without_space_is_one_word, law_decimal_round_trip, law_words_of_two_texts,
    lemma_word_len, next_word, utf8_decoded, without_prefix, words,
};

verus! {

pub const CONTROL_PORT: u16 = 47_779;

pub const CONTROL_MODE_USB: &'static str = "M5MIC_MODE_USB_V1";

pub const CONTROL_MODE_WIRELESS: &'static str = "M5MIC_MODE_WIRELESS_V1";

pub const CONTROL_MODE_WIFI: &'static str = "M5MIC_MODE_WIFI_V1";

pub const CONTROL_MODE_BLE: &'static str = "M5MIC_MODE_BLE_V1";

pub const CONTROL_RECORD_START: &'static str = "M5MIC_RECORD_START_V1";

pub const CONTROL_RECORD_STOP: &'static str = "M5MIC_RECORD_STOP_V1";

pub const CONTROL_PRIORITY_LEGACY: u8 = 10;

pub const CONTROL_PRIORITY_PHONE: u8 = 100;

/// How long an obeyed mode command holds off those of lower priority.
pub const CONTROL_LEASE_US: u64 = 30_000_000;

#[derive(Debug, Clone, Copy, PartialEq, Eq, Structural)]
pub enum ControlMode {
    Usb,
    Wifi,
    Bluetooth,
}

#[derive(Debug, Clone, Copy, PartialEq, Eq, Structural)]
pub enum ControlAction {
    SetMode(ControlMode),
    RecordStart,
    RecordStop,
}

#[derive(Debug, Clone, Copy, PartialEq, Eq, Structural)]
pub struct ControlCommand {
    pub action: ControlAction,
    pub priority: u8,
}

/// The action that `word` names.
pub open spec fn action_named(word: Seq<char>) -> Option<ControlAction> {
    if word == CONTROL_MODE_USB@ {
        Some(ControlAction::SetMode(ControlMode::Usb))
    } else if word == CONTROL_MODE_WIFI@ || word == CONTROL_MODE_WIRELESS@ {
        Some(ControlAction::SetMode(ControlMode::Wifi))
    } else if word == CONTROL_MODE_BLE@ {
        Some(ControlAction::SetMode(ControlMode::Bluetooth))
    } else if word == CONTROL_RECORD_START@ {
        Some(ControlAction::RecordStart)
    } else if word == CONTROL_RECORD_STOP@ {
        Some(ControlAction::RecordStop)
    } else {
        None
    }
}

/// The command in `text`: its first word is the action, and the others may give
/// a priority, which counts from `CONTROL_PRIORITY_LEGACY` up.
pub open spec fn command_in_text(text: Seq<char>) -> Option<ControlCommand> {
    let all = words(text);
    if all.len() == 0 {
        None
    } else {
        match action_named(all[0]) {
            None => None,
            Some(action) => Some(
                ControlCommand {
                    action,
                    priority: if first_priority(all) > CONTROL_PRIORITY_LEGACY {
                        first_priority(all)
                    } else {
                        CONTROL_PRIORITY_LEGACY
                    },
                },
            ),
        }
    }
}

/// The command in a datagram.
pub open spec fn command_in(payload: Seq<u8>) -> Option<ControlCommand> {
    match utf8_decoded(payload) {
        Some(text) => command_in_text(text),
        None => None,
    }
}

fn named_action(word: &[char]) -> (action: Option<ControlAction>)
    ensures
        action == action_named(word@),
{
    if chars_equal(word, chars_of(CONTROL_MODE_USB).as_slice()) {
        Some(ControlAction::SetMode(ControlMode::Usb))
    } else if chars_equal(word, chars_of(CONTROL_MODE_WIFI).as_slice()) || chars_equal(
        word,
        chars_of(CONTROL_MODE_WIRELESS).as_slice(),
    ) {
        Some(ControlAction::SetMode(ControlMode::Wifi))
    } else if chars_equal(word, chars_of(CONTROL_MODE_BLE).as_slice()) {
        Some(ControlAction::SetMode(ControlMode::Bluetooth))
    } else if chars_equal(word, chars_of(CONTROL_RECORD_START).as_slice()) {
        Some(ControlAction::RecordStart)
    } else if chars_equal(word, chars_of(CONTROL_RECORD_STOP).as_slice()) {
        Some(ControlAction::RecordStop)
    } else {
        None
    }
}

pub fn parse_control_command(payload: &[u8]) -> (command: Option<ControlCommand>)
    ensures
        command == command_in(payload@),
{
    let text = match decode_text(payload) {
        Some(text) => chars_of(text),
        None => return None,
    };
    assert(text@.skip(0) =~= text@);
    let action = match next_word(text.as_slice(), 0) {
        Some((start, end)) => named_action(&text.as_slice()[start..end]),
        None => return None,
    };
    let priority: u8 = metadata_priority(text.as_slice());
    match action {
        Some(action) => Some(
            ControlCommand {
                action,
                priority: if priority > CONTROL_PRIORITY_LEGACY {
                    priority
                } else {
                    CONTROL_PRIORITY_LEGACY
                },
            },
        ),
        None => None,
    }
}

/// Every command that is understood has at least the legacy priority.
pub proof fn law_commands_have_legacy_priority(payload: Seq<u8>)
    requires
        command_in(payload) is Some,
    ensures
        command_in(payload)->0.priority >= CONTROL_PRIORITY_LEGACY,
{
}

/// A single word is the only word in itself.
proof fn lemma_one_word(word: Seq<char>)
    requires
        word.len() > 0,
        forall|i: int| 0 <= i < word.len() ==> !is_ascii_space(#[trigger] word[i]),
    ensures
        words(word) == seq![word],
{
    lemma_word_len(word, word.len() as int);
    assert(word.take(word.len() as int) =~= word);
    assert(word.skip(word.len() as int) =~= Seq::<char>::empty());
    assert(words(word) =~= seq![word]) by {
        reveal_with_fuel(words, 2);
    }
}

proof fn lemma_plain_command(word: Seq<char>)
    requires
        word.len() > 0,
        word[0] == 'M',
        forall|i: int| 0 <= i < word.len() ==> !is_ascii_space(#[trigger] word[i]),
    ensures
        command_in(encode_utf8(word)) == match action_named(word) {
            Some(action) => Some(ControlCommand { action, priority: CONTROL_PRIORITY_LEGACY }),
            None => None,
        },
{
    encode_utf8_valid_utf8(word);
    encode_utf8_decode_utf8(word);
    lemma_one_word(word);
    reveal_strlit("priority=");
    let all = words(word);
    assert(all[0] == word);
    if has_prefix(word, "priority="@) {
        assert(word.take(9)[0] == 'p');
    }
    assert(all.drop_first() =~= Seq::<Seq<char>>::empty());
    reveal_with_fuel(first_priority, 2);
}

/// Every command that is sent on its own is understood as what it is, with the
/// legacy priority.
pub proof fn law_plain_commands_are_understood()
    ensures
        command_in(CONTROL_MODE_USB.spec_bytes()) == Some(
            ControlCommand {
                action: ControlAction::SetMode(ControlMode::Usb),
                priority: CONTROL_PRIORITY_LEGACY,
            },
        ),
        command_in(CONTROL_MODE_WIFI.spec_bytes()) == Some(
            ControlCommand {
                action: ControlAction::SetMode(ControlMode::Wifi),
                priority: CONTROL_PRIORITY_LEGACY,
            },
        ),
        command_in(CONTROL_MODE_WIRELESS.spec_bytes()) == Some(
            ControlCommand {
                action: ControlAction::SetMode(ControlMode::Wifi),
                priority: CONTROL_PRIORITY_LEGACY,
            },
        ),
        command_in(CONTROL_MODE_BLE.spec_bytes()) == Some(
            ControlCommand {
                action: ControlAction::SetMode(ControlMode::Bluetooth),
                priority: CONTROL_PRIORITY_LEGACY,
            },
        ),
        command_in(CONTROL_RECORD_START.spec_bytes()) == Some(
            ControlCommand {
                action: ControlAction::RecordStart,
                priority: CONTROL_PRIORITY_LEGACY,
            },
        ),
        command_in(CONTROL_RECORD_STOP.spec_bytes()) == Some(
            ControlCommand {
                action: ControlAction::RecordStop,
                priority: CONTROL_PRIORITY_LEGACY,
            },
        ),
{
    reveal_strlit("M5MIC_MODE_USB_V1");
    reveal_strlit("M5MIC_MODE_WIRELESS_V1");
    reveal_strlit("M5MIC_MODE_WIFI_V1");
    reveal_strlit("M5MIC_MODE_BLE_V1");
    reveal_strlit("M5MIC_RECORD_START_V1");
    reveal_strlit("M5MIC_RECORD_STOP_V1");
    assert(CONTROL_MODE_USB@[11] == 'U' && CONTROL_MODE_BLE@[11] == 'B');
    assert(CONTROL_MODE_USB@.len() == 17 && CONTROL_MODE_BLE@.len() == 17);
    assert(CONTROL_MODE_WIFI@.len() == 18 && CONTROL_MODE_WIRELESS@.len() == 22);
    assert(CONTROL_RECORD_START@.len() == 21 && CONTROL_RECORD_STOP@.len() == 20);
    lemma_plain_command(CONTROL_MODE_USB@);
    lemma_plain_command(CONTROL_MODE_WIFI@);
    lemma_plain_command(CONTROL_MODE_WIRELESS@);
    lemma_plain_command(CONTROL_MODE_BLE@);
    lemma_plain_command(CONTROL_RECORD_START@);
    lemma_plain_command(CONTROL_RECORD_STOP@);
}

/// That a text has neither blanks nor tabs nor line ends.
pub open spec fn is_one_piece(text: Seq<char>) -> bool {
    forall|i: int|
        0 <= i < text.len() ==> #[trigger] text[i] != ' ' && text[i] != '\t' && text[i] != '\n'
            && text[i] != '\x0C' && text[i] != '\r'
}

/// What a datagram with this text is understood as.
proof fn lemma_datagram(text: Seq<char>)
    ensures
        command_in(encode_utf8(text)) == command_in_text(text),
{
    encode_utf8_valid_utf8(text);
    encode_utf8_decode_utf8(text);
}

/// The first word of a datagram alone decides what is done: whatever follows it, the
/// datagram holds a command if the word does, and with the same action.
pub proof fn law_the_first_word_decides_the_action(first: Seq<char>, rest: Seq<char>)
    requires
        first.len() > 0,
        is_one_piece(first),
    ensures
        ({
            let alone = command_in(encode_utf8(first));
            let whole = command_in(encode_utf8(first + seq![' '] + rest));
            &&& whole is Some <==> alone is Some
            &&& whole is Some ==> whole->0.action == alone->0.action
            &&& whole is Some ==> whole->0.priority >= CONTROL_PRIORITY_LEGACY
        }),
{
    let text = first + seq![' '] + rest;
    lemma_datagram(first);
    lemma_datagram(text);
    law_a_text_without_space_is_one_word(first);
    law_words_of_two_texts(first, ' ', rest);
    assert(words(text)[0] == first);
}

/// White space before a command does not matter.
pub proof fn law_space_before_a_command_does_not_matter(text: Seq<char>)
    ensures
        command_in(encode_utf8(seq![' '] + text)) == command_in(encode_utf8(text)),
{
    let spaced = seq![' '] + text;
    lemma_datagram(text);
    lemma_datagram(spaced);
    law_words_of_two_texts(Seq::empty(), ' ', text);
    assert(Seq::<char>::empty() + seq![' '] + text =~= spaced);
    assert(words(Seq::<char>::empty()) + words(text) =~= words(text));
}

proof fn lemma_first_priority(before: Seq<Seq<char>>, word: Seq<char>, after: Seq<Seq<char>>)
    requires
        forall|i: int| 0 <= i < before.len() ==> !has_prefix(#[trigger] before[i], "priority="@),
        priority_in(word) is Some,
    ensures
        first_priority(before + seq![word] + after) == priority_in(word)->0,
    decreases before.len(),
{
    let all = before + seq![word] + after;
    if before.len() == 0 {
        assert(all[0] == word);
    } else {
        let rest = before.drop_first();
        assert(all[0] == before[0]);
        assert forall|i: int| 0 <= i < rest.len() implies !has_prefix(
            #[trigger] rest[i],
            "priority="@,
        ) by {
            assert(rest[i] == before[i + 1]);
        }
        assert(all.drop_first() =~= rest + seq![word] + after);
        lemma_first_priority(rest, word, after);
    }
}

proof fn lemma_no_priority(all: Seq<Seq<char>>)
    requires
        forall|i: int| 0 <= i < all.len() ==> !has_prefix(#[trigger] all[i], "priority="@),
    ensures
        first_priority(all) == 0,
    decreases all.len(),
{
    if all.len() > 0 {
        let rest = all.drop_first();
        assert forall|i: int| 0 <= i < rest.len() implies !has_prefix(
            #[trigger] rest[i],
            "priority="@,
        ) by {
            assert(rest[i] == all[i + 1]);
        }
        lemma_no_priority(rest);
    }
}

/// A command has the priority that it gives, but not less than the one it has without
/// giving any: whatever stands between the command and the first word that gives a
/// priority, and whatever comes behind.
pub proof fn law_a_command_has_the_priority_it_gives(
    first: Seq<char>,
    between: Seq<char>,
    priority: u8,
    behind: Seq<char>,
)
    requires
        first.len() > 0,
        is_one_piece(first),
        command_in(encode_utf8(first)) is Some,
        forall|i: int|
            0 <= i < words(between).len() ==> !has_prefix(
                #[trigger] words(between)[i],
                "priority="@,
            ),
    ensures
        ({
            let plain = first + seq![' '] + between;
            let given = plain + seq![' '] + ("priority="@ + decimal(priority as nat)) + seq![' ']
                + behind;
            &&& command_in(encode_utf8(plain))->0.priority == 10
            &&& command_in(encode_utf8(given)) is Some
            &&& command_in(encode_utf8(given))->0.priority == if priority > 10 {
                priority
            } else {
                10
            }
            &&& command_in(encode_utf8(given))->0.action == command_in(
                encode_utf8(first),
            )->0.action
        }),
{
    let plain = first + seq![' '] + between;
    let word = "priority="@ + decimal(priority as nat);
    let given = plain + seq![' '] + word + seq![' '] + behind;
    lemma_datagram(first);
    lemma_datagram(plain);
    lemma_datagram(given);
    law_a_text_without_space_is_one_word(first);
    law_words_of_two_texts(first, ' ', between);
    law_words_of_two_texts(plain, ' ', word);
    law_words_of_two_texts(plain + seq![' '] + word, ' ', behind);
    law_decimal_round_trip(priority as nat);
    reveal_strlit("priority=");
    reveal_strlit("M5MIC_MODE_USB_V1");
    reveal_strlit("M5MIC_MODE_WIRELESS_V1");
    reveal_strlit("M5MIC_MODE_WIFI_V1");
    reveal_strlit("M5MIC_MODE_BLE_V1");
    reveal_strlit("M5MIC_RECORD_START_V1");
    reveal_strlit("M5MIC_RECORD_STOP_V1");
    assert forall|i: int| 0 <= i < word.len() implies #[trigger] word[i] != ' ' && word[i] != '\t'
        && word[i] != '\n' && word[i] != '\x0C' && word[i] != '\r' by {
        if i >= 9 {
            assert(word[i] == decimal(priority as nat)[i - 9]);
        }
    }
    law_a_text_without_space_is_one_word(word);
    assert(word.take(9) =~= "priority="@);
    assert(word.skip(9) =~= decimal(priority as nat));
    assert(priority_in(word) == Some(priority));
    let before = words(plain);
    assert(before =~= seq![first] + words(between));
    assert(first[0] == 'M');
    assert forall|i: int| 0 <= i < before.len() implies !has_prefix(
        #[trigger] before[i],
        "priority="@,
    ) by {
        if i == 0 {
            if has_prefix(first, "priority="@) {
                assert(first.take(9)[0] == 'p');
            }
        } else {
            assert(before[i] == words(between)[i - 1]);
        }
    }
    lemma_no_priority(before);
    lemma_first_priority(before, word, words(behind));
    assert(words(given) =~= before + seq![word] + words(behind));
    assert(words(given)[0] == first);
    assert(words(plain)[0] == first);
}

/// A mode asked for over Bluetooth.
#[derive(Debug, Clone, Copy, PartialEq, Eq, Structural)]
pub enum BleModeCommand {
    Usb,
    Wifi,
    Bluetooth,
}

/// The mode that the bytes of a control write ask for: exactly one of the mode
/// commands, with nothing before or after it.
pub open spec fn ble_mode_in(data: Seq<u8>) -> Option<BleModeCommand> {
    match utf8_decoded(data) {
        None => None,
        Some(text) => if text == CONTROL_MODE_USB@ {
            Some(BleModeCommand::Usb)
        } else if text == CONTROL_MODE_WIFI@ || text == CONTROL_MODE_WIRELESS@ {
            Some(BleModeCommand::Wifi)
        } else if text == CONTROL_MODE_BLE@ {
            Some(BleModeCommand::Bluetooth)
        } else {
            None
        },
    }
}

impl BleModeCommand {
    /// The mode that a write to the control characteristic asks for.
    pub fn from_write(data: &[u8]) -> (mode: Option<BleModeCommand>)
        ensures
            mode == ble_mode_in(data@),
    {
        let text = match decode_text(data) {
            Some(text) => chars_of(text),
            None => return None,
        };
        if chars_equal(text.as_slice(), chars_of(CONTROL_MODE_USB).as_slice()) {
            Some(BleModeCommand::Usb)
        } else if chars_equal(text.as_slice(), chars_of(CONTROL_MODE_WIFI).as_slice())
            || chars_equal(text.as_slice(), chars_of(CONTROL_MODE_WIRELESS).as_slice()) {
            Some(BleModeCommand::Wifi)
        } else if chars_equal(text.as_slice(), chars_of(CONTROL_MODE_BLE).as_slice()) {
            Some(BleModeCommand::Bluetooth)
        } else {
            None
        }
    }

    /// The number that stands for the mode in the mailbox between the Bluetooth
    /// callback and the main loop; zero is an empty mailbox.
    pub open spec fn code(self) -> u8 {
        match self {
            BleModeCommand::Usb => 1,
            BleModeCommand::Wifi => 2,
            BleModeCommand::Bluetooth => 3,
        }
    }

    pub fn to_code(self) -> (code: u8)
        ensures
            code == self.code(),
    {
        match self {
            BleModeCommand::Usb => 1,
            BleModeCommand::Wifi => 2,
            BleModeCommand::Bluetooth => 3,
        }
    }

    /// What the mailbox holds.
    pub fn from_code(code: u8) -> (mode: Option<BleModeCommand>)
        ensures
            mode matches Some(mode) ==> mode.code() == code,
            mode is None ==> code == 0 || code > 3,
    {
        match code {
            1 => Some(BleModeCommand::Usb),
            2 => Some(BleModeCommand::Wifi),
            3 => Some(BleModeCommand::Bluetooth),
            _ => None,
        }
    }

    pub fn control_mode(self) -> (mode: ControlMode)
        ensures
            mode == match self {
                BleModeCommand::Usb => ControlMode::Usb,
                BleModeCommand::Wifi => ControlMode::Wifi,
                BleModeCommand::Bluetooth => ControlMode::Bluetooth,
            },
    {
        match self {
            BleModeCommand::Usb => ControlMode::Usb,
            BleModeCommand::Wifi => ControlMode::Wifi,
            BleModeCommand::Bluetooth => ControlMode::Bluetooth,
        }
    }
}

/// What a write to the control characteristic asks for is what the same bytes ask for
/// in a datagram; and a mode command that stands alone asks for its mode in both.
pub proof fn law_bluetooth_writes_mean_what_datagrams_mean(data: Seq<u8>, word: Seq<char>)
    requires
        word.len() > 0,
        is_one_piece(word),
    ensures
        ble_mode_in(data) matches Some(mode) ==> {
            &&& command_in(data) is Some
            &&& command_in(data)->0.action == ControlAction::SetMode(
                match mode {
                    BleModeCommand::Usb => ControlMode::Usb,
                    BleModeCommand::Wifi => ControlMode::Wifi,
                    BleModeCommand::Bluetooth => ControlMode::Bluetooth,
                },
            )
        },
        ble_mode_in(encode_utf8(word)) is Some <==> command_in(encode_utf8(word)) is Some
            && command_in(encode_utf8(word))->0.action is SetMode,
{
    reveal_strlit("M5MIC_MODE_USB_V1");
    reveal_strlit("M5MIC_MODE_WIRELESS_V1");
    reveal_strlit("M5MIC_MODE_WIFI_V1");
    reveal_strlit("M5MIC_MODE_BLE_V1");
    lemma_datagram(word);
    encode_utf8_valid_utf8(word);
    encode_utf8_decode_utf8(word);
    law_a_text_without_space_is_one_word(word);
    assert(words(word)[0] == word);
    if ble_mode_in(data) is Some {
        let text = utf8_decoded(data)->0;
        law_a_text_without_space_is_one_word(text);
        assert(words(text)[0] == text);
    }
}

/// The number that stands for a mode is never that of the empty mailbox, and no two
/// modes share one.
pub proof fn law_mailbox_numbers_tell_the_modes_apart(a: BleModeCommand, b: BleModeCommand)
    ensures
        a.code() != 0,
        a.code() == b.code() ==> a == b,
        a.code() == 1 <==> a is Usb,
        a.code() == 2 <==> a is Wifi,
        a.code() == 3 <==> a is Bluetooth,
{
}

/// What the microphone sends its audio over.
#[derive(Debug, Clone, Copy, PartialEq, Eq, Structural)]
pub enum ActiveMode {
    Wifi,
    Bluetooth,
    Usb,
}

impl ActiveMode {
    pub open spec fn of_control(mode: ControlMode) -> ActiveMode {
        match mode {
            ControlMode::Usb => ActiveMode::Usb,
            ControlMode::Wifi => ActiveMode::Wifi,
            ControlMode::Bluetooth => ActiveMode::Bluetooth,
        }
    }

    pub fn from_control(mode: ControlMode) -> (active: ActiveMode)
        ensures
            active == ActiveMode::of_control(mode),
    {
        match mode {
            ControlMode::Usb => ActiveMode::Usb,
            ControlMode::Wifi => ActiveMode::Wifi,
            ControlMode::Bluetooth => ActiveMode::Bluetooth,
        }
    }

    /// The mode on the other side of the toggle between wireless and USB.
    pub open spec fn successor(self) -> ActiveMode {
        match self {
            ActiveMode::Wifi => ActiveMode::Usb,
            ActiveMode::Bluetooth => ActiveMode::Usb,
            ActiveMode::Usb => ActiveMode::Wifi,
        }
    }

    pub fn next(self) -> (mode: ActiveMode)
        ensures
            mode == self.successor(),
    {
        match self {
            ActiveMode::Wifi => ActiveMode::Usb,
            ActiveMode::Bluetooth => ActiveMode::Usb,
            ActiveMode::Usb => ActiveMode::Wifi,
        }
    }

    pub fn label(self) -> (label: &'static str)
        ensures
            label == match self {
                ActiveMode::Wifi => "Wi-Fi",
                ActiveMode::Bluetooth => "Bluetooth",
                ActiveMode::Usb => "USB",
            },
    {
        match self {
            ActiveMode::Wifi => "Wi-Fi",
            ActiveMode::Bluetooth => "Bluetooth",
            ActiveMode::Usb => "USB",
        }
    }
}

/// The toggle leads from any wireless mode to USB, and from USB to Wi-Fi.
pub proof fn law_the_toggle_changes_sides(mode: ActiveMode)
    ensures
        (mode == ActiveMode::Usb) != (mode.successor() == ActiveMode::Usb),
        ActiveMode::Usb.successor() == ActiveMode::Wifi,
{
}

#[derive(Debug, Clone, Copy, PartialEq, Eq, Structural)]
pub struct ModeCommand {
    pub mode: ActiveMode,
    pub priority: u8,
}

/// The hold that the last obeyed mode command has on the mode.
#[derive(Debug, Clone, Copy, PartialEq, Eq, Structural)]
pub struct ControlLease {
    pub priority: u8,
    pub expires_us: u64,
}

pub open spec fn saturating(value: int) -> u64 {
    if value > u64::MAX {
        u64::MAX
    } else {
        value as u64
    }
}

impl ControlLease {
    /// Whether a command of `priority` is obeyed at `now_us`.
    pub open spec fn admits(self, priority: u8, now_us: u64) -> bool {
        now_us >= self.expires_us || priority >= self.priority
    }

    pub fn accepts(&mut self, command: ModeCommand, now_us: u64) -> (accepted: bool)
        ensures
            accepted == old(self).admits(command.priority, now_us),
            *final(self) == if accepted {
                (ControlLease {
                    priority: command.priority,
                    expires_us: saturating(now_us + CONTROL_LEASE_US),
                })
            } else {
                *old(self)
            },
    {
        if now_us >= self.expires_us {
            self.priority = 0;
        }
        if command.priority < self.priority {
            return false;
        }
        self.priority = command.priority;
        self.expires_us = now_us.saturating_add(CONTROL_LEASE_US);
        true
    }
}

impl Default for ControlLease {
    fn default() -> (lease: ControlLease)
        ensures
            lease == (ControlLease { priority: 0, expires_us: 0 }),
    {
        ControlLease { priority: 0, expires_us: 0 }
    }
}

/// After a command is obeyed, one of lower priority is not until the lease runs
/// out, and one of the same or a higher priority is at any time.
pub proof fn law_lease_holds_off_lower_priorities(
    priority: u8,
    accepted_us: u64,
    later: u8,
    now_us: u64,
)
    requires
        accepted_us + CONTROL_LEASE_US <= u64::MAX,
    ensures
        ({
            let lease = ControlLease {
                priority,
                expires_us: saturating(accepted_us + CONTROL_LEASE_US),
            };
            lease.admits(later, now_us) <==> (later >= priority || now_us >= accepted_us
                + CONTROL_LEASE_US)
        }),
{
}

/// What the commands that arrived since the last look ask for together.
#[derive(Debug, Clone, Copy, PartialEq, Eq, Structural)]
pub struct PolledControl {
    pub mode: Option<ModeCommand>,
    pub record_start_priority: Option<u8>,
    pub record_stop: bool,
}

impl Default for PolledControl {
    fn default() -> (requested: PolledControl)
        ensures
            requested == nothing_requested(),
    {
        PolledControl { mode: None, record_start_priority: None, record_stop: false }
    }
}

pub open spec fn nothing_requested() -> PolledControl {
    PolledControl { mode: None, record_start_priority: None, record_stop: false }
}

/// The stronger of two mode commands; the later one if they are equally strong.
pub open spec fn stronger_mode(current: Option<ModeCommand>, next: ModeCommand) -> ModeCommand {
    match current {
        Some(current) => if next.priority >= current.priority {
            next
        } else {
            current
        },
        None => next,
    }
}

pub fn best_mode_command(current: Option<ModeCommand>, next: ModeCommand) -> (best: Option<
    ModeCommand,
>)
    ensures
        best == Some(stronger_mode(current, next)),
{
    match current {
        Some(current) => if next.priority >= current.priority {
            Some(next)
        } else {
            Some(current)
        },
        None => Some(next),
    }
}

pub open spec fn max_priority(current: Option<u8>, priority: u8) -> u8 {
    match current {
        Some(current) => if priority > current {
            priority
        } else {
            current
        },
        None => priority,
    }
}

/// `requested` once a command has been added to it.
pub open spec fn merged(requested: PolledControl, command: ControlCommand) -> PolledControl {
    match command.action {
        ControlAction::SetMode(mode) => PolledControl {
            mode: Some(
                stronger_mode(
                    requested.mode,
                    ModeCommand {
                        mode: ActiveMode::of_control(mode),
                        priority: command.priority,
                    },
                ),
            ),
            ..requested
        },
        ControlAction::RecordStart => PolledControl {
            record_start_priority: Some(
                max_priority(requested.record_start_priority, command.priority),
            ),
            ..requested
        },
        ControlAction::RecordStop => PolledControl { record_stop: true, ..requested },
    }
}

pub fn merge_control_command(requested: &mut PolledControl, action: ControlAction, priority: u8)
    ensures
        *final(requested) == merged(*old(requested), ControlCommand { action, priority }),
{
    match action {
        ControlAction::SetMode(mode) => {
            let command = ModeCommand { mode: ActiveMode::from_control(mode), priority };
            requested.mode = best_mode_command(requested.mode, command);
        },
        ControlAction::RecordStart => {
            let strongest: u8 = match requested.record_start_priority {
                Some(current) => if priority > current {
                    priority
                } else {
                    current
                },
                None => priority,
            };
            requested.record_start_priority = Some(strongest);
        },
        ControlAction::RecordStop => {
            requested.record_stop = true;
        },
    }
}

/// `requested` once the datagrams have been added to it, in the order in which
/// they arrived; those that hold no command are passed over.
pub open spec fn merged_all(requested: PolledControl, payloads: Seq<Seq<u8>>) -> PolledControl
    decreases payloads.len(),
{
    if payloads.len() == 0 {
        requested
    } else {
        let before = merged_all(requested, payloads.drop_last());
        match command_in(payloads.last()) {
            Some(command) => merged(before, command),
            None => before,
        }
    }
}

impl PolledControl {
    /// Adds the command in a datagram; returns it if there is one.
    pub fn absorb(&mut self, payload: &[u8]) -> (command: Option<ControlCommand>)
        ensures
            command == command_in(payload@),
            *final(self) == match command {
                Some(command) => merged(*old(self), command),
                None => *old(self),
            },
    {
        let command = parse_control_command(payload);
        if let Some(command) = command {
            merge_control_command(self, command.action, command.priority);
        }
        command
    }
}

/// Whatever arrives, the strongest mode command wins: none that arrived is
/// stronger than the one that is kept.
pub proof fn law_strongest_mode_command_wins(payloads: Seq<Seq<u8>>, k: int)
    requires
        0 <= k < payloads.len(),
        command_in(payloads[k]) matches Some(command) && command.action is SetMode,
    ensures
        merged_all(nothing_requested(), payloads).mode matches Some(kept) && kept.priority
            >= command_in(payloads[k])->0.priority,
    decreases payloads.len(),
{
    if k < payloads.len() - 1 {
        assert(payloads.drop_last()[k] == payloads[k]);
        law_strongest_mode_command_wins(payloads.drop_last(), k);
    }
}

/// What the main loop is told.
#[derive(Debug)]
pub enum ControlEvent {
    SetMode(ModeCommand),
    RecordStart { priority: u8 },
    RecordStop,
    ProvisionWifi(ProvisionedWifi),
}

/// The event that `requested` comes to: a stop before anything else, then a mode
/// command that the lease admits, then a start.
pub open spec fn event_for(requested: PolledControl, lease: ControlLease, now_us: u64) -> Option<
    ControlEvent,
> {
    if requested.record_stop {
        Some(ControlEvent::RecordStop)
    } else if requested.mode is Some && lease.admits(requested.mode->0.priority, now_us) {
        Some(ControlEvent::SetMode(requested.mode->0))
    } else {
        match requested.record_start_priority {
            Some(priority) => Some(ControlEvent::RecordStart { priority }),
            None => None,
        }
    }
}

pub fn accepted_control_event(
    requested: PolledControl,
    control_lease: &mut ControlLease,
    now_us: u64,
) -> (event: Option<ControlEvent>)
    ensures
        event == event_for(requested, *old(control_lease), now_us),
        *final(control_lease) == match event {
            Some(ControlEvent::SetMode(command)) => (ControlLease {
                priority: command.priority,
                expires_us: saturating(now_us + CONTROL_LEASE_US),
            }),
            _ => *old(control_lease),
        },
{
    if requested.record_stop {
        return Some(ControlEvent::RecordStop);
    }
    if let Some(command) = requested.mode {
        if control_lease.accepts(command, now_us) {
            return Some(ControlEvent::SetMode(command));
        }
    }
    match requested.record_start_priority {
        Some(priority) => Some(ControlEvent::RecordStart { priority }),
        None => None,
    }
}

/// A request to stop is never lost to another command that arrives with it.
pub proof fn law_record_stop_comes_first(payloads: Seq<Seq<u8>>, k: int, lease: ControlLease, now_us: u64)
    requires
        0 <= k < payloads.len(),
        command_in(payloads[k]) matches Some(command) && command.action == ControlAction::RecordStop,
    ensures
        event_for(merged_all(nothing_requested(), payloads), lease, now_us) == Some(
            ControlEvent::RecordStop,
        ),
    decreases payloads.len(),
{
    if k < payloads.len() - 1 {
        assert(payloads.drop_last()[k] == payloads[k]);
        law_record_stop_comes_first(payloads.drop_last(), k, lease, now_us);
    }
}

/// That command `k` asks for the mode that is kept, and no later one is as strong.
pub open spec fn is_the_kept_mode(
    commands: Seq<Option<ControlCommand>>,
    k: int,
    kept: ModeCommand,
) -> bool {
    &&& 0 <= k < commands.len()
    &&& commands[k] == Some(
        ControlCommand {
            action: ControlAction::SetMode(
                match kept.mode {
                    ActiveMode::Usb => ControlMode::Usb,
                    ActiveMode::Wifi => ControlMode::Wifi,
                    ActiveMode::Bluetooth => ControlMode::Bluetooth,
                },
            ),
            priority: kept.priority,
        },
    )
    &&& forall|j: int|
        k < j < commands.len() && (#[trigger] commands[j]) is Some && commands[j]->0.action is SetMode
            ==> commands[j]->0.priority < kept.priority
}

/// The commands in datagrams.
pub open spec fn commands_in(payloads: Seq<Seq<u8>>) -> Seq<Option<ControlCommand>> {
    Seq::new(payloads.len(), |i: int| command_in(payloads[i]))
}

/// The mode that is kept of several datagrams is one that was asked for, and no later
/// datagram asks for one as strongly.
pub proof fn law_the_kept_mode_was_asked_for(payloads: Seq<Seq<u8>>)
    ensures
        merged_all(nothing_requested(), payloads).mode matches Some(kept) ==> exists|k: int|
            is_the_kept_mode(commands_in(payloads), k, kept),
    decreases payloads.len(),
{
    if payloads.len() > 0 {
        let before = payloads.drop_last();
        let n = before.len() as int;
        law_the_kept_mode_was_asked_for(before);
        let old_kept = merged_all(nothing_requested(), before);
        let kept = merged_all(nothing_requested(), payloads);
        let commands = commands_in(payloads);
        let earlier = commands_in(before);
        assert(commands =~= earlier.push(commands[n]));
        let last = commands[n];
        if last is Some && last->0.action is SetMode && (old_kept.mode is None
            || last->0.priority >= old_kept.mode->0.priority) {
            assert(is_the_kept_mode(commands, n, kept.mode->0));
        } else if old_kept.mode is Some {
            let k = choose|k: int| is_the_kept_mode(earlier, k, old_kept.mode->0);
            assert(kept.mode == old_kept.mode);
            assert forall|j: int|
                k < j < commands.len() && (#[trigger] commands[j]) is Some
                    && commands[j]->0.action is SetMode implies commands[j]->0.priority
                < old_kept.mode->0.priority by {
                if j < n {
                    assert(earlier[j] == commands[j]);
                }
            }
            assert(commands[k] == earlier[k]);
            assert(is_the_kept_mode(commands, k, kept.mode->0));
        }
    }
}

/// A start that is kept of several datagrams has the highest priority of those that ask
/// for one, and it is kept if there is one; a stop is kept if and only if one of them
/// asks for it.
pub proof fn law_starts_and_stops_are_kept(payloads: Seq<Seq<u8>>)
    ensures
        ({
            let kept = merged_all(nothing_requested(), payloads);
            let commands = commands_in(payloads);
            &&& kept.record_start_priority matches Some(priority) ==> commands.contains(
                Some(ControlCommand { action: ControlAction::RecordStart, priority }),
            )
            &&& forall|k: int|
                0 <= k < commands.len() && (#[trigger] commands[k]) is Some
                    && commands[k]->0.action == ControlAction::RecordStart
                    ==> kept.record_start_priority is Some && commands[k]->0.priority
                    <= kept.record_start_priority->0
            &&& kept.record_stop <==> exists|k: int|
                0 <= k < commands.len() && (#[trigger] commands[k]) is Some
                    && commands[k]->0.action == ControlAction::RecordStop
        }),
    decreases payloads.len(),
{
    if payloads.len() > 0 {
        let before = payloads.drop_last();
        let n = before.len() as int;
        law_starts_and_stops_are_kept(before);
        let old_kept = merged_all(nothing_requested(), before);
        let kept = merged_all(nothing_requested(), payloads);
        let commands = commands_in(payloads);
        let earlier = commands_in(before);
        assert(commands =~= earlier.push(commands[n]));
        assert(forall|k: int| 0 <= k < n ==> #[trigger] commands[k] == earlier[k]);
        if old_kept.record_start_priority is Some {
            let start = Some(
                ControlCommand {
                    action: ControlAction::RecordStart,
                    priority: old_kept.record_start_priority->0,
                },
            );
            let k = choose|k: int| 0 <= k < earlier.len() && earlier[k] == start;
            assert(commands[k] == start);
        }
        if kept.record_start_priority is Some && kept.record_start_priority
            != old_kept.record_start_priority {
            assert(commands[n] == Some(
                ControlCommand {
                    action: ControlAction::RecordStart,
                    priority: kept.record_start_priority->0,
                },
            ));
        }
        if old_kept.record_stop {
            let k = choose|k: int|
                0 <= k < earlier.len() && (#[trigger] earlier[k]) is Some
                    && earlier[k]->0.action == ControlAction::RecordStop;
            assert(commands[k] == earlier[k]);
        }
        assert forall|k: int|
            0 <= k < commands.len() && (#[trigger] commands[k]) is Some && commands[k]->0.action
                == ControlAction::RecordStart implies kept.record_start_priority is Some
            && commands[k]->0.priority <= kept.record_start_priority->0 by {
            if k < n {
                assert(earlier[k] == commands[k]);
            }
        }
        if kept.record_stop && !old_kept.record_stop {
            assert(commands[n] is Some);
        }
        if !kept.record_stop {
            assert forall|k: int|
                0 <= k < commands.len() && (#[trigger] commands[k]) is Some implies commands[k]->0.action
                != ControlAction::RecordStop by {
                if k < n {
                    assert(earlier[k] == commands[k]);
                }
            }
        }
    }
}

/// A mode command is obeyed if and only if nothing is to be stopped and the lease has
/// run out or is no stronger; a recording starts where neither comes before it.
pub proof fn law_one_request_is_obeyed_at_a_time(
    requested: PolledControl,
    lease: ControlLease,
    now_us: u64,
)
    ensures
        event_for(requested, lease, now_us) matches Some(ControlEvent::SetMode(command)) ==> Some(
            command,
        ) == requested.mode,
        event_for(requested, lease, now_us) is Some && event_for(requested, lease, now_us)->0 is SetMode
            <==> !requested.record_stop && requested.mode is Some && (now_us >= lease.expires_us
            || requested.mode->0.priority >= lease.priority),
        event_for(requested, lease, now_us) matches Some(ControlEvent::RecordStart { priority })
            ==> requested.record_start_priority == Some(priority),
        event_for(requested, lease, now_us) is None ==> !requested.record_stop
            && requested.record_start_priority is None,
        event_for(requested, lease, now_us) matches Some(event) ==> !(event is ProvisionWifi),
{
}

/// A word by itself is a command if and only if it is one of those that are known, to the
/// letter.
pub proof fn law_no_other_word_is_a_command(word: Seq<char>)
    requires
        word.len() > 0,
        is_one_piece(word),
    ensures
        command_in(encode_utf8(word)) is Some <==> word == CONTROL_MODE_USB@ || word
            == CONTROL_MODE_WIFI@ || word == CONTROL_MODE_WIRELESS@ || word == CONTROL_MODE_BLE@
            || word == CONTROL_RECORD_START@ || word == CONTROL_RECORD_STOP@,
{
    lemma_datagram(word);
    law_a_text_without_space_is_one_word(word);
}

} // verus!
