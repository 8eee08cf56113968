//! What the Mac's tools say of its networks and its audio devices.

use vstd::prelude::*;
use vstd::string::*;

use crate::json::{current_ssid, json_document, ssid_in_profile};
use crate::text::{
    after_first_line, ascii_lower, chars_equal, chars_of, contains, decode_text,
    equal_ignoring_case, find_text, first_line, has_prefix, is_space, law_a_line_ends_at_its_end,
    is_capital_of, law_case_is_ignored, law_the_first_occurrence_is_found,
    law_trimming_takes_only_outer_space,
    law_what_is_found_occurs, lemma_line_len_bound, line_len, occurrence, same_ignoring_case,
    split_line, starts_with, string_of, to_ascii_lower, trim, trim_line_ends, trimmed,
    utf8_decoded, without_line_ends,
};

verus! {

pub const NOT_ASSOCIATED: &'static str = "You are not associated with an AirPort network.";

/// `usb `
pub const TRANSPORT_TYPE_USB: u32 = 0x7573_6220;

/// `virt`
pub const TRANSPORT_TYPE_VIRTUAL: u32 = 0x7669_7274;

/// The name of a network, if the text is one: neither nothing nor a notice that
/// there is none.
pub open spec fn network_name(text: Seq<char>) -> Option<Seq<char>> {
    if trimmed(text).len() == 0 || same_ignoring_case(trimmed(text), NOT_ASSOCIATED@) {
        None
    } else {
        Some(trimmed(text))
    }
}

pub open spec fn text_of(text: Option<String>) -> Option<Seq<char>> {
    match text {
        Some(text) => Some(text@),
        None => None,
    }
}

pub fn clean_wifi_ssid(ssid: &str) -> (name: Option<String>)
    ensures
        text_of(name) == network_name(ssid@),
{
    let chars = chars_of(ssid);
    let core = trim(chars.as_slice());
    if core.len() == 0 {
        return None;
    }
    let name = string_of(core);
    if equal_ignoring_case(name.as_str(), NOT_ASSOCIATED) {
        return None;
    }
    Some(name)
}

/// The name of the current network in the document that the system gives of its
/// networks.
pub fn current_wifi_ssid_system_profiler(document: &[u8]) -> (name: Option<String>)
    ensures
        text_of(name) == match json_document(document@) {
            Some(view) => match current_ssid(view) {
                Some(ssid) => network_name(ssid),
                None => None,
            },
            None => None,
        },
{
    match ssid_in_profile(document) {
        Some(ssid) => clean_wifi_ssid(ssid.as_str()),
        None => None,
    }
}

/// The name of the current network in what the network tool says: what stands
/// behind its first colon and space.
pub open spec fn reported_network(stdout: Seq<char>) -> Option<Seq<char>> {
    match occurrence(stdout, ": "@, 0) {
        Some(at) => network_name(trimmed(stdout.skip(at + 2))),
        None => None,
    }
}

pub fn current_wifi_ssid_networksetup(stdout: &str) -> (name: Option<String>)
    ensures
        text_of(name) == reported_network(stdout@),
{
    let chars = chars_of(stdout);
    let separator = chars_of(": ");
    proof {
        reveal_strlit(": ");
    }
    let total: usize = chars.len();
    match find_text(chars.as_slice(), separator.as_slice()) {
        Some(at) => {
            assert(separator@.len() == 2);
            let rest = &chars.as_slice()[at + 2..total];
            assert(rest@ =~= chars@.skip(at + 2));
            let ssid = string_of(trim(rest));
            clean_wifi_ssid(ssid.as_str())
        },
        None => None,
    }
}

/// The first line of `s`, without a carriage return in front of its end.
pub open spec fn line_text(s: Seq<char>) -> Seq<char> {
    let line = first_line(s);
    if line_len(s) < s.len() && line.len() > 0 && line.last() == '\r' {
        line.drop_last()
    } else {
        line
    }
}

/// The device of the wireless port in a list of ports: the first one behind a
/// heading that names that port.
pub open spec fn wireless_device(s: Seq<char>, in_section: bool) -> Option<Seq<char>>
    decreases s.len(),
    via wireless_device_decreases
{
    if s.len() == 0 {
        None
    } else {
        let line = line_text(s);
        let rest = after_first_line(s);
        if has_prefix(line, "Hardware Port: "@) {
            let port = line.skip("Hardware Port: "@.len() as int);
            wireless_device(rest, port == "Wi-Fi"@ || port == "AirPort"@)
        } else if in_section && has_prefix(line, "Device: "@) {
            Some(trimmed(line.skip("Device: "@.len() as int)))
        } else {
            wireless_device(rest, in_section)
        }
    }
}

#[via_fn]
proof fn wireless_device_decreases(s: Seq<char>, in_section: bool) {
    lemma_line_len_bound(s);
}

pub fn wifi_hardware_device(stdout: &str) -> (device: Option<String>)
    ensures
        text_of(device) == wireless_device(stdout@, false),
{
    let chars = chars_of(stdout);
    let port_heading = chars_of("Hardware Port: ");
    let device_heading = chars_of("Device: ");
    let wifi = chars_of("Wi-Fi");
    let airport = chars_of("AirPort");
    let mut rest: &[char] = chars.as_slice();
    let mut in_section = false;
    while rest.len() > 0
        invariant
            port_heading@ == "Hardware Port: "@,
            device_heading@ == "Device: "@,
            wifi@ == "Wi-Fi"@,
            airport@ == "AirPort"@,
            wireless_device(stdout@, false) == wireless_device(rest@, in_section),
        decreases rest@.len(),
    {
        let ghost before = rest@;
        proof {
            lemma_line_len_bound(before);
        }
        let (first, next) = split_line(rest);
        let ended = first.len() < rest.len();
        let line: &[char] = if ended && first.len() > 0 && first[first.len() - 1] == '\r' {
            &first[0..first.len() - 1]
        } else {
            first
        };
        assert(line@ =~= line_text(before));
        if starts_with(line, port_heading.as_slice()) {
            let port = &line[port_heading.len()..line.len()];
            assert(port@ =~= line@.skip(port_heading@.len() as int));
            in_section = chars_equal(port, wifi.as_slice()) || chars_equal(
                port,
                airport.as_slice(),
            );
        } else if in_section && starts_with(line, device_heading.as_slice()) {
            let device = &line[device_heading.len()..line.len()];
            assert(device@ =~= line@.skip(device_heading@.len() as int));
            return Some(string_of(trim(device)));
        }
        rest = next;
    }
    None
}

/// The password in the bytes that the keychain gives, without line ends behind it.
pub fn password_from_bytes(bytes: &[u8]) -> (password: Option<String>)
    ensures
        text_of(password) == match utf8_decoded(bytes@) {
            Some(text) => Some(without_line_ends(text, true)),
            None => None,
        },
{
    match decode_text(bytes) {
        Some(text) => {
            let chars = chars_of(text);
            Some(string_of(trim_line_ends(chars.as_slice(), true)))
        },
        None => None,
    }
}

/// An audio device of the Mac.
#[derive(Debug)]
pub struct AudioDevice {
    pub id: u32,
    pub name: String,
    pub transport: u32,
}

pub open spec fn lower(s: Seq<char>) -> Seq<char> {
    Seq::new(s.len(), |i: int| ascii_lower(s[i]))
}

/// Whether a device is the microphone, over `transport`.
pub open spec fn is_m5mic_over(device: AudioDevice, transport: u32) -> bool {
    device.transport == transport && contains(lower(device.name@), "m5mic"@)
}

fn matches_m5mic(device: &AudioDevice, transport: u32) -> (yes: bool)
    ensures
        yes == is_m5mic_over(*device, transport),
{
    if device.transport != transport {
        return false;
    }
    let chars = chars_of(device.name.as_str());
    let mut lowered: Vec<char> = Vec::new();
    let mut i: usize = 0;
    while i < chars.len()
        invariant
            i <= chars@.len(),
            lowered@ == lower(chars@).take(i as int),
        decreases chars@.len() - i,
    {
        lowered.push(to_ascii_lower(chars[i]));
        assert(lower(chars@).take(i + 1) =~= lower(chars@).take(i as int).push(
            lower(chars@)[i as int],
        ));
        i += 1;
    }
    assert(lowered@ =~= lower(chars@));
    let name = chars_of("m5mic");
    find_text(lowered.as_slice(), name.as_slice()).is_some()
}

/// The first of `devices` that is the microphone over `transport`.
pub open spec fn first_m5mic(devices: Seq<AudioDevice>, transport: u32) -> Option<u32>
    decreases devices.len(),
{
    if devices.len() == 0 {
        None
    } else if is_m5mic_over(devices[0], transport) {
        Some(devices[0].id)
    } else {
        first_m5mic(devices.drop_first(), transport)
    }
}

pub fn find_m5mic_input(devices: &Vec<AudioDevice>, transport: u32) -> (device: Option<u32>)
    ensures
        device == first_m5mic(devices@, transport),
{
    let mut i: usize = 0;
    assert(devices@.skip(0) =~= devices@);
    while i < devices.len()
        invariant
            i <= devices@.len(),
            first_m5mic(devices@, transport) == first_m5mic(devices@.skip(i as int), transport),
        decreases devices@.len() - i,
    {
        assert(devices@.skip(i as int)[0] == devices@[i as int]);
        assert(devices@.skip(i as int).drop_first() =~= devices@.skip(i + 1));
        if matches_m5mic(&devices[i], transport) {
            return Some(devices[i].id);
        }
        i += 1;
    }
    None
}

/// A network interface with an IPv4 address; addresses are numbers, the first part
/// most significant.
#[derive(Debug, Clone, Copy, PartialEq, Eq, Structural)]
pub struct Interface {
    pub loopback: bool,
    pub ip: u32,
    pub netmask: u32,
    pub broadcast: Option<u32>,
}

/// The address that reaches everyone.
pub const BROADCAST: u32 = 0xffff_ffff;

/// The address that reaches everyone on a network.
pub fn ipv4_broadcast(ip: u32, netmask: u32) -> (broadcast: u32)
    ensures
        broadcast == ip | !netmask,
{
    ip | !netmask
}

/// Whether a command is sent to `address`.
pub open spec fn is_target(interfaces: Seq<Interface>, address: u32) -> bool {
    address == BROADCAST || exists|i: int|
        #![trigger interfaces[i]]
        0 <= i < interfaces.len() && !interfaces[i].loopback && (address == interfaces[i].ip
            | !interfaces[i].netmask || interfaces[i].broadcast == Some(address))
}

pub open spec fn strictly_increasing(s: Seq<u32>) -> bool {
    forall|i: int, j: int| 0 <= i < j < s.len() ==> s[i] < s[j]
}

/// Adds `address` to addresses that are in order and occur once.
fn add_target(targets: &mut Vec<u32>, address: u32)
    requires
        strictly_increasing(old(targets)@),
    ensures
        strictly_increasing(final(targets)@),
        forall|a: u32|
            #[trigger] final(targets)@.contains(a) <==> old(targets)@.contains(a) || a == address,
{
    let mut at: usize = 0;
    while at < targets.len() && targets[at] < address
        invariant
            at <= targets@.len(),
            targets@ == old(targets)@,
            strictly_increasing(targets@),
            forall|k: int| 0 <= k < at ==> #[trigger] targets@[k] < address,
        decreases targets@.len() - at,
    {
        at += 1;
    }
    if at < targets.len() && targets[at] == address {
        assert(targets@[at as int] == address);
        return;
    }
    let ghost before = targets@;
    targets.insert(at, address);
    proof {
        let after = targets@;
        assert(after == before.insert(at as int, address));
        assert forall|i: int, j: int| 0 <= i < j < after.len() implies after[i] < after[j] by {
            if j == at {
                assert(before[i] < address);
            } else if i == at {
                assert(before[at as int] > address);
                if j - 1 > at {
                    assert(before[at as int] < before[j - 1]);
                }
            } else if i < at && j > at {
                assert(before[i] < before[j - 1]);
            } else if j < at {
                assert(before[i] < before[j]);
            } else {
                assert(before[i - 1] < before[j - 1]);
            }
        }
        assert forall|a: u32| #[trigger] after.contains(a) <==> before.contains(a) || a
            == address by {
            if before.contains(a) {
                let k = choose|k: int| 0 <= k < before.len() && before[k] == a;
                if k < at {
                    assert(after[k] == a);
                } else {
                    assert(after[k + 1] == a);
                }
            }
            if after.contains(a) && a != address {
                let k = choose|k: int| 0 <= k < after.len() && after[k] == a;
                if k < at {
                    assert(before[k] == a);
                } else {
                    assert(before[k - 1] == a);
                }
            }
            assert(after[at as int] == address);
        }
    }
}

/// The addresses that a command is sent to, in order and each once.
pub fn mode_control_targets(interfaces: &Vec<Interface>) -> (targets: Vec<u32>)
    ensures
        strictly_increasing(targets@),
        forall|address: u32|
            #[trigger] targets@.contains(address) <==> is_target(interfaces@, address),
{
    let mut targets: Vec<u32> = Vec::new();
    targets.push(BROADCAST);
    assert(targets@[0] == BROADCAST);
    let mut i: usize = 0;
    assert(interfaces@.take(0) =~= Seq::<Interface>::empty());
    while i < interfaces.len()
        invariant
            i <= interfaces@.len(),
            strictly_increasing(targets@),
            forall|address: u32|
                #[trigger] targets@.contains(address) <==> is_target(
                    interfaces@.take(i as int),
                    address,
                ),
        decreases interfaces@.len() - i,
    {
        let interface = interfaces[i];
        let ghost done = interfaces@.take(i as int);
        let ghost next = interfaces@.take(i + 1);
        let ghost before = targets@;
        if !interface.loopback {
            add_target(&mut targets, ipv4_broadcast(interface.ip, interface.netmask));
            if let Some(broadcast) = interface.broadcast {
                add_target(&mut targets, broadcast);
            }
        }
        assert forall|address: u32| #[trigger] targets@.contains(address) <==> is_target(
            next,
            address,
        ) by {
            assert(before.contains(address) <==> is_target(done, address));
            assert(next[i as int] == interface);
            if is_target(done, address) && address != BROADCAST {
                let k = choose|k: int|
                    #![trigger done[k]]
                    0 <= k < done.len() && !done[k].loopback && (address == done[k].ip
                        | !done[k].netmask || done[k].broadcast == Some(address));
                assert(next[k] == done[k]);
            }
            if is_target(next, address) && address != BROADCAST {
                let k = choose|k: int|
                    #![trigger next[k]]
                    0 <= k < next.len() && !next[k].loopback && (address == next[k].ip
                        | !next[k].netmask || next[k].broadcast == Some(address));
                if k < i {
                    assert(done[k] == next[k]);
                }
            }
        }
        i += 1;
    }
    assert(interfaces@.take(i as int) =~= interfaces@);
    targets
}

/// The device that is found is the first that is the microphone, and none is found only
/// where none is.
pub proof fn law_the_first_m5mic_is_found(devices: Seq<AudioDevice>, transport: u32)
    ensures
        match first_m5mic(devices, transport) {
            Some(id) => exists|i: int|
                0 <= i < devices.len() && (#[trigger] devices[i]).id == id && is_m5mic_over(
                    devices[i],
                    transport,
                ) && forall|j: int| 0 <= j < i ==> !is_m5mic_over(#[trigger] devices[j], transport),
            None => forall|j: int|
                0 <= j < devices.len() ==> !is_m5mic_over(#[trigger] devices[j], transport),
        },
    decreases devices.len(),
{
    if devices.len() > 0 && !is_m5mic_over(devices[0], transport) {
        let rest = devices.drop_first();
        law_the_first_m5mic_is_found(rest, transport);
        assert(forall|j: int| 0 <= j < rest.len() ==> #[trigger] rest[j] == devices[j + 1]);
        match first_m5mic(devices, transport) {
            Some(id) => {
                let i = choose|i: int|
                    0 <= i < rest.len() && (#[trigger] rest[i]).id == id && is_m5mic_over(
                        rest[i],
                        transport,
                    ) && forall|j: int|
                        0 <= j < i ==> !is_m5mic_over(#[trigger] rest[j], transport);
                assert(devices[i + 1].id == id);
                assert forall|j: int| 0 <= j < i + 1 implies !is_m5mic_over(
                    #[trigger] devices[j],
                    transport,
                ) by {
                    if j > 0 {
                        assert(rest[j - 1] == devices[j]);
                    }
                }
            },
            None => {
                assert forall|j: int| 0 <= j < devices.len() implies !is_m5mic_over(
                    #[trigger] devices[j],
                    transport,
                ) by {
                    if j > 0 {
                        assert(rest[j - 1] == devices[j]);
                    }
                }
            },
        }
    } else if devices.len() > 0 {
        assert(devices[0].id == devices[0].id);
    }
}

/// A device whose name has the microphone's name somewhere in it, in whatever case, is
/// the microphone if it is reached in the way that is asked for, and not otherwise.
pub proof fn law_the_microphone_goes_by_its_name(
    device: AudioDevice,
    transport: u32,
    before: Seq<char>,
    name: Seq<char>,
    after: Seq<char>,
)
    requires
        device.name@ == before + name + after,
        same_ignoring_case(name, "m5mic"@),
    ensures
        is_m5mic_over(device, transport) <==> device.transport == transport,
{
    let text = lower(device.name@);
    let at = before.len() as int;
    reveal_strlit("m5mic");
    assert(text.subrange(at, at + 5) =~= "m5mic"@) by {
        assert forall|i: int| 0 <= i < 5 implies text[at + i] == "m5mic"@[i] by {
            assert(device.name@[at + i] == name[i]);
            assert(ascii_lower(name[i]) == ascii_lower("m5mic"@[i]));
        }
    }
    law_the_first_occurrence_is_found(text, "m5mic"@, 0, at);
}

/// A device that is taken for the microphone has the name in its own.
pub proof fn law_only_the_microphone_is_taken_for_it(device: AudioDevice, transport: u32)
    requires
        is_m5mic_over(device, transport),
    ensures
        device.transport == transport,
        exists|at: int|
            0 <= at && at + 5 <= device.name@.len() && same_ignoring_case(
                #[trigger] device.name@.subrange(at, at + 5),
                "m5mic"@,
            ),
{
    reveal_strlit("m5mic");
    let text = lower(device.name@);
    law_what_is_found_occurs(text, "m5mic"@, 0);
    let at = occurrence(text, "m5mic"@, 0)->0;
    let part = device.name@.subrange(at, at + 5);
    assert forall|i: int| 0 <= i < part.len() implies ascii_lower(#[trigger] part[i])
        == ascii_lower("m5mic"@[i]) by {
        assert(text.subrange(at, at + 5)[i] == text[at + i]);
    }
    assert(same_ignoring_case(part, "m5mic"@));
}

/// A command goes to everyone, and over each interface but the loopback to everyone on
/// its network: the address has the bits of the network where the mask has ones, and
/// ones elsewhere.
pub proof fn law_commands_reach_every_network(interfaces: Seq<Interface>, i: int)
    requires
        0 <= i < interfaces.len(),
        !interfaces[i].loopback,
    ensures
        is_target(interfaces, 0xffff_ffff),
        is_target(interfaces, interfaces[i].ip | !interfaces[i].netmask),
        ({
            let address = interfaces[i].ip | !interfaces[i].netmask;
            let ip = interfaces[i].ip;
            let mask = interfaces[i].netmask;
            &&& address & mask == ip & mask
            &&& address | mask == 0xffff_ffff
        }),
        interfaces[i].broadcast matches Some(broadcast) ==> is_target(interfaces, broadcast),
{
    let ip = interfaces[i].ip;
    let mask = interfaces[i].netmask;
    assert((ip | !mask) & mask == ip & mask) by (bit_vector);
    assert((ip | !mask) | mask == 0xffff_ffff) by (bit_vector);
}

/// Without interfaces but the loopback, a command only goes to everyone.
pub proof fn law_nothing_goes_to_the_loopback(interfaces: Seq<Interface>, address: u32)
    requires
        forall|i: int| 0 <= i < interfaces.len() ==> (#[trigger] interfaces[i]).loopback,
    ensures
        is_target(interfaces, address) <==> address == 0xffff_ffff,
{
}

/// The network tool's report of a network gives its name: what stands behind the first
/// colon and blank, without white space around it, unless it is the notice that there is
/// no network.
pub proof fn law_the_reported_network_is_named(
    heading: Seq<char>,
    before: Seq<char>,
    name: Seq<char>,
    after: Seq<char>,
)
    requires
        forall|i: int| 0 <= i < heading.len() ==> #[trigger] heading[i] != ':',
        forall|i: int| 0 <= i < before.len() ==> is_space(#[trigger] before[i]),
        forall|i: int| 0 <= i < after.len() ==> is_space(#[trigger] after[i]),
        name.len() > 0,
        !is_space(name[0]),
        !is_space(name[name.len() - 1]),
        !same_ignoring_case(name, "You are not associated with an AirPort network."@),
    ensures
        reported_network(heading + seq![':', ' '] + (before + name + after)) == Some(name),
{
    let rest = before + name + after;
    let stdout = heading + seq![':', ' '] + rest;
    let at = heading.len() as int;
    reveal_strlit(": ");
    assert(stdout.subrange(at, at + 2) =~= ": "@);
    law_the_first_occurrence_is_found(stdout, ": "@, 0, at);
    let found = occurrence(stdout, ": "@, 0)->0;
    if found < at {
        assert(stdout.subrange(found, found + 2)[0] == stdout[found]);
        assert(stdout[found] == heading[found]);
    }
    assert(stdout.skip(at + 2) =~= rest);
    law_trimming_takes_only_outer_space(before, name, after);
    law_trimming_takes_only_outer_space(Seq::empty(), name, Seq::empty());
    assert(Seq::<char>::empty() + name + Seq::<char>::empty() =~= name);
}

/// A notice that there is no network names none, nor does white space.
pub proof fn law_a_notice_names_no_network(text: Seq<char>)
    ensures
        network_name("You are not associated with an AirPort network."@) is None,
        (forall|i: int| 0 <= i < text.len() ==> is_space(#[trigger] text[i])) ==> network_name(text)
            is None,
        network_name(text) matches Some(name) ==> name == trimmed(text) && name.len() > 0,
{
    let notice = "You are not associated with an AirPort network."@;
    reveal_strlit("You are not associated with an AirPort network.");
    law_trimming_takes_only_outer_space(Seq::empty(), notice, Seq::empty());
    assert(Seq::<char>::empty() + notice + Seq::<char>::empty() =~= notice);
    assert(same_ignoring_case(notice, notice));
    if forall|i: int| 0 <= i < text.len() ==> is_space(#[trigger] text[i]) {
        law_trimming_takes_only_outer_space(text, Seq::empty(), Seq::empty());
        assert(text + Seq::<char>::empty() + Seq::<char>::empty() =~= text);
    }
}

proof fn lemma_line(line: Seq<char>, rest: Seq<char>)
    requires
        forall|i: int| 0 <= i < line.len() ==> #[trigger] line[i] != '\n',
        line.len() > 0 ==> line[line.len() - 1] != '\r',
    ensures
        line_text(line + seq!['\n'] + rest) == line,
        after_first_line(line + seq!['\n'] + rest) == rest,
        (line + seq!['\n'] + rest).len() > 0,
{
    law_a_line_ends_at_its_end(line, rest);
}

/// In a list of ports, the device line behind the heading of the wireless port names its
/// device.
pub proof fn law_the_wireless_port_has_its_device(device: Seq<char>, rest: Seq<char>, airport: bool)
    requires
        forall|i: int| 0 <= i < device.len() ==> #[trigger] device[i] != '\n',
        device.len() > 0 ==> device[device.len() - 1] != '\r',
    ensures
        ({
            let port = if airport {
                "AirPort"@
            } else {
                "Wi-Fi"@
            };
            let text = ("Hardware Port: "@ + port) + seq!['\n'] + (("Device: "@ + device)
                + seq!['\n'] + rest);
            forall|in_section: bool| #[trigger] wireless_device(text, in_section) == Some(
                trimmed(device),
            )
        }),
{
    reveal_strlit("AirPort");
    reveal_strlit("Wi-Fi");
    reveal_strlit("Hardware Port: ");
    reveal_strlit("Device: ");
    let port = if airport {
        "AirPort"@
    } else {
        "Wi-Fi"@
    };
    let heading = "Hardware Port: "@ + port;
    let line = "Device: "@ + device;
    let tail = line + seq!['\n'] + rest;
    lemma_line(heading, tail);
    lemma_line(line, rest);
    assert(heading.take(15) =~= "Hardware Port: "@);
    assert(heading.skip(15) =~= port);
    assert(line.take(8) =~= "Device: "@);
    assert(line.skip(8) =~= device);
    if has_prefix(line, "Hardware Port: "@) {
        assert(line.take(15)[0] == 'D');
    }
    assert(wireless_device(tail, true) == Some(trimmed(device)));
}

/// Behind the heading of any other port, device lines are passed over until the next
/// heading.
pub proof fn law_other_ports_are_passed_over(port: Seq<char>, device: Seq<char>, rest: Seq<char>)
    requires
        forall|i: int| 0 <= i < port.len() ==> #[trigger] port[i] != '\n',
        port.len() > 0 ==> port[port.len() - 1] != '\r',
        port != "AirPort"@,
        port != "Wi-Fi"@,
        forall|i: int| 0 <= i < device.len() ==> #[trigger] device[i] != '\n',
        device.len() > 0 ==> device[device.len() - 1] != '\r',
    ensures
        ({
            let text = ("Hardware Port: "@ + port) + seq!['\n'] + (("Device: "@ + device)
                + seq!['\n'] + rest);
            forall|in_section: bool| #[trigger]
                wireless_device(text, in_section) == wireless_device(rest, false)
        }),
{
    reveal_strlit("Hardware Port: ");
    reveal_strlit("Device: ");
    let heading = "Hardware Port: "@ + port;
    let line = "Device: "@ + device;
    let tail = line + seq!['\n'] + rest;
    lemma_line(heading, tail);
    lemma_line(line, rest);
    assert(heading.take(15) =~= "Hardware Port: "@);
    assert(heading.skip(15) =~= port);
    if has_prefix(line, "Hardware Port: "@) {
        assert(line.take(15)[0] == 'D');
    }
    assert(wireless_device(tail, false) == wireless_device(rest, false));
}

/// However the notice is capitalised, and whatever white space is around it, it names no
/// network.
pub proof fn law_the_notice_may_be_capitalised(
    before: Seq<char>,
    notice: Seq<char>,
    after: Seq<char>,
)
    requires
        forall|i: int| 0 <= i < before.len() ==> is_space(#[trigger] before[i]),
        forall|i: int| 0 <= i < after.len() ==> is_space(#[trigger] after[i]),
        notice.len() > 0 ==> !is_space(notice[0]) && !is_space(notice[notice.len() - 1]),
        ({
            let usual = "You are not associated with an AirPort network."@;
            &&& notice.len() == usual.len()
            &&& forall|i: int|
                0 <= i < notice.len() ==> #[trigger] notice[i] == usual[i] || is_capital_of(
                    notice[i],
                    usual[i],
                ) || is_capital_of(usual[i], notice[i])
        }),
    ensures
        network_name(before + notice + after) is None,
{
    law_case_is_ignored(notice, "You are not associated with an AirPort network."@);
    law_trimming_takes_only_outer_space(before, notice, after);
}

/// A carriage return in front of the end of a line does not belong to the line, and one
/// elsewhere does.
pub proof fn law_a_line_may_end_in_a_carriage_return(line: Seq<char>, rest: Seq<char>)
    requires
        forall|i: int| 0 <= i < line.len() ==> #[trigger] line[i] != '\n',
    ensures
        line_text(line + seq!['\r', '\n'] + rest) == line,
        after_first_line(line + seq!['\r', '\n'] + rest) == rest,
        line_text(line) == line,
{
    let ended = line.push('\r');
    assert forall|i: int| 0 <= i < ended.len() implies #[trigger] ended[i] != '\n' by {
        if i < line.len() {
            assert(ended[i] == line[i]);
        }
    }
    assert(line + seq!['\r', '\n'] + rest =~= ended + seq!['\n'] + rest);
    law_a_line_ends_at_its_end(ended, rest);
    assert(ended.drop_last() =~= line);
    law_a_line_ends_at_its_end(line, rest);
    lemma_line_len_bound(line);
    assert(first_line(line).len() == line.len());
}

} // verus!
