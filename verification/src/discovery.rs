//! How the microphone finds a receiver: by its configuration, by mDNS, or by a
//! broadcast that receivers answer.

use vstd::prelude::*;
use vstd::string::*;

use crate::bytes::bytes_equal;
use crate::metadata::{first_priority, metadata_priority, parse_u8, priority_in, u8_value};
use crate::recording::{CHANNELS, SAMPLE_RATE};
use crate::text::{
    chars_of, decimal, decode_text, equal_ignoring_case, has_prefix, is_ascii_space,
    law_a_text_without_space_is_one_word, law_decimal_round_trip, law_words_of_two_texts,
    lemma_word_len, next_word, push_decimal, same_ignoring_case,
    starts_with, utf8_decoded, without_prefix, words,
};
use crate::wifi_config::WirelessCodec;

verus! {

pub const DISCOVERY_PORT: u16 = 47_777;

pub const WS_PORT: u16 = 47_776;

pub const WS_PATH: &'static str = "/audio";

pub const MDNS_SERVICE: &'static str = "_m5mic";

pub const MDNS_PROTO: &'static str = "_tcp";

pub const MDNS_TYPE_DOMAIN: &'static str = "_m5mic._tcp.local.";

pub const DISCOVERY_REQUEST: &'static str = "M5MIC_DISCOVER_V1";

pub const DISCOVERY_RESPONSE_PREFIX: &'static str = "M5MIC_SERVER_V1 ";

pub const RECEIVER_PRIORITY_LEGACY: u8 = 0;

pub const RECEIVER_PRIORITY_DESKTOP: u8 = 10;

pub const RECEIVER_PRIORITY_PHONE: u8 = 100;

/// How often the broadcast is sent.
pub const UDP_ROUNDS: usize = 8;

/// How often mDNS is asked.
pub const MDNS_ROUNDS: usize = 6;

/// The URL in a discovery reply: the first word after the prefix.
pub open spec fn response_url(payload: Seq<char>) -> Option<Seq<char>> {
    match without_prefix(payload, DISCOVERY_RESPONSE_PREFIX@) {
        Some(response) => if words(response).len() > 0 {
            Some(words(response)[0])
        } else {
            None
        },
        None => None,
    }
}

/// The priority in a discovery reply.
pub open spec fn response_priority(payload: Seq<char>) -> u8 {
    match without_prefix(payload, DISCOVERY_RESPONSE_PREFIX@) {
        Some(response) => first_priority(words(response)),
        None => RECEIVER_PRIORITY_LEGACY,
    }
}

pub fn discovery_response_url(payload: &str) -> (url: Option<&str>)
    ensures
        match url {
            Some(url) => response_url(payload@) == Some(url@),
            None => response_url(payload@) is None,
        },
{
    let chars = chars_of(payload);
    let prefix = chars_of(DISCOVERY_RESPONSE_PREFIX);
    if !starts_with(chars.as_slice(), prefix.as_slice()) {
        return None;
    }
    match next_word(chars.as_slice(), prefix.len()) {
        Some((start, end)) => Some(payload.substring_char(start, end)),
        None => None,
    }
}

pub fn discovery_response_priority(payload: &str) -> (priority: u8)
    ensures
        priority == response_priority(payload@),
{
    let chars = chars_of(payload);
    let prefix = chars_of(DISCOVERY_RESPONSE_PREFIX);
    if !starts_with(chars.as_slice(), prefix.as_slice()) {
        return RECEIVER_PRIORITY_LEGACY;
    }
    let response = &chars.as_slice()[prefix.len()..chars.len()];
    assert(response@ =~= chars@.skip(prefix@.len() as int));
    metadata_priority(response)
}

/// The address of a receiver.
pub open spec fn receiver_url(host: Seq<char>, port: u16, path: Seq<char>) -> Seq<char> {
    "ws://"@ + host + ":"@ + decimal(port as nat) + path
}

fn build_receiver_url(host: &str, port: u16, path: &str) -> (url: String)
    ensures
        url@ == receiver_url(host@, port, path@),
{
    let mut url = "ws://".to_owned();
    url.push_str(host);
    url.push_str(":");
    push_decimal(&mut url, port as u64);
    url.push_str(path);
    url
}

/// Whether a datagram asks receivers to answer.
pub open spec fn asks_for_receivers(payload: Seq<u8>) -> bool {
    let request = DISCOVERY_REQUEST.spec_bytes();
    request.len() <= payload.len() && payload.take(request.len() as int) == request
}

/// The reply of a receiver that is reached at `host`.
pub open spec fn reply_text(host: Seq<char>, ws_port: u16) -> Seq<char> {
    DISCOVERY_RESPONSE_PREFIX@ + receiver_url(host, ws_port, WS_PATH@) + "\n"@
}

pub fn is_discovery_request(payload: &[u8]) -> (asks: bool)
    ensures
        asks == asks_for_receivers(payload@),
{
    let request = DISCOVERY_REQUEST.as_bytes();
    if payload.len() < request.len() {
        return false;
    }
    assert(payload@.subrange(0, request@.len() as int) =~= payload@.take(request@.len() as int));
    bytes_equal(&payload[0..request.len()], request)
}

pub fn discovery_reply(host: &str, ws_port: u16) -> (reply: String)
    ensures
        reply@ == reply_text(host@, ws_port),
{
    let mut reply = DISCOVERY_RESPONSE_PREFIX.to_owned();
    let url = build_receiver_url(host, ws_port, WS_PATH);
    reply.push_str(url.as_str());
    reply.push_str("\n");
    reply
}

/// A microphone that gets a receiver's reply finds the receiver's address in it,
/// with the legacy priority.
pub proof fn law_discovery_reply_is_understood(host: Seq<char>, ws_port: u16)
    requires
        forall|i: int| 0 <= i < host.len() ==> !is_ascii_space(#[trigger] host[i]),
    ensures
        response_url(reply_text(host, ws_port)) == Some(receiver_url(host, ws_port, WS_PATH@)),
        response_priority(reply_text(host, ws_port)) == RECEIVER_PRIORITY_LEGACY,
{
    let url = receiver_url(host, ws_port, WS_PATH@);
    let reply = reply_text(host, ws_port);
    reveal_strlit("ws://");
    reveal_strlit(":");
    reveal_strlit("\n");
    reveal_strlit("/audio");
    reveal_strlit("priority=");
    law_decimal_round_trip(ws_port as nat);
    let port = decimal(ws_port as nat);
    let prefix = DISCOVERY_RESPONSE_PREFIX@;
    let response = url + "\n"@;
    assert(reply.take(prefix.len() as int) =~= prefix);
    assert(reply.skip(prefix.len() as int) =~= response);
    assert forall|i: int| 0 <= i < url.len() implies !is_ascii_space(#[trigger] response[i]) by {
        let h = host.len() as int;
        let p = port.len() as int;
        if i < 5 {
        } else if i < 5 + h {
            assert(response[i] == host[i - 5]);
        } else if i < 6 + h {
        } else if i < 6 + h + p {
            assert(response[i] == port[i - 6 - h]);
        } else {
            assert(response[i] == WS_PATH@[i - 6 - h - p]);
        }
    }
    assert(response[url.len() as int] == '\n');
    lemma_word_len(response, url.len() as int);
    assert(response.take(url.len() as int) =~= url);
    let rest = response.skip(url.len() as int);
    assert(rest =~= seq!['\n']);
    assert(rest.drop_first() =~= Seq::<char>::empty());
    assert(words(rest) =~= Seq::<Seq<char>>::empty()) by {
        reveal_with_fuel(words, 2);
    }
    assert(words(response) =~= seq![url]);
    assert(priority_in(url) is None) by {
        if has_prefix(url, "priority="@) {
            assert(url.take(9)[0] == 'p');
            assert(url[0] == 'w');
        }
    }
    assert(words(response).drop_first() =~= Seq::<Seq<char>>::empty());
    reveal_with_fuel(first_priority, 2);
}

/// A receiver that has answered.
#[derive(Debug)]
pub struct ReceiverCandidate {
    pub url: String,
    pub priority: u8,
}

/// What decides between receivers.
pub ghost struct Candidate {
    pub url: Seq<char>,
    pub priority: u8,
}

/// The candidate that is kept of two: the one with the higher priority, and the
/// later one if they are equal.
pub open spec fn replaces(current: Option<Candidate>, candidate: Candidate) -> bool {
    match current {
        Some(current) => candidate.priority >= current.priority,
        None => true,
    }
}

pub open spec fn kept_candidate(
    current: Option<Candidate>,
    candidate: Candidate,
) -> Option<Candidate> {
    if replaces(current, candidate) {
        Some(candidate)
    } else {
        current
    }
}

/// What is kept after all of `candidates`.
pub open spec fn best_candidate(candidates: Seq<Candidate>) -> Option<Candidate>
    decreases candidates.len(),
{
    if candidates.len() == 0 {
        None
    } else {
        kept_candidate(best_candidate(candidates.drop_last()), candidates.last())
    }
}

/// The candidate that is kept is one of those that answered, and none of them has
/// a higher priority.
pub proof fn law_best_candidate_has_the_highest_priority(candidates: Seq<Candidate>)
    requires
        candidates.len() > 0,
    ensures
        best_candidate(candidates) is Some,
        candidates.contains(best_candidate(candidates)->0),
        forall|i: int|
            0 <= i < candidates.len() ==> (#[trigger] candidates[i]).priority <= best_candidate(
                candidates,
            )->0.priority,
    decreases candidates.len(),
{
    let shorter = candidates.drop_last();
    assert(candidates[candidates.len() - 1] == candidates.last());
    if shorter.len() > 0 {
        law_best_candidate_has_the_highest_priority(shorter);
        let best = best_candidate(shorter)->0;
        let k = choose|k: int| 0 <= k < shorter.len() && shorter[k] == best;
        assert(candidates[k] == best);
        assert forall|i: int| 0 <= i < candidates.len() implies (#[trigger] candidates[i]).priority
            <= best_candidate(candidates)->0.priority by {
            if i < shorter.len() {
                assert(shorter[i] == candidates[i]);
            }
        }
    }
}

pub open spec fn candidate_view(candidate: Option<ReceiverCandidate>) -> Option<Candidate> {
    match candidate {
        Some(candidate) => Some(Candidate { url: candidate.url@, priority: candidate.priority }),
        None => None,
    }
}

pub fn should_replace(current: &Option<ReceiverCandidate>, candidate: &ReceiverCandidate) -> (replace:
    bool)
    ensures
        replace == replaces(
            candidate_view(*current),
            (Candidate { url: candidate.url@, priority: candidate.priority }),
        ),
{
    match current {
        Some(current) => candidate.priority >= current.priority,
        None => true,
    }
}

/// What has been found so far.
#[derive(Debug)]
pub struct Search {
    best: Option<ReceiverCandidate>,
}

impl View for Search {
    type V = Option<Candidate>;

    closed spec fn view(&self) -> Option<Candidate> {
        candidate_view(self.best)
    }
}

pub open spec fn is_phone(candidate: Option<Candidate>) -> bool {
    candidate is Some && candidate->0.priority >= RECEIVER_PRIORITY_PHONE
}

impl Search {
    pub fn new() -> (search: Search)
        ensures
            search@ is None,
    {
        Search { best: None }
    }

    pub fn offer(&mut self, candidate: ReceiverCandidate)
        ensures
            final(self)@ == kept_candidate(
                old(self)@,
                (Candidate { url: candidate.url@, priority: candidate.priority }),
            ),
    {
        if should_replace(&self.best, &candidate) {
            self.best = Some(candidate);
        }
    }

    /// Whether a phone has been found, which ends the search at once.
    pub fn found_phone(&self) -> (found: bool)
        ensures
            found == is_phone(self@),
    {
        match &self.best {
            Some(candidate) => candidate.priority >= RECEIVER_PRIORITY_PHONE,
            None => false,
        }
    }

    pub fn best_url(&self) -> (url: Option<String>)
        ensures
            match url {
                Some(url) => self@ is Some && url@ == self@->0.url,
                None => self@ is None,
            },
    {
        match &self.best {
            Some(candidate) => Some(candidate.url.as_str().to_owned()),
            None => None,
        }
    }
}

/// What the broadcast search does next.
#[derive(Debug)]
pub enum UdpStep {
    /// Send the request, and then listen; `round` counts from zero.
    Send { round: usize },
    /// Listen until something arrives or nothing does for a while.
    Listen,
    /// The search ends with this receiver.
    Found(String),
    /// A reply was not text: the search fails.
    BadReply,
    /// Nobody answered in any round.
    NotFound,
}

/// The broadcast search, between two things that happen to it.
#[derive(Debug)]
pub struct UdpSearch {
    pub round: usize,
    pub search: Search,
}

impl UdpSearch {
    pub open spec fn wf(self) -> bool {
        self.round < UDP_ROUNDS
    }

    pub fn start() -> (result: (UdpSearch, UdpStep))
        ensures
            result.0.wf(),
            result.0.round == 0,
            result.0.search@ is None,
            result.1 == (UdpStep::Send { round: 0 }),
    {
        (UdpSearch { round: 0, search: Search::new() }, UdpStep::Send { round: 0 })
    }

    /// A datagram has arrived.
    pub fn on_datagram(&mut self, payload: &[u8]) -> (step: UdpStep)
        requires
            old(self).wf(),
        ensures
            final(self).wf(),
            final(self).round == old(self).round,
            match utf8_decoded(payload@) {
                None => step is BadReply && final(self).search@ == old(self).search@,
                Some(text) => match response_url(text) {
                    None => step is Listen && final(self).search@ == old(self).search@,
                    Some(url) => {
                        let kept = kept_candidate(
                            old(self).search@,
                            (Candidate { url, priority: response_priority(text) }),
                        );
                        &&& final(self).search@ == kept
                        &&& if is_phone(kept) {
                            step matches UdpStep::Found(found) && found@ == kept->0.url
                        } else {
                            step is Listen
                        }
                    },
                },
            },
    {
        let text = match decode_text(payload) {
            Some(text) => text,
            None => return UdpStep::BadReply,
        };
        let url = match discovery_response_url(text) {
            Some(url) => url.to_owned(),
            None => return UdpStep::Listen,
        };
        self.search.offer(
            ReceiverCandidate { url, priority: discovery_response_priority(text) },
        );
        if self.search.found_phone() {
            if let Some(url) = self.search.best_url() {
                return UdpStep::Found(url);
            }
        }
        UdpStep::Listen
    }

    /// Nothing more has arrived for a while: any receiver found so far is taken,
    /// and otherwise the next round begins.
    pub fn on_quiet(&mut self) -> (step: UdpStep)
        requires
            old(self).wf(),
        ensures
            final(self).wf(),
            final(self).search@ == old(self).search@,
            match old(self).search@ {
                Some(best) => {
                    &&& step matches UdpStep::Found(found) && found@ == best.url
                    &&& final(self).round == old(self).round
                },
                None => if old(self).round + 1 < UDP_ROUNDS {
                    &&& step == (UdpStep::Send { round: (old(self).round + 1) as usize })
                    &&& final(self).round == old(self).round + 1
                } else {
                    &&& step is NotFound
                    &&& final(self).round == old(self).round
                },
            },
    {
        if let Some(url) = self.search.best_url() {
            return UdpStep::Found(url);
        }
        if self.round + 1 < UDP_ROUNDS {
            self.round = self.round + 1;
            UdpStep::Send { round: self.round }
        } else {
            UdpStep::NotFound
        }
    }
}

/// What mDNS says of a receiver.
#[derive(Debug)]
pub struct MdnsAnswer {
    pub port: u16,
    /// Its first IPv4 address, if it has one.
    pub ipv4: Option<String>,
    pub txt: Vec<(String, String)>,
}

/// The value of the first of `txt` whose key is `key`.
pub open spec fn txt_entry(txt: Seq<(String, String)>, key: Seq<char>) -> Option<Seq<char>>
    decreases txt.len(),
{
    if txt.len() == 0 {
        None
    } else if same_ignoring_case(txt[0].0@, key) {
        Some(txt[0].1@)
    } else {
        txt_entry(txt.drop_first(), key)
    }
}

pub fn txt_value<'a>(txt: &'a Vec<(String, String)>, key: &str) -> (value: Option<&'a str>)
    ensures
        match value {
            Some(value) => txt_entry(txt@, key@) == Some(value@),
            None => txt_entry(txt@, key@) is None,
        },
{
    let mut i: usize = 0;
    assert(txt@.skip(0) =~= txt@);
    while i < txt.len()
        invariant
            i <= txt@.len(),
            txt_entry(txt@, key@) == txt_entry(txt@.skip(i as int), key@),
        decreases txt@.len() - i,
    {
        assert(txt@.skip(i as int)[0] == txt@[i as int]);
        assert(txt@.skip(i as int).drop_first() =~= txt@.skip(i + 1));
        if equal_ignoring_case(txt[i].0.as_str(), key) {
            return Some(txt[i].1.as_str());
        }
        i += 1;
    }
    None
}

/// The priority that `txt` gives.
pub open spec fn txt_priority_of(txt: Seq<(String, String)>) -> u8 {
    match txt_entry(txt, "priority"@) {
        Some(value) => match u8_value(value) {
            Some(priority) => priority,
            None => RECEIVER_PRIORITY_LEGACY,
        },
        None => RECEIVER_PRIORITY_LEGACY,
    }
}

pub fn txt_priority(txt: &Vec<(String, String)>) -> (priority: u8)
    ensures
        priority == txt_priority_of(txt@),
{
    match txt_value(txt, "priority") {
        Some(value) => {
            let chars = chars_of(value);
            match parse_u8(chars.as_slice()) {
                Some(priority) => priority,
                None => RECEIVER_PRIORITY_LEGACY,
            }
        },
        None => RECEIVER_PRIORITY_LEGACY,
    }
}

/// The candidate in an answer: it needs a port and an address.
pub open spec fn answer_candidate(answer: MdnsAnswer) -> Option<Candidate> {
    if answer.port == 0 || answer.ipv4 is None {
        None
    } else {
        let path = match txt_entry(answer.txt@, "path"@) {
            Some(path) => path,
            None => WS_PATH@,
        };
        Some(
            Candidate {
                url: receiver_url(answer.ipv4->0@, answer.port, path),
                priority: txt_priority_of(answer.txt@),
            },
        )
    }
}

/// The text of a list of entries.
pub open spec fn txt_text(txt: Seq<(String, String)>) -> Seq<(Seq<char>, Seq<char>)> {
    Seq::new(txt.len(), |i: int| (txt[i].0@, txt[i].1@))
}

/// What a receiver says of itself over mDNS.
pub open spec fn announced() -> Seq<(Seq<char>, Seq<char>)> {
    seq![
        ("path"@, WS_PATH@),
        ("codec"@, "pcm_s16le"@),
        ("codecs"@, "pcm_s16le,ima_adpcm4"@),
        ("sample_rate"@, "16000"@),
        ("channels"@, "1"@),
        ("udp_discovery_port"@, "47777"@),
    ]
}

fn push_entry(txt: &mut Vec<(String, String)>, key: &str, value: &str)
    ensures
        txt_text(final(txt)@) == txt_text(old(txt)@).push((key@, value@)),
{
    txt.push((key.to_owned(), value.to_owned()));
    assert(txt_text(txt@) =~= txt_text(old(txt)@).push((key@, value@)));
}

/// The entries with which a receiver announces itself over mDNS.
pub fn announcement() -> (txt: Vec<(String, String)>)
    ensures
        txt_text(txt@) == announced(),
{
    let mut txt: Vec<(String, String)> = Vec::new();
    push_entry(&mut txt, "path", WS_PATH);
    push_entry(&mut txt, "codec", "pcm_s16le");
    push_entry(&mut txt, "codecs", "pcm_s16le,ima_adpcm4");
    push_entry(&mut txt, "sample_rate", "16000");
    push_entry(&mut txt, "channels", "1");
    push_entry(&mut txt, "udp_discovery_port", "47777");
    assert(txt_text(txt@) =~= announced());
    txt
}

/// If every entry whose key is `key` has the value `value`, that is what is found,
/// and it is found if there is such an entry.
proof fn lemma_txt_entry(txt: Seq<(String, String)>, key: Seq<char>, value: Seq<char>)
    requires
        forall|i: int|
            0 <= i < txt.len() && same_ignoring_case((#[trigger] txt[i]).0@, key) ==> txt[i].1@
                == value,
    ensures
        txt_entry(txt, key) == if exists|i: int|
            0 <= i < txt.len() && same_ignoring_case((#[trigger] txt[i]).0@, key) {
            Some(value)
        } else {
            None
        },
    decreases txt.len(),
{
    if txt.len() > 0 && !same_ignoring_case(txt[0].0@, key) {
        let rest = txt.drop_first();
        assert(forall|i: int| 0 <= i < rest.len() ==> #[trigger] rest[i] == txt[i + 1]);
        lemma_txt_entry(rest, key, value);
        if exists|i: int| 0 <= i < txt.len() && same_ignoring_case((#[trigger] txt[i]).0@, key) {
            let i = choose|i: int|
                0 <= i < txt.len() && same_ignoring_case((#[trigger] txt[i]).0@, key);
            assert(rest[i - 1] == txt[i]);
        }
    }
}

/// The microphone understands what a receiver announces: whatever order the entries
/// come in, it makes of them the address of the receiver.
pub proof fn law_the_announcement_is_understood(answer: MdnsAnswer)
    requires
        txt_text(answer.txt@).to_set() == announced().to_set(),
        answer.port != 0,
        answer.ipv4 is Some,
    ensures
        answer_candidate(answer) == Some(
            Candidate {
                url: receiver_url(answer.ipv4->0@, answer.port, WS_PATH@),
                priority: RECEIVER_PRIORITY_LEGACY,
            },
        ),
{
    let txt = answer.txt@;
    let text = txt_text(txt);
    reveal_strlit("path");
    reveal_strlit("codec");
    reveal_strlit("codecs");
    reveal_strlit("sample_rate");
    reveal_strlit("channels");
    reveal_strlit("udp_discovery_port");
    reveal_strlit("priority");
    assert("channels"@[0] == 'c' && "priority"@[0] == 'p');
    assert forall|i: int| 0 <= i < txt.len() implies {
        &&& same_ignoring_case((#[trigger] txt[i]).0@, "path"@) ==> txt[i].1@ == WS_PATH@
        &&& !same_ignoring_case(txt[i].0@, "priority"@)
    } by {
        assert(text[i] == (txt[i].0@, txt[i].1@));
        assert(text.to_set().contains(text[i]));
        assert(announced().contains(text[i]));
    }
    assert(exists|i: int| 0 <= i < txt.len() && same_ignoring_case(
        (#[trigger] txt[i]).0@,
        "path"@,
    )) by {
        assert(announced()[0] == ("path"@, WS_PATH@));
        assert(text.to_set().contains(("path"@, WS_PATH@)));
        assert(text.contains(("path"@, WS_PATH@)));
        let i = choose|i: int| 0 <= i < text.len() && text[i] == ("path"@, WS_PATH@);
        assert(txt[i].0@ == "path"@);
        assert(same_ignoring_case(txt[i].0@, "path"@));
    }
    lemma_txt_entry(txt, "path"@, WS_PATH@);
    lemma_txt_entry(txt, "priority"@, Seq::empty());
}

/// What is kept after `answers`.
pub open spec fn kept_of_answers(
    current: Option<Candidate>,
    answers: Seq<MdnsAnswer>,
) -> Option<Candidate>
    decreases answers.len(),
{
    if answers.len() == 0 {
        current
    } else {
        let before = kept_of_answers(current, answers.drop_last());
        match answer_candidate(answers.last()) {
            Some(candidate) => kept_candidate(before, candidate),
            None => before,
        }
    }
}

fn candidate_in(answer: &MdnsAnswer) -> (candidate: Option<ReceiverCandidate>)
    ensures
        candidate_view(candidate) == answer_candidate(*answer),
{
    if answer.port == 0 {
        return None;
    }
    let path = match txt_value(&answer.txt, "path") {
        Some(path) => path,
        None => WS_PATH,
    };
    match &answer.ipv4 {
        Some(host) => Some(
            ReceiverCandidate {
                url: build_receiver_url(host.as_str(), answer.port, path),
                priority: txt_priority(&answer.txt),
            },
        ),
        None => None,
    }
}

/// What the mDNS search does next.
#[derive(Debug)]
pub enum MdnsStep {
    /// Ask; `round` counts from zero.
    Query { round: usize },
    Found(String),
    NotFound,
}

/// The mDNS search, between two answers.
#[derive(Debug)]
pub struct MdnsSearch {
    pub round: usize,
    pub search: Search,
}

impl MdnsSearch {
    pub open spec fn wf(self) -> bool {
        self.round < MDNS_ROUNDS
    }

    pub fn start() -> (result: (MdnsSearch, MdnsStep))
        ensures
            result.0.wf(),
            result.0.round == 0,
            result.0.search@ is None,
            result.1 == (MdnsStep::Query { round: 0 }),
    {
        (MdnsSearch { round: 0, search: Search::new() }, MdnsStep::Query { round: 0 })
    }

    /// The answers of a round are in. The search goes on to the last round unless
    /// a phone has answered.
    pub fn on_answers(&mut self, answers: &Vec<MdnsAnswer>) -> (step: MdnsStep)
        requires
            old(self).wf(),
        ensures
            final(self).wf(),
            final(self).search@ == kept_of_answers(old(self).search@, answers@),
            ({
                let kept = kept_of_answers(old(self).search@, answers@);
                if !is_phone(kept) && old(self).round + 1 < MDNS_ROUNDS {
                    &&& step == (MdnsStep::Query { round: (old(self).round + 1) as usize })
                    &&& final(self).round == old(self).round + 1
                } else {
                    &&& final(self).round == old(self).round
                    &&& match kept {
                        Some(best) => step matches MdnsStep::Found(found) && found@ == best.url,
                        None => step is NotFound,
                    }
                }
            }),
    {
        let ghost before = self.search@;
        let mut i: usize = 0;
        assert(answers@.take(0) =~= Seq::<MdnsAnswer>::empty());
        while i < answers.len()
            invariant
                i <= answers@.len(),
                self.round == old(self).round,
                self.search@ == kept_of_answers(before, answers@.take(i as int)),
            decreases answers@.len() - i,
        {
            assert(answers@.take(i + 1).drop_last() =~= answers@.take(i as int));
            if let Some(candidate) = candidate_in(&answers[i]) {
                self.search.offer(candidate);
            }
            i += 1;
        }
        assert(answers@.take(i as int) =~= answers@);
        if !self.search.found_phone() && self.round + 1 < MDNS_ROUNDS {
            self.round = self.round + 1;
            return MdnsStep::Query { round: self.round };
        }
        match self.search.best_url() {
            Some(url) => MdnsStep::Found(url),
            None => MdnsStep::NotFound,
        }
    }
}

/// A way to find the receiver.
#[derive(Debug, Clone, Copy, PartialEq, Eq, Structural)]
pub enum DiscoveryMethod {
    /// The address that the firmware was built with.
    Configured,
    Mdns,
    Udp,
}

/// The ways to find the receiver, in the order in which they are tried.
pub open spec fn discovery_order(configured: bool) -> Seq<DiscoveryMethod> {
    if configured {
        seq![DiscoveryMethod::Configured]
    } else {
        seq![DiscoveryMethod::Mdns, DiscoveryMethod::Udp]
    }
}

/// The way to try once `failed` ways have been tried and found nothing.
pub fn next_method(configured: bool, failed: usize) -> (next: Option<DiscoveryMethod>)
    ensures
        next == if failed < discovery_order(configured).len() {
            Some(discovery_order(configured)[failed as int])
        } else {
            None
        },
{
    if configured {
        if failed == 0 {
            Some(DiscoveryMethod::Configured)
        } else {
            None
        }
    } else if failed == 0 {
        Some(DiscoveryMethod::Mdns)
    } else if failed == 1 {
        Some(DiscoveryMethod::Udp)
    } else {
        None
    }
}

impl DiscoveryMethod {
    /// The number of rounds of the ways that come before, for showing progress.
    pub fn first_progress_step(self) -> (step: usize)
        ensures
            step == match self {
                DiscoveryMethod::Udp => MDNS_ROUNDS,
                _ => 0,
            },
    {
        match self {
            DiscoveryMethod::Udp => MDNS_ROUNDS,
            _ => 0,
        }
    }
}

/// A datagram asks receivers to answer if and only if it begins with the request;
/// whatever follows does not matter.
pub proof fn law_requests_are_recognised(payload: Seq<u8>, rest: Seq<u8>)
    ensures
        asks_for_receivers("M5MIC_DISCOVER_V1".spec_bytes() + rest),
        asks_for_receivers(payload) ==> payload == "M5MIC_DISCOVER_V1".spec_bytes() + payload.skip(
            "M5MIC_DISCOVER_V1".spec_bytes().len() as int,
        ),
{
    let request = "M5MIC_DISCOVER_V1".spec_bytes();
    assert((request + rest).take(request.len() as int) =~= request);
    if asks_for_receivers(payload) {
        let n = request.len() as int;
        assert(payload =~= payload.take(n) + payload.skip(n));
    }
}

/// A reply gives its first word as the address, whatever follows, and the priority that
/// it says.
pub proof fn law_a_reply_gives_address_and_priority(url: Seq<char>, priority: u8, rest: Seq<char>)
    requires
        url.len() > 0,
        !has_prefix(url, "priority="@),
        forall|i: int|
            0 <= i < url.len() ==> #[trigger] url[i] != ' ' && url[i] != '\t' && url[i] != '\n'
                && url[i] != '\x0C' && url[i] != '\r',
    ensures
        ({
            let word = "priority="@ + decimal(priority as nat);
            let reply = "M5MIC_SERVER_V1 "@ + (url + seq![' '] + (word + seq![' '] + rest));
            &&& response_url(reply) == Some(url)
            &&& response_priority(reply) == priority
        }),
{
    let word = "priority="@ + decimal(priority as nat);
    let after = word + seq![' '] + rest;
    let response = url + seq![' '] + after;
    let reply = "M5MIC_SERVER_V1 "@ + response;
    reveal_strlit("M5MIC_SERVER_V1 ");
    reveal_strlit("priority=");
    assert(reply.take(16) =~= "M5MIC_SERVER_V1 "@);
    assert(reply.skip(16) =~= response);
    law_decimal_round_trip(priority as nat);
    assert forall|i: int| 0 <= i < word.len() implies #[trigger] word[i] != ' ' && word[i] != '\t'
        && word[i] != '\n' && word[i] != '\x0C' && word[i] != '\r' by {
        if i >= 9 {
            assert(word[i] == decimal(priority as nat)[i - 9]);
        }
    }
    law_a_text_without_space_is_one_word(url);
    law_a_text_without_space_is_one_word(word);
    law_words_of_two_texts(url, ' ', after);
    law_words_of_two_texts(word, ' ', rest);
    let all = words(response);
    assert(all[0] == url);
    assert(all.drop_first() =~= words(after));
    assert(words(after)[0] == word);
    assert(word.take(9) =~= "priority="@);
    assert(word.skip(9) =~= decimal(priority as nat));
    assert(priority_in(word) == Some(priority));
    reveal_with_fuel(first_priority, 3);
}

/// Anything that does not begin as a reply is none, and has the legacy priority.
pub proof fn law_other_texts_are_no_replies(text: Seq<char>)
    requires
        !has_prefix(text, "M5MIC_SERVER_V1 "@),
    ensures
        response_url(text) is None,
        response_priority(text) == 0,
{
}

/// Of several candidates with the highest priority, the last one is kept.
pub proof fn law_the_latest_of_the_best_is_kept(candidates: Seq<Candidate>)
    requires
        candidates.len() > 0,
    ensures
        exists|k: int|
            0 <= k < candidates.len() && best_candidate(candidates) == Some(
                #[trigger] candidates[k],
            ) && forall|j: int|
                k < j < candidates.len() ==> (#[trigger] candidates[j]).priority
                    < candidates[k].priority,
    decreases candidates.len(),
{
    let shorter = candidates.drop_last();
    let n = shorter.len() as int;
    assert(candidates[n] == candidates.last());
    if shorter.len() > 0 {
        law_the_latest_of_the_best_is_kept(shorter);
        let k = choose|k: int|
            0 <= k < shorter.len() && best_candidate(shorter) == Some(#[trigger] shorter[k])
                && forall|j: int|
                k < j < shorter.len() ==> (#[trigger] shorter[j]).priority < shorter[k].priority;
        assert(candidates[k] == shorter[k]);
        if candidates[n].priority < candidates[k].priority {
            assert forall|j: int| k < j < candidates.len() implies (
            #[trigger] candidates[j]).priority < candidates[k].priority by {
                if j < n {
                    assert(shorter[j] == candidates[j]);
                }
            }
        }
    }
}

/// No usable answer is stronger than the one that is kept, and that one is among the
/// answers unless it was there before.
pub proof fn law_no_answer_is_passed_over(
    current: Option<Candidate>,
    answers: Seq<MdnsAnswer>,
    k: int,
)
    requires
        0 <= k < answers.len(),
        answer_candidate(answers[k]) is Some,
    ensures
        kept_of_answers(current, answers) matches Some(kept) && kept.priority >= answer_candidate(
            answers[k],
        )->0.priority,
    decreases answers.len(),
{
    if k < answers.len() - 1 {
        assert(answers.drop_last()[k] == answers[k]);
        law_no_answer_is_passed_over(current, answers.drop_last(), k);
    }
}

/// An answer without a port or an address is of no use. Any other gives the address of
/// its host and port, with the path that it says, or else the usual one, and the priority
/// that it says, or else none.
pub proof fn law_answers_say_where_the_receiver_is(answer: MdnsAnswer, path: Seq<char>, priority: u8)
    ensures
        answer.port == 0 || answer.ipv4 is None ==> answer_candidate(answer) is None,
        answer.port != 0 && answer.ipv4 is Some ==> {
            &&& answer_candidate(answer) is Some
            &&& txt_entry(answer.txt@, "path"@) == Some(path) ==> answer_candidate(answer)->0.url
                == "ws://"@ + answer.ipv4->0@ + ":"@ + decimal(answer.port as nat) + path
            &&& txt_entry(answer.txt@, "path"@) is None ==> answer_candidate(answer)->0.url
                == "ws://"@ + answer.ipv4->0@ + ":"@ + decimal(answer.port as nat) + "/audio"@
            &&& txt_entry(answer.txt@, "priority"@) == Some(decimal(priority as nat))
                ==> answer_candidate(answer)->0.priority == priority
            &&& txt_entry(answer.txt@, "priority"@) is None ==> answer_candidate(
                answer,
            )->0.priority == 0
        },
{
    law_decimal_round_trip(priority as nat);
}

/// A receiver is a phone from priority 100 on, which ends the search.
pub proof fn law_phones_have_priority_100(candidate: Candidate)
    ensures
        is_phone(Some(candidate)) <==> candidate.priority >= 100,
        !is_phone(None),
{
}

/// mDNS is asked before the broadcast, each once, unless an address is configured.
pub proof fn law_each_way_is_tried_once()
    ensures
        discovery_order(true) == seq![DiscoveryMethod::Configured],
        discovery_order(false).no_duplicates(),
        discovery_order(false)[0] == DiscoveryMethod::Mdns,
        discovery_order(false).contains(DiscoveryMethod::Udp),
        !discovery_order(false).contains(DiscoveryMethod::Configured),
{
    assert(discovery_order(false)[1] == DiscoveryMethod::Udp);
}

/// What a receiver says of itself is what it is: it takes what the microphone records,
/// in either codec, and answers on its discovery port.
pub proof fn law_the_announcement_is_true()
    ensures
        announced().contains(("sample_rate"@, decimal(SAMPLE_RATE as nat))),
        announced().contains(("channels"@, decimal(CHANNELS as nat))),
        announced().contains(("udp_discovery_port"@, decimal(DISCOVERY_PORT as nat))),
        announced().contains(("path"@, WS_PATH@)),
        announced().contains(("codec"@, WirelessCodec::PcmS16Le.name()@)),
        announced().contains(
            (
                "codecs"@,
                WirelessCodec::PcmS16Le.name()@ + ","@ + WirelessCodec::ImaAdpcm4.name()@,
            ),
        ),
{
    reveal_with_fuel(decimal, 6);
    reveal_strlit("16000");
    reveal_strlit("1");
    reveal_strlit("47777");
    reveal_strlit("pcm_s16le,ima_adpcm4");
    reveal_strlit("pcm_s16le");
    reveal_strlit("ima_adpcm4");
    reveal_strlit(",");
    assert("16000"@ =~= decimal(16_000));
    assert("1"@ =~= decimal(1));
    assert("47777"@ =~= decimal(47_777));
    assert("pcm_s16le,ima_adpcm4"@ =~= "pcm_s16le"@ + ","@ + "ima_adpcm4"@);
    assert(announced()[0] == ("path"@, WS_PATH@));
    assert(announced()[1] == ("codec"@, "pcm_s16le"@));
    assert(announced()[2] == ("codecs"@, "pcm_s16le,ima_adpcm4"@));
    assert(announced()[3] == ("sample_rate"@, "16000"@));
    assert(announced()[4] == ("channels"@, "1"@));
    assert(announced()[5] == ("udp_discovery_port"@, "47777"@));
}

} // verus!
