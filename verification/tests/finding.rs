use m5mic::discovery::{
    announcement, discovery_reply, discovery_response_priority, discovery_response_url,
    is_discovery_request, next_method, should_replace, txt_priority, txt_value, DiscoveryMethod,
    MdnsAnswer, MdnsSearch, MdnsStep, ReceiverCandidate, Search, UdpSearch, UdpStep,
    DISCOVERY_PORT, DISCOVERY_REQUEST, MDNS_ROUNDS, UDP_ROUNDS,
};

fn candidate(url: &str, priority: u8) -> ReceiverCandidate {
    ReceiverCandidate {
        url: url.to_string(),
        priority,
    }
}

fn answer(port: u16, ipv4: Option<&str>, txt: &[(&str, &str)]) -> MdnsAnswer {
    MdnsAnswer {
        port,
        ipv4: ipv4.map(str::to_string),
        txt: txt
            .iter()
            .map(|(key, value)| (key.to_string(), value.to_string()))
            .collect(),
    }
}

#[test]
fn replies_are_understood() {
    assert!(is_discovery_request(DISCOVERY_REQUEST.as_bytes()));
    assert!(is_discovery_request(b"M5MIC_DISCOVER_V1 and more"));
    assert!(!is_discovery_request(b"M5MIC_DISCOVER_V"));
    let reply = discovery_reply("192.168.1.10", 47_776);
    assert_eq!(reply, "M5MIC_SERVER_V1 ws://192.168.1.10:47776/audio\n");
    assert_eq!(
        discovery_response_url(&reply),
        Some("ws://192.168.1.10:47776/audio")
    );
    assert_eq!(discovery_response_priority(&reply), 0);
}

#[test]
fn other_replies_are_not() {
    assert_eq!(discovery_response_url("M5MIC_SERVER_V1"), None);
    assert_eq!(discovery_response_url("M5MIC_SERVER_V1   \n"), None);
    assert_eq!(discovery_response_url(" M5MIC_SERVER_V1 ws://a"), None);
    assert_eq!(discovery_response_url("M5MIC_SERVER_V1 \tws://a b"), Some("ws://a"));
    assert_eq!(discovery_response_priority("priority=5"), 0);
    assert_eq!(discovery_response_priority("M5MIC_SERVER_V1 ws://a priority=5"), 5);
}

#[test]
fn the_latest_of_the_strongest_is_kept() {
    assert!(should_replace(&None, &candidate("a", 0)));
    assert!(should_replace(&Some(candidate("a", 5)), &candidate("b", 5)));
    assert!(!should_replace(&Some(candidate("a", 5)), &candidate("b", 4)));
    let mut search = Search::new();
    assert_eq!(search.best_url(), None);
    search.offer(candidate("a", 5));
    search.offer(candidate("b", 5));
    search.offer(candidate("c", 4));
    assert_eq!(search.best_url().as_deref(), Some("b"));
    assert!(!search.found_phone());
    search.offer(candidate("d", 100));
    assert!(search.found_phone());
    assert_eq!(search.best_url().as_deref(), Some("d"));
}

#[test]
fn a_broadcast_search_ends_with_a_phone() {
    let (mut search, step) = UdpSearch::start();
    assert!(matches!(step, UdpStep::Send { round: 0 }));
    assert!(matches!(search.on_datagram(b"hello"), UdpStep::Listen));
    assert!(matches!(search.on_datagram(&[0xff]), UdpStep::BadReply));
    assert!(matches!(
        search.on_datagram(b"M5MIC_SERVER_V1 ws://desk priority=10"),
        UdpStep::Listen
    ));
    match search.on_datagram(b"M5MIC_SERVER_V1 ws://phone priority=100") {
        UdpStep::Found(url) => assert_eq!(url, "ws://phone"),
        other => panic!("{other:?}"),
    }
}

#[test]
fn a_broadcast_search_takes_what_it_has_when_all_is_quiet() {
    let (mut search, _) = UdpSearch::start();
    for round in 1..UDP_ROUNDS {
        match search.on_quiet() {
            UdpStep::Send { round: sent } => assert_eq!(sent, round),
            other => panic!("{other:?}"),
        }
    }
    assert!(matches!(search.on_quiet(), UdpStep::NotFound));
    search.on_datagram(b"M5MIC_SERVER_V1 ws://desk");
    match search.on_quiet() {
        UdpStep::Found(url) => assert_eq!(url, "ws://desk"),
        other => panic!("{other:?}"),
    }
}

#[test]
fn txt_records_are_read() {
    let found = answer(
        1,
        None,
        &[("Path", "/a"), ("path", "/b"), ("PRIORITY", "7")],
    );
    assert_eq!(txt_value(&found.txt, "path"), Some("/a"));
    assert_eq!(txt_value(&found.txt, "codec"), None);
    assert_eq!(txt_priority(&found.txt), 7);
    assert_eq!(txt_priority(&answer(1, None, &[("priority", "x")]).txt), 0);
    assert_eq!(txt_priority(&answer(1, None, &[]).txt), 0);
}

#[test]
fn an_mdns_search_goes_through_its_rounds() {
    let (mut search, step) = MdnsSearch::start();
    assert!(matches!(step, MdnsStep::Query { round: 0 }));
    let unusable = vec![
        answer(0, Some("10.0.0.1"), &[]),
        answer(80, None, &[("priority", "100")]),
    ];
    for round in 1..MDNS_ROUNDS {
        match search.on_answers(&unusable) {
            MdnsStep::Query { round: asked } => assert_eq!(asked, round),
            other => panic!("{other:?}"),
        }
    }
    assert!(matches!(search.on_answers(&unusable), MdnsStep::NotFound));
    match search.on_answers(&vec![answer(8080, Some("10.0.0.2"), &[])]) {
        MdnsStep::Found(url) => assert_eq!(url, "ws://10.0.0.2:8080/audio"),
        other => panic!("{other:?}"),
    }
}

#[test]
fn an_mdns_search_ends_with_a_phone() {
    let (mut search, _) = MdnsSearch::start();
    let answers = vec![
        answer(1, Some("10.0.0.1"), &[("priority", "10")]),
        answer(2, Some("10.0.0.2"), &[("path", "/mic"), ("priority", "100")]),
        answer(3, Some("10.0.0.3"), &[]),
    ];
    match search.on_answers(&answers) {
        MdnsStep::Found(url) => assert_eq!(url, "ws://10.0.0.2:2/mic"),
        other => panic!("{other:?}"),
    }
}

#[test]
fn receivers_are_looked_for_in_order() {
    assert_eq!(next_method(true, 0), Some(DiscoveryMethod::Configured));
    assert_eq!(next_method(true, 1), None);
    assert_eq!(next_method(false, 0), Some(DiscoveryMethod::Mdns));
    assert_eq!(next_method(false, 1), Some(DiscoveryMethod::Udp));
    assert_eq!(next_method(false, 2), None);
    assert_eq!(next_method(false, usize::MAX), None);
    assert_eq!(DiscoveryMethod::Mdns.first_progress_step(), 0);
    assert_eq!(DiscoveryMethod::Udp.first_progress_step(), 6);
}

#[test]
fn the_announcement_is_understood() {
    let txt = announcement();
    let pairs: Vec<(&str, &str)> = txt.iter().map(|(k, v)| (k.as_str(), v.as_str())).collect();
    assert_eq!(
        pairs,
        [
            ("path", "/audio"),
            ("codec", "pcm_s16le"),
            ("codecs", "pcm_s16le,ima_adpcm4"),
            ("sample_rate", "16000"),
            ("channels", "1"),
            ("udp_discovery_port", "47777"),
        ]
    );
    assert_eq!(pairs[5].1, DISCOVERY_PORT.to_string());
    let turned: Vec<(&str, &str)> = pairs.iter().rev().copied().collect();
    for entries in [pairs, turned] {
        let (mut search, _) = MdnsSearch::start();
        for round in 1..6 {
            let heard = search.on_answers(&vec![answer(47_776, Some("10.0.0.7"), &entries)]);
            match heard {
                MdnsStep::Query { round: next } => assert_eq!(next, round),
                other => panic!("{other:?}"),
            }
        }
        match search.on_answers(&vec![]) {
            MdnsStep::Found(url) => assert_eq!(url, "ws://10.0.0.7:47776/audio"),
            other => panic!("{other:?}"),
        }
    }
}
