use rsubdomain::control::{drain_step, handle_timeout_entry};
use rsubdomain::handle::{process_dns_response, DiscoveredDomain};
use rsubdomain::local_struct::LocalRetryStruct;
use rsubdomain::model::{EthTable, StatusTable};
use rsubdomain::send::SendDog;
use rsubdomain::speed::BandwidthLimiter;
use rsubdomain::state::BruteForceState;
use rsubdomain::tags::{generate_flag_index_from_map, generate_map_index, is_good_free_entry};

fn test_ether() -> EthTable {
    EthTable {
        src_ip: [192, 168, 1, 2],
        device: "eth0".to_string(),
        src_mac: [2, 0, 0, 0, 0, 1],
        dst_mac: [2, 0, 0, 0, 0, 2],
    }
}

#[test]
fn test_state_isolation() {
    let mut state1 = BruteForceState::new();
    let mut state2 = BruteForceState::new();

    let domain1 = DiscoveredDomain {
        domain: "test1.example.com".to_string(),
        ip: "192.168.1.1".to_string(),
        record_type: "A".to_string(),
        timestamp: chrono::Utc::now().timestamp() as u64,
    };

    let domain2 = DiscoveredDomain {
        domain: "test2.example.com".to_string(),
        ip: "192.168.1.2".to_string(),
        record_type: "A".to_string(),
        timestamp: chrono::Utc::now().timestamp() as u64,
    };

    state1.add_discovered_domain(domain1);
    state2.add_discovered_domain(domain2);

    assert_eq!(state1.get_discovered_domains().len(), 1);
    assert_eq!(state2.get_discovered_domains().len(), 1);
    assert_ne!(
        state1.get_discovered_domains()[0].domain,
        state2.get_discovered_domains()[0].domain
    );
}

#[test]
fn map_index_round_trip() {
    let idx = generate_map_index(7, 10001);
    assert_eq!(idx, 7 * 60000 + 10001);
    let (f, s) = generate_flag_index_from_map(idx as usize);
    assert_eq!((f, s), (7, 10001));
    assert!(is_good_free_entry(idx as usize));
    // The band's top slot aliases slot zero of the next band and is not
    // recycled.
    let top = generate_map_index(7, 60000);
    assert!(!is_good_free_entry(top as usize));
}

#[test]
fn allocator_issues_slots_in_range() {
    let mut dog = SendDog::new(test_ether(), vec!["8.8.8.8".to_string()], 500);
    let mut state = BruteForceState::new();
    for n in 0..2000 {
        let pair = dog
            .build_status_table("www.example.com", "8.8.8.8", 1, 1000 + n, &mut state)
            .expect("monotonic phase never runs dry");
        assert!(pair.0 < 100);
        assert!(10001 <= pair.1 && pair.1 <= 60000);
        assert_eq!(pair.1 as u64, 10001 + n);
    }
    assert_eq!(state.local_status.len(), 2000);
}

#[test]
fn query_frame_carries_tag_slot_and_port() {
    // One emission per (label, domain) pair: destination port 53, the slot as
    // source port, and the scan tag in the transaction id's high digits.
    let dog = SendDog::new(test_ether(), vec!["8.8.8.8".to_string()], 500);
    let frame = dog
        .send("www.example.com".to_string(), "8.8.8.8".to_string(), 10001, 7)
        .expect("resolver parses");
    let dns_len = "www.example.com".len() + 18;
    assert_eq!(frame.len(), 42 + dns_len);
    // UDP source port at offset 34: the slot.
    assert_eq!(((frame[34] as u16) << 8) | frame[35] as u16, 10001);
    // UDP destination port: 53.
    assert_eq!(((frame[36] as u16) << 8) | frame[37] as u16, 53);
    // DNS transaction id at offset 42.
    let tid = ((frame[42] as u16) << 8) | frame[43] as u16;
    assert_eq!(tid, 500 * 100 + 7);
    assert_eq!(tid / 100, 500);
    assert_eq!(tid % 100, 7);
    // IPv4 destination address.
    assert_eq!(&frame[30..34], &[8, 8, 8, 8]);
    // An unparseable resolver yields no frame.
    assert!(dog
        .send("www.example.com".to_string(), "not-an-ip".to_string(), 10001, 7)
        .is_none());
}

/// Builds the IPv4 packet of a DNS A response for `qname`.
fn craft_a_response(tid: u16, dst_port: u16, qname: &str, addr: [u8; 4]) -> Vec<u8> {
    let mut dns: Vec<u8> = Vec::new();
    dns.extend_from_slice(&tid.to_be_bytes());
    dns.extend_from_slice(&[0x80, 0x00]); // QR set
    dns.extend_from_slice(&[0, 1, 0, 1, 0, 0, 0, 0]); // one question, one answer
    for label in qname.split('.') {
        dns.push(label.len() as u8);
        dns.extend_from_slice(label.as_bytes());
    }
    dns.push(0);
    dns.extend_from_slice(&[0, 1, 0, 1]); // type A, class IN
    dns.extend_from_slice(&[0xC0, 0x0C]); // answer name: pointer to the question
    dns.extend_from_slice(&[0, 1, 0, 1, 0, 0, 0, 60, 0, 4]); // A, IN, ttl, rdlen 4
    dns.extend_from_slice(&addr);

    let mut udp: Vec<u8> = Vec::new();
    udp.extend_from_slice(&53u16.to_be_bytes());
    udp.extend_from_slice(&dst_port.to_be_bytes());
    udp.extend_from_slice(&((8 + dns.len()) as u16).to_be_bytes());
    udp.extend_from_slice(&[0, 0]);
    udp.extend_from_slice(&dns);

    let mut ip: Vec<u8> = vec![0x45, 0];
    ip.extend_from_slice(&((20 + udp.len()) as u16).to_be_bytes());
    ip.extend_from_slice(&[0, 0, 0x40, 0, 64, 17, 0, 0]);
    ip.extend_from_slice(&[8, 8, 8, 8]);
    ip.extend_from_slice(&[192, 168, 1, 2]);
    ip.extend_from_slice(&udp);
    ip
}

#[test]
fn one_emission_per_pair() {
    // Labels ["www", "mail"] against one root give exactly two
    // registered queries and two frames, each carrying the right question.
    let flag_id: u16 = 500;
    let mut dog = SendDog::new(test_ether(), vec!["8.8.8.8".to_string()], flag_id);
    let mut state = BruteForceState::new();
    let mut frames = Vec::new();
    for label in ["www", "mail"] {
        let fqdn = format!("{}.example.com", label);
        let (sub_tag, slot) = dog
            .build_status_table(&fqdn, "8.8.8.8", 1, 100, &mut state)
            .unwrap();
        let frame = dog.send(fqdn, "8.8.8.8".to_string(), slot, sub_tag).unwrap();
        frames.push(frame);
    }
    assert_eq!(state.local_status.len(), 2);
    assert_eq!(frames.len(), 2);
    for (frame, name) in frames.iter().zip(["www.example.com", "mail.example.com"]) {
        // IPv4 destination 8.8.8.8, UDP destination port 53.
        assert_eq!(&frame[30..34], &[8, 8, 8, 8]);
        assert_eq!(((frame[36] as u16) << 8) | frame[37] as u16, 53);
        // The scan tag in the transaction id's high digits.
        let tid = ((frame[42] as u16) << 8) | frame[43] as u16;
        assert_eq!(tid / 100, flag_id);
        // The question asks for an A record, class IN, of the pair's name.
        let qname = rsubdomain::handle::parse_dns_name(&frame[54..]);
        assert_eq!(qname, name);
        let qtype_class = &frame[frame.len() - 4..];
        assert_eq!(qtype_class, &[0, 1, 0, 1]);
    }
}

#[test]
fn matching_response_releases_entry_and_records_discovery() {
    // A crafted response to a pending query removes exactly that
    // correlation entry and yields one discovery with the expected name
    // and address text.
    let flag_id: u16 = 500;
    let mut dog = SendDog::new(test_ether(), vec!["8.8.8.8".to_string()], flag_id);
    let mut state = BruteForceState::new();
    let (sub_tag, slot) = dog
        .build_status_table("www.example.com", "8.8.8.8", 1, 100, &mut state)
        .unwrap();
    assert_eq!(state.local_status.len(), 1);

    let tid = flag_id * 100 + sub_tag;
    let packet = craft_a_response(tid, slot, "www.example.com", [93, 184, 216, 34]);
    let n = process_dns_response(&packet, flag_id, 123, &mut state);
    assert_eq!(n, 1);
    assert_eq!(state.local_status.len(), 0);
    let found = state.get_discovered_domains();
    assert_eq!(found.len(), 1);
    assert_eq!(found[0].domain, "www.example.com");
    assert_eq!(found[0].ip, "93.184.216.34");
    assert_eq!(found[0].record_type, "A");
    assert_eq!(found[0].timestamp, 123);
    // The released index went back to the free list.
    assert_eq!(state.local_stack.len(), 1);
}

#[test]
fn foreign_tid_changes_nothing() {
    // A response whose tag is not this scan's leaves the table
    // and the discovery store untouched.
    let flag_id: u16 = 500;
    let mut dog = SendDog::new(test_ether(), vec!["8.8.8.8".to_string()], flag_id);
    let mut state = BruteForceState::new();
    let (_, slot) = dog
        .build_status_table("www.example.com", "8.8.8.8", 1, 100, &mut state)
        .unwrap();

    let foreign_tid = 501 * 100 + 3;
    let packet = craft_a_response(foreign_tid, slot, "www.example.com", [1, 2, 3, 4]);
    let n = process_dns_response(&packet, flag_id, 123, &mut state);
    assert_eq!(n, 0);
    assert_eq!(state.local_status.len(), 1);
    assert_eq!(state.get_discovered_domains().len(), 0);
    assert_eq!(state.local_stack.len(), 0);
}

#[test]
fn timeout_scan_returns_expired_prefix() {
    // The timeout scan returns every entry older than five seconds, none
    // younger, up to the cap.
    let mut state = BruteForceState::new();
    for k in 0..4u32 {
        state.append_status(
            StatusTable {
                domain: format!("d{}.example.com", k),
                dns: "8.8.8.8".to_string(),
                time: 100 + k as u64, // 100, 101, 102, 103
                retry: 0,
                domain_level: 1,
            },
            10001 + k,
        );
    }
    // At time 107 the entries stamped 100 and 101 are expired, 103 is not;
    // 102 sits exactly at the boundary and counts as expired.
    let out = state.get_timeout_data(100_000, 107);
    assert_eq!(out.len(), 3);
    assert_eq!(out[0].index, 10001);
    assert_eq!(out[1].index, 10002);
    assert_eq!(out[2].index, 10003);
    assert_eq!(state.local_status.len(), 1);
    // The cap limits what one scan returns.
    let mut state2 = BruteForceState::new();
    for k in 0..4u32 {
        state2.append_status(
            StatusTable {
                domain: "x.example.com".to_string(),
                dns: "8.8.8.8".to_string(),
                time: 100,
                retry: 0,
                domain_level: 1,
            },
            20001 + k,
        );
    }
    let out2 = state2.get_timeout_data(2, 200);
    assert_eq!(out2.len(), 2);
    assert_eq!(state2.local_status.len(), 2);
}

#[test]
fn retry_cap_drops_after_five() {
    // A query that never gets an answer is re-emitted once per
    // timeout round with a bumped counter, and the sixth round drops it:
    // one initial emission plus five retries in all.
    let mut state = BruteForceState::new();
    let mut emissions = 1; // the initial send
    let mut record = StatusTable {
        domain: "www.example.com".to_string(),
        dns: "8.8.8.8".to_string(),
        time: 100,
        retry: 0,
        domain_level: 1,
    };
    let index: u32 = 3 * 60000 + 12345;
    loop {
        let entry = LocalRetryStruct { v: record, index };
        match handle_timeout_entry(&entry, "8.8.8.8".to_string(), 999, &mut state) {
            Some(cmd) => {
                emissions += 1;
                assert_eq!(cmd.domain, "www.example.com");
                assert_eq!(cmd.src_port, 12345);
                assert_eq!(cmd.flag_id, 3);
                let back = state.get_timeout_data(10, 100_000);
                assert_eq!(back.len(), 1);
                record = back.into_iter().next().unwrap().v;
            }
            None => break,
        }
    }
    assert_eq!(emissions, 6);
}

#[test]
fn drain_needs_five_consecutive_empty_probes() {
    // Five consecutive empty probes end the drain; a busy probe
    // resets the count.
    let mut c = 0u8;
    let mut done = false;
    for probe in [true, true, false, true, true, true, true, true] {
        let r = drain_step(c, probe);
        c = r.0;
        done = r.1;
        if done {
            break;
        }
    }
    assert!(done);
    let r = drain_step(3, false);
    assert_eq!(r, (0, false));
    let r = drain_step(4, true);
    assert_eq!(r, (5, true));
}

#[test]
fn resolver_choice_stays_in_set() {
    let dog = SendDog::new(test_ether(), vec!["9.9.9.9".to_string()], 450);
    for _ in 0..20 {
        assert_eq!(dog.chose_dns(), "9.9.9.9");
    }
    for _ in 0..20 {
        let tag = rsubdomain::util::random_flag_id();
        assert!((400..655).contains(&tag));
    }
    // An empty resolver list falls back to the built-in set.
    let fallback = SendDog::new(test_ether(), Vec::new(), 450);
    let picked = fallback.chose_dns();
    assert!([
        "223.5.5.5",
        "223.6.6.6",
        "180.76.76.76",
        "119.29.29.29",
        "182.254.116.116",
        "114.114.114.115"
    ]
    .contains(&picked.as_str()));
}

#[test]
fn bandwidth_bucket_respects_budget() {
    // Inside one window the admitted bytes stay under the
    // budget; the next second opens a fresh window.
    let mut b = BandwidthLimiter::new(102_400);
    let mut admitted: u64 = 0;
    let mut denied = 0;
    for _ in 0..4096 {
        if b.can_send(64, 5_000) {
            admitted += 64;
        } else {
            denied += 1;
        }
    }
    assert!(admitted <= 102_400);
    assert_eq!(admitted, 102_336); // 1599 packets of 64 bytes
    assert!(denied > 0);
    // A full second later the window resets and admits again.
    assert!(b.can_send(64, 6_000));
}
