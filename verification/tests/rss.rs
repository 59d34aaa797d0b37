//! Receive queues and source ports.
use plumbrs::client::ClientType;
use plumbrs::dial::{bind_address, choose_remote, is_unspecified, is_busy, DialAction, DialEvent, DialFault, DialStep, Dialer};
use plumbrs::net::{IpAddr, SocketAddr};
use plumbrs::options::Options;
use plumbrs::rss::parse::{
    extract_ethtool_indir, extract_ethtool_key, parse_hex_key, parse_indir_inline,
    parse_port_range, SYNTHETIC_INDIR_LEN,
};
use plumbrs::rss::ports::{build_balanced_ports, rss_queue, write_rss_input};
use plumbrs::rss::setup::{
    init_source_ports, is_raw_socket_client, resolve_host, spec_path, supports_source_ports,
    HostReply, Replies, Request, SourceError, SourceReply, SpecFile,
};
use plumbrs::rss::source::{distinct_queues, source_candidates, MAX_BIND_CANDIDATES};
use plumbrs::rss::toeplitz::toeplitz_hash;
use plumbrs::rss::RssState;

const SAMPLE_RXFH: &str = "\
RX flow hash indirection table for eth0 with 4 RX ring(s):\n\
    0:      0     1     2     3     0     1     2     3\n\
    8:      0     1     2     3     0     1     2     3\n\
RSS hash key:\n\
6d:5a:56:da:25:5b:0e:c2:41:67:25:3d:43:a3:8f:b0:d0:ca:2b:cb:ae:7b:30:b4:77:cb:2d:a3:30:28:6c:1d:36:5d:5b:02:e3:a6:6c:82\n\
RSS hash function:\n\
    toeplitz: on\n";

fn ports_up_to(from: u16, to: u16) -> Vec<u16> {
    (from..to).collect()
}

#[test]
fn toeplitz_cross_check() {
    let key = parse_hex_key("39:0c:8c:7d:72:47:34:2c:d8:10:0f:2f:6f:77:0d:65:d6:70:e5:8e:03:51:d8:ae:8e:4f:6e:ac:34:2f:c2:31:b7:b0:87:16:eb:3f:c1:28").unwrap();
    let cases: &[(&[u8], u32)] = &[
        (&[192, 168, 0, 1, 10, 0, 0, 1, 0x9c, 0x40, 0, 80], 0x43d07682),
        (&[10, 1, 2, 3, 172, 16, 0, 9, 0x12, 0x34, 0x1f, 0x90], 0x43e6b796),
    ];
    for (input, expected) in cases {
        assert_eq!(toeplitz_hash(&key, input), *expected);
    }
    // Input of the size of IPv6 wraps around the end of the key.
    let v6: Vec<u8> = (0..32)
        .collect::<Vec<u8>>()
        .into_iter()
        .chain([0xab, 0xcd, 0x00, 0xbb])
        .collect();
    assert_eq!(toeplitz_hash(&key, &v6), 0x1467255f);
}

#[test]
fn toeplitz_single_bit_matches_key_window() {
    let key: Vec<u8> = (0..40).map(|i| (i * 7 + 1) as u8).collect();
    // Only the very first input bit set -> hash = first 32 key bits.
    let hash = toeplitz_hash(&key, &[0x80, 0, 0, 0]);
    let expected =
        ((key[0] as u32) << 24) | ((key[1] as u32) << 16) | ((key[2] as u32) << 8) | key[3] as u32;
    assert_eq!(hash, expected);
    // Only the second input bit set -> key window shifted by one.
    let hash = toeplitz_hash(&key, &[0x40, 0, 0, 0]);
    let expected2 = ((key[0] as u32 & 0x7f) << 25)
        | ((key[1] as u32) << 17)
        | ((key[2] as u32) << 9)
        | ((key[3] as u32) << 1)
        | ((key[4] as u32) >> 7);
    assert_eq!(hash, expected2);
    // Zero key -> zero hash.
    assert_eq!(toeplitz_hash(&[0u8; 40], &[0xff; 12]), 0);
}

#[test]
fn toeplitz_is_deterministic_and_sensitive() {
    let key = parse_hex_key(
        "6d:5a:56:da:25:5b:0e:c2:41:67:25:3d:43:a3:8f:b0:d0:ca:2b:cb:ae:7b:30:b4",
    )
    .unwrap();
    let a = toeplitz_hash(&key, &[192, 168, 0, 1, 10, 0, 0, 1, 0x9c, 0x40, 0, 80]);
    let b = toeplitz_hash(&key, &[192, 168, 0, 1, 10, 0, 0, 1, 0x9c, 0x40, 0, 80]);
    let c = toeplitz_hash(&key, &[192, 168, 0, 1, 10, 0, 0, 1, 0x9c, 0x41, 0, 80]);
    assert_eq!(a, b);
    assert_ne!(a, c);
}

#[test]
fn hash_of_a_difference_is_the_difference_of_the_hashes() {
    let key = extract_ethtool_key(SAMPLE_RXFH).unwrap();
    let a: [u8; 4] = [0x12, 0x34, 0x56, 0x78];
    let b: [u8; 4] = [0x9a, 0xbc, 0xde, 0xf0];
    let x: [u8; 4] = [a[0] ^ b[0], a[1] ^ b[1], a[2] ^ b[2], a[3] ^ b[3]];
    assert_eq!(
        toeplitz_hash(&key, &x),
        toeplitz_hash(&key, &a) ^ toeplitz_hash(&key, &b)
    );
}

#[test]
fn ethtool_parsers() {
    let key = extract_ethtool_key(SAMPLE_RXFH).expect("key");
    assert_eq!(key.len(), 40);
    assert_eq!(key[0], 0x6d);
    assert_eq!(key[39], 0x82);
    let indir = extract_ethtool_indir(SAMPLE_RXFH).expect("indir");
    assert_eq!(indir.len(), 16);
    assert_eq!(&indir[0..4], &[0, 1, 2, 3]);
}

#[test]
fn ethtool_output_without_a_key_or_a_table() {
    assert!(extract_ethtool_key("RX flow hash indirection table\n").is_none());
    assert!(extract_ethtool_indir("RSS hash key:\n6d:5a:56:da\n").is_none());
}

#[test]
fn indir_inline_forms() {
    assert_eq!(parse_indir_inline("4").unwrap().len(), SYNTHETIC_INDIR_LEN);
    assert_eq!(parse_indir_inline("4").unwrap()[5], 1);
    assert_eq!(parse_indir_inline("0,1,2,3").unwrap(), vec![0, 1, 2, 3]);
}

#[test]
fn port_range_parser() {
    assert_eq!(parse_port_range("40000-41000").unwrap(), (40000, 41000));
    assert_eq!(parse_port_range("40000:41000").unwrap(), (40000, 41000));
    assert!(parse_port_range("41000-40000").is_err());
    assert!(parse_port_range("0-100").is_err());
    assert!(parse_port_range("abc").is_err());
}

#[test]
fn balanced_ports_spread_evenly() {
    let key = extract_ethtool_key(SAMPLE_RXFH).unwrap();
    let indir = extract_ethtool_indir(SAMPLE_RXFH).unwrap();
    let src = IpAddr::V4([192, 168, 0, 10]);
    let dst = IpAddr::V4([192, 168, 0, 1]);
    let (ports, queues) =
        build_balanced_ports(&key, &indir, src, dst, 80, &ports_up_to(40000, 41000));
    assert_eq!(ports.len(), 1000);
    // First 4 ports cover all 4 queues exactly once.
    let mut first: Vec<u32> = queues[..4].to_vec();
    first.sort_unstable();
    assert_eq!(first, vec![0, 1, 2, 3]);
    // Overall distribution is roughly uniform (sequential ports hash
    // pseudo-randomly; round-robin then spreads them optimally).
    let mut counts = [0usize; 4];
    for q in &queues {
        counts[*q as usize] += 1;
    }
    assert!(counts.iter().all(|&c| (200..=300).contains(&c)), "{counts:?}");
    // Every port really hashes to its assigned queue.
    for (p, q) in ports.iter().zip(queues.iter()).take(64) {
        assert_eq!(rss_queue(&key, &indir, &src, &dst, *p, 80), Some(*q));
    }
}

#[test]
fn balanced_ports_are_the_candidates() {
    let key = extract_ethtool_key(SAMPLE_RXFH).unwrap();
    let indir = extract_ethtool_indir(SAMPLE_RXFH).unwrap();
    let src = IpAddr::V4([10, 0, 0, 2]);
    let dst = IpAddr::V4([10, 0, 0, 1]);
    let (mut ports, queues) =
        build_balanced_ports(&key, &indir, src, dst, 443, &ports_up_to(50000, 50100));
    assert_eq!(queues.len(), ports.len());
    ports.sort_unstable();
    assert_eq!(ports, ports_up_to(50000, 50100));
}

#[test]
fn parse_hex_key_rejects_invalid_chars() {
    assert!(parse_hex_key("6d:5a:zz:12").is_err());
    assert!(parse_hex_key("6d5a1234").is_ok());
}

#[test]
fn hex_keys_keep_their_bytes() {
    assert_eq!(parse_hex_key("6d5a1234").unwrap(), vec![0x6d, 0x5a, 0x12, 0x34]);
    assert_eq!(parse_hex_key("6D:5a:12:34").unwrap(), vec![0x6d, 0x5a, 0x12, 0x34]);
    assert!(parse_hex_key("6d5a12").is_err());
    assert!(parse_hex_key("6d5a1").is_err());
}

#[test]
fn parse_indir_inline_synthesizes_non_power_of_two() {
    let indir = parse_indir_inline("0,1,2,3,4,5").unwrap();
    assert_eq!(indir.len(), SYNTHETIC_INDIR_LEN);
    assert_eq!(indir[0], 0);
    assert_eq!(indir[5], 5);
    assert_eq!(indir[6], 0);
}

#[test]
fn tables_that_are_none() {
    assert!(parse_indir_inline("").is_err());
    assert!(parse_indir_inline("0").is_err());
    assert!(parse_indir_inline("a,b").is_err());
}

#[test]
fn microsoft_rss_verification_vectors() {
    // Official Microsoft RSS specification verification key and vectors
    let key = parse_hex_key(
        "6d:5a:56:da:25:5b:0e:c2:41:67:25:3d:43:a3:8f:b0:\
         d0:ca:2b:cb:ae:7b:30:b4:77:cb:2d:a3:80:30:f2:0c:\
         6a:42:b7:3b:be:ac:01:fa",
    )
    .unwrap();

    // 66.9.149.187 and 161.142.100.80
    let src = IpAddr::V4([66, 9, 149, 187]);
    let dst = IpAddr::V4([161, 142, 100, 80]);
    let mut buf = [0u8; 36];
    let len = write_rss_input(&src, &dst, 2794, 1766, &mut buf);
    assert_eq!(toeplitz_hash(&key, &buf[..len]), 0x51ccc178);

    // 3ffe:2501:200:1fff::7 and 3ffe:2501:200:3::1
    let src_v6 = IpAddr::V6([
        0x3f, 0xfe, 0x25, 0x01, 0x02, 0x00, 0x1f, 0xff, 0, 0, 0, 0, 0, 0, 0, 7,
    ]);
    let dst_v6 = IpAddr::V6([
        0x3f, 0xfe, 0x25, 0x01, 0x02, 0x00, 0x00, 0x03, 0, 0, 0, 0, 0, 0, 0, 1,
    ]);
    let len_v6 = write_rss_input(&src_v6, &dst_v6, 2794, 1766, &mut buf);
    assert_eq!(toeplitz_hash(&key, &buf[..len_v6]), 0x40207d3d);
}

#[test]
fn source_candidates_reconnect_preserves_queue() {
    let key = extract_ethtool_key(SAMPLE_RXFH).unwrap();
    let indir = extract_ethtool_indir(SAMPLE_RXFH).unwrap();
    let src = IpAddr::V4([192, 168, 0, 10]);
    let dst = IpAddr::V4([192, 168, 0, 1]);
    let (ports, _) = build_balanced_ports(&key, &indir, src, dst, 80, &ports_up_to(40000, 41000));

    let mut opts = Options::default();
    opts.connections = 6;
    opts.uri = vec!["http://192.168.0.1/".to_string()];
    opts.total_connections = 6; // Not a multiple of 4 queues!
    opts.rss = Some(RssState {
        src,
        num_queues: 4,
        ports,
    });

    // Task 0 initial queue
    let c0_gen0 = source_candidates(&opts, 0, 0);
    let q0 = rss_queue(&key, &indir, &src, &dst, c0_gen0[0].port, 80).unwrap();

    // Task 0 reconnect 1, 2, 3 must remain on the exact same queue q0!
    for generation_idx in 1..=3 {
        let c0_reconnect = source_candidates(&opts, 0, generation_idx);
        let q_recon = rss_queue(&key, &indir, &src, &dst, c0_reconnect[0].port, 80).unwrap();
        assert_eq!(
            q_recon, q0,
            "reconnect at gen {generation_idx} shifted queue from {q0} to {q_recon}"
        );
        // And must not collide with initial port
        assert_ne!(c0_reconnect[0].port, c0_gen0[0].port);
    }
}

#[test]
fn tasks_and_generations_have_ports_of_their_own() {
    let mut opts = Options::default();
    opts.connections = 6;
    opts.total_connections = 6;
    opts.rss = Some(RssState {
        src: IpAddr::V4([10, 0, 0, 2]),
        num_queues: 4,
        ports: ports_up_to(40000, 41000),
    });
    let mut first: Vec<u16> = (0..6).map(|cid| source_candidates(&opts, cid, 0)[0].port).collect();
    assert_eq!(first, ports_up_to(40000, 40006));
    // A reconnect steps on by the least number of whole rounds that serves all
    // tasks: here by 8 ports.
    let next: Vec<u16> = (0..6).map(|cid| source_candidates(&opts, cid, 1)[0].port).collect();
    assert_eq!(next, ports_up_to(40008, 40014));
    first.extend(next);
    first.sort_unstable();
    first.dedup();
    assert_eq!(first.len(), 12);
    let list = source_candidates(&opts, 0, 0);
    assert_eq!(list[1].port, 40004);
}

#[test]
fn a_port_range_is_dealt_out_in_turn() {
    let mut opts = Options::default();
    opts.connections = 2;
    opts.total_connections = 2;
    opts.local_port_range = Some((42100, 42101));
    let a = source_candidates(&opts, 0, 0);
    let b = source_candidates(&opts, 1, 0);
    assert_eq!(a[0].port, 42100);
    assert_eq!(b[0].port, 42101);
    assert_eq!(a.len(), 2);
    assert_eq!(a[0].ip, IpAddr::V4([0, 0, 0, 0]));
}

#[test]
fn a_wide_range_gives_a_limited_number_of_candidates() {
    let mut opts = Options::default();
    opts.connections = 1;
    opts.total_connections = 1;
    opts.local_port_range = Some((41200, 41299));
    let list = source_candidates(&opts, 0, 0);
    assert_eq!(list.len() as u64, MAX_BIND_CANDIDATES.min(100));
    assert!(list.iter().all(|a| (41200..=41299).contains(&a.port)));
}

#[test]
fn a_local_address_alone_leaves_the_port_open() {
    let mut opts = Options::default();
    let ip = IpAddr::V4([10, 1, 2, 3]);
    opts.local_addr = Some(ip);
    opts.total_connections = 6;
    assert_eq!(source_candidates(&opts, 5, 9), vec![SocketAddr { ip, port: 0 }]);
    opts.local_addr = None;
    assert!(source_candidates(&opts, 5, 9).is_empty());
}

#[test]
fn queues_are_counted_once() {
    assert_eq!(distinct_queues(&[0, 1, 2, 3, 0, 1, 2, 3]), 4);
    assert_eq!(distinct_queues(&[7, 7]), 1);
    assert_eq!(distinct_queues(&[]), 0);
}

#[test]
fn clients_with_source_ports() {
    assert!(supports_source_ports(ClientType::Hyper));
    assert!(supports_source_ports(ClientType::Compio));
    assert!(!supports_source_ports(ClientType::Reqwest));
    assert!(is_raw_socket_client(ClientType::TokioUring));
    assert!(!is_raw_socket_client(ClientType::Compio));
}

fn no_replies() -> Replies {
    Replies {
        key: None,
        indir: None,
        host: None,
        source: None,
    }
}

#[test]
fn setup_refuses_a_client_without_source_ports() {
    let mut opts = Options::default();
    opts.uri = vec!["http://127.0.0.1:8080/".to_string()];
    opts.local_port_range = Some((42200, 42299));
    opts.client_type = ClientType::Reqwest;
    let (_, r) = init_source_ports(&mut opts, &no_replies());
    assert!(matches!(r, Err(SourceError::Said(_))));
}

#[test]
fn setup_refuses_a_finite_number_of_requests_per_connection() {
    let mut opts = Options::default();
    opts.uri = vec!["http://127.0.0.1:8080/".to_string()];
    opts.local_port_range = Some((42200, 42299));
    opts.client_type = ClientType::Hyper;
    opts.rpc = 1;
    let (_, r) = init_source_ports(&mut opts, &no_replies());
    assert!(matches!(r, Err(SourceError::Said(_))));
}

#[test]
fn setup_asks_for_what_it_needs_and_makes_a_port_list() {
    let mut opts = Options::default();
    opts.uri = vec!["http://192.168.0.1/".to_string()];
    opts.client_type = ClientType::Hyper;
    opts.connections = 6;
    opts.local_port_range = Some((41300, 41399));
    opts.rss_key = Some("@rxfh.txt".to_string());
    opts.rss_indir = Some("@rxfh.txt".to_string());
    let mut replies = no_replies();
    let mut asked = 0;
    loop {
        let (_, r) = init_source_ports(&mut opts, &replies);
        match r.unwrap() {
            None => break,
            Some(Request::Key(_)) => {
                replies.key = Some(SpecFile::Contents(SAMPLE_RXFH.to_string()))
            }
            Some(Request::Indir(_)) => {
                replies.indir = Some(SpecFile::Contents(SAMPLE_RXFH.to_string()))
            }
            Some(Request::Host(host, port)) => {
                assert_eq!(host, "192.168.0.1");
                assert_eq!(port, 80);
                replies.host = Some(HostReply::Literal(IpAddr::V4([192, 168, 0, 1])));
            }
            Some(Request::Source(to)) => {
                assert_eq!(to.port, 80);
                replies.source = Some(SourceReply::Address(IpAddr::V4([192, 168, 0, 10])));
            }
        }
        asked += 1;
        assert!(asked <= 4);
    }
    assert_eq!(asked, 4);
    assert_eq!(opts.total_connections, 6);
    let rss = opts.rss.clone().unwrap();
    assert_eq!(rss.num_queues, 4);
    let mut ports = rss.ports.clone();
    ports.sort_unstable();
    assert_eq!(ports, (41300..=41399).collect::<Vec<u16>>());
}

#[test]
fn setup_refuses_addresses_of_different_families() {
    let mut opts = Options::default();
    opts.uri = vec!["http://localhost/".to_string()];
    opts.client_type = ClientType::Hyper;
    opts.rss_key = Some("6d5a56da255b0ec2".to_string());
    opts.rss_indir = Some("4".to_string());
    let six = IpAddr::V6([0, 0, 0, 0, 0, 0, 0, 0, 0, 0, 0, 0, 0, 0, 0, 1]);
    let four = IpAddr::V4([127, 0, 0, 1]);
    opts.local_addr = Some(six);
    let replies = Replies {
        key: Some(SpecFile::NoFile),
        indir: Some(SpecFile::NoFile),
        host: Some(HostReply::Literal(four)),
        source: Some(SourceReply::Address(six)),
    };
    let (_, r) = init_source_ports(&mut opts, &replies);
    assert!(matches!(r, Err(SourceError::Families(_, _))));
}

#[test]
fn hosts_are_resolved_in_the_wanted_family() {
    let four = SocketAddr { ip: IpAddr::V4([10, 0, 0, 1]), port: 80 };
    let six = SocketAddr {
        ip: IpAddr::V6([0, 0, 0, 0, 0, 0, 0, 0, 0, 0, 0, 0, 0, 0, 0, 1]),
        port: 80,
    };
    let both = HostReply::Addresses(vec![six, four]);
    assert_eq!(resolve_host("h", &both, Some(four.ip)).unwrap(), four.ip);
    assert_eq!(resolve_host("h", &both, Some(six.ip)).unwrap(), six.ip);
    assert!(resolve_host("h", &HostReply::Addresses(vec![]), None).is_err());
    assert!(resolve_host("h", &HostReply::Unresolved("no".to_string()), None).is_err());
}

#[test]
fn settings_may_name_a_file() {
    assert_eq!(spec_path("@rxfh.txt", false), Some("rxfh.txt".to_string()));
    assert_eq!(spec_path("rxfh.txt", true), Some("rxfh.txt".to_string()));
    assert_eq!(spec_path("4", false), None);
}

#[test]
fn dialing_goes_through_the_source_addresses() {
    let remote = SocketAddr { ip: IpAddr::V4([10, 0, 0, 1]), port: 80 };
    let first = SocketAddr { ip: IpAddr::V4([0, 0, 0, 0]), port: 41000 };
    let second = SocketAddr { ip: IpAddr::V4([0, 0, 0, 0]), port: 41001 };
    let mut d = Dialer::new("10.0.0.1:80", &vec![remote], vec![first, second]).unwrap();
    match d.step(DialEvent::Start) {
        DialAction::Try(from, to) => {
            assert_eq!(from, first);
            assert_eq!(to, remote);
        }
        DialAction::Fail(e) => panic!("{e}"),
    }
    match d.step(DialEvent::Failed(DialStep::Bind, DialFault::Other, "denied".to_string())) {
        DialAction::Try(from, _) => assert_eq!(from, second),
        DialAction::Fail(e) => panic!("{e}"),
    }
    match d.step(DialEvent::Failed(DialStep::Connect, DialFault::InUse, "in use".to_string())) {
        DialAction::Fail(e) => assert_eq!(e, "in use"),
        DialAction::Try(_, _) => panic!("no address is left"),
    }
    let mut d = Dialer::new("10.0.0.1:80", &vec![remote], vec![first, second]).unwrap();
    match d.step(DialEvent::Failed(DialStep::Connect, DialFault::Other, "refused".to_string())) {
        DialAction::Fail(e) => assert_eq!(e, "refused"),
        DialAction::Try(_, _) => panic!("a refusal is final"),
    }
    for fault in [DialFault::InUse, DialFault::NotAvailable, DialFault::Other] {
        assert!(is_busy(DialStep::Open, fault));
        assert!(is_busy(DialStep::Bind, fault));
        assert_eq!(is_busy(DialStep::Connect, fault), fault != DialFault::Other);
        assert!(!is_busy(DialStep::Setup, fault));
    }
    assert_eq!(
        Dialer::new("nowhere:80", &vec![], vec![first]).unwrap_err(),
        "cannot resolve 'nowhere:80'"
    );
}

#[test]
fn wildcards_follow_the_family_of_the_remote() {
    let six = SocketAddr {
        ip: IpAddr::V6([0, 0, 0, 0, 0, 0, 0, 0, 0, 0, 0, 0, 0, 0, 0, 1]),
        port: 80,
    };
    let wildcard = SocketAddr { ip: IpAddr::V4([0, 0, 0, 0]), port: 41000 };
    assert!(is_unspecified(&wildcard.ip));
    assert!(!is_unspecified(&six.ip));
    let bound = bind_address(wildcard, six);
    assert_eq!(bound, SocketAddr { ip: IpAddr::V6([0; 16]), port: 41000 });
    let four = SocketAddr { ip: IpAddr::V4([10, 0, 0, 1]), port: 80 };
    assert_eq!(choose_remote(&vec![six, four], &vec![wildcard]), Some(four));
    assert_eq!(choose_remote(&vec![six, four], &vec![]), Some(six));
}

#[test]
fn no_queue_is_left_behind() {
    let key = extract_ethtool_key(SAMPLE_RXFH).unwrap();
    let src = IpAddr::V4([192, 168, 0, 10]);
    let dst = IpAddr::V4([192, 168, 0, 1]);
    // Queue 9 gets far fewer ports than the others.
    let indir = vec![3, 3, 3, 9, 5, 5, 5, 5];
    let (_, queues) = build_balanced_ports(&key, &indir, src, dst, 80, &ports_up_to(40000, 40300));
    let count = |list: &[u32], q: u32| list.iter().filter(|x| **x == q).count();
    for used in 0..=queues.len() {
        for q in [3, 5, 9] {
            let had = count(&queues[..used], q);
            if had < count(&queues, q) {
                for other in [3, 5, 9] {
                    assert!(count(&queues[..used], other) <= had + 1, "{used}: {q}, {other}");
                }
            }
        }
    }
}
