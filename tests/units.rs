use multilink::fragment::{fragment_layout, generate_packets};
use multilink::link_info::{get_dev_from_ip, parse_link_info};
use multilink::mac_queue::{parse_digits, parse_queue_info, parse_queue_line};
use multilink::packet::{
    channel_info, from_buffer, get_packet_type, to_indicator, tos2ac, PacketStruct, PacketType,
    PacketWithMeta, MAX_PAYLOAD_LEN,
};
use multilink::policies::{Policy, PolicyParameter, SchedulingMessage, PARAMETER_SCALE};
use multilink::record::RecvRecord;
use multilink::rtt::parse_pong;
use multilink::rtt_records::RttRecords;
use multilink::source::TraceCursor;
use multilink::throttle::{CycledVecDequeue, RateThrottler};
use multilink::trace_reader::read_packets;
use multilink::tx_part_ctl::TxPartCtler;
use multilink::version_manager::{Config, FileEntry, Version, VersionManager};

#[test]
fn indicator_algebra_round_trip() {
    for i in 0u8..4 {
        let t = get_packet_type(i);
        assert_eq!(to_indicator(t), i);
        assert_eq!(channel_info(i), i & 1);
    }
    assert_eq!(to_indicator(PacketType::FirstLink), 0);
    assert_eq!(to_indicator(PacketType::SecondLink), 1);
    assert_eq!(to_indicator(PacketType::LastPacketInFirstLink), 2);
    assert_eq!(to_indicator(PacketType::LastPacketInSecondLink), 3);
    assert_eq!(channel_info(0b1111_0110), 0);
}

#[test]
fn tos_to_access_category() {
    assert_eq!(tos2ac(0x00), 2);
    assert_eq!(tos2ac(0x20), 3);
    assert_eq!(tos2ac(0x40), 3);
    assert_eq!(tos2ac(0x60), 2);
    assert_eq!(tos2ac(0x80), 1);
    assert_eq!(tos2ac(0xA0), 1);
    assert_eq!(tos2ac(0xB8), 1);
    assert_eq!(tos2ac(0xC0), 0);
    assert_eq!(tos2ac(0xFF), 0);
}

#[test]
fn fresh_record_has_test_fill() {
    let p = PacketStruct::new();
    assert_eq!(p.payload.len(), MAX_PAYLOAD_LEN);
    assert_eq!(p.payload[0], 0);
    assert_eq!(p.payload[255], 255);
    assert_eq!(p.payload[256], 0);
    assert_eq!(p.payload[1000], (1000 % 256) as u8);
}

#[test]
fn codec_round_trip() {
    let mut m = PacketWithMeta::new(1);
    m.packet.seq = 0x0102_0304;
    m.packet.set_offset(0x0506);
    m.packet.set_length(3);
    m.packet.set_indicator(PacketType::LastPacketInSecondLink);
    m.packet.set_payload(&[9, 8, 7]);
    let bytes = m.to_u8_slice();
    assert_eq!(bytes.len(), 9 + MAX_PAYLOAD_LEN);
    assert_eq!(&bytes[..12], &[4, 3, 2, 1, 6, 5, 3, 0, 3, 9, 8, 7]);
    let p = from_buffer(&bytes[..12]).unwrap();
    assert_eq!(p.seq, 0x0102_0304);
    assert_eq!(p.offset, 0x0506);
    assert_eq!(p.length, 3);
    assert_eq!(p.indicators, 3);
    assert_eq!(&p.payload[..4], &[9, 8, 7, 0]);
    let full = from_buffer(&bytes).unwrap();
    assert_eq!(full.payload, m.packet.payload);
}

#[test]
fn from_buffer_rejects_non_fragments() {
    assert!(from_buffer(&[0u8; 8]).is_none());
    assert!(from_buffer(&[0, 0, 0, 0, 0, 0, 0, 0, 4]).is_none());
    assert!(from_buffer(&[0, 0, 0, 0, 0, 0, 2, 0, 1, 5]).is_none());
    let mut big = vec![0u8; 9 + 1464];
    big[6] = (1464 & 0xff) as u8;
    big[7] = (1464 >> 8) as u8;
    assert!(from_buffer(&big).is_none());
    assert!(from_buffer(&[0, 0, 0, 0, 0, 0, 1, 0, 1, 5]).is_some());
}

#[test]
fn layout_of_sizes() {
    assert_eq!(fragment_layout(0), (0, MAX_PAYLOAD_LEN));
    assert_eq!(fragment_layout(1), (1, 1));
    assert_eq!(fragment_layout(1463), (1, 1463));
    assert_eq!(fragment_layout(1464), (2, 1));
    assert_eq!(fragment_layout(3000), (3, 74));
}

#[test]
fn fragments_without_buffer_keep_fill() {
    let mut t = PacketWithMeta::new(9);
    t.next_seq(3);
    let frags = generate_packets(10, &mut t, None, 77);
    assert_eq!(frags.len(), 3);
    assert_eq!(
        frags.iter().map(|f| f.packet.length as usize).sum::<usize>(),
        2 * MAX_PAYLOAD_LEN + 10
    );
    for (i, f) in frags.iter().enumerate() {
        assert_eq!(f.packet.offset as usize, i);
        assert_eq!(f.arrival_time, 77);
        assert_eq!(f.port, 9);
        assert_eq!(f.packet.payload[5], 5);
    }
    assert_eq!(t.arrival_time, 77);
}

fn msg(offset: usize, num: usize, costs: (u64, u64)) -> SchedulingMessage {
    let mut p = PacketWithMeta::new(1);
    p.packet.set_offset(offset as u16);
    p.num = num;
    SchedulingMessage::new(&p, 0, vec![false, false], vec![0, 0], vec![costs.0, costs.1])
}

#[test]
fn hard_threshold_is_monotone() {
    for theta in [0, PARAMETER_SCALE / 3, PARAMETER_SCALE / 2, PARAMETER_SCALE, 2 * PARAMETER_SCALE] {
        let params = PolicyParameter { theta_1: theta, theta_2: 0, theta_3: 0, theta_4: 0 };
        let mut seen_second = false;
        for offset in 0..7 {
            let t = Policy::HardThreshold.get_packet_state(&msg(offset, 7, (0, 0)), &params).unwrap();
            let second = to_indicator(t) & 1 == 1;
            assert!(!(seen_second && !second));
            seen_second = second;
        }
    }
}

#[test]
fn queue_aware_tie_goes_second() {
    let params = PolicyParameter::default();
    let t = Policy::QueueAware.get_packet_state(&msg(0, 2, (5, 5)), &params).unwrap();
    assert_eq!(t, PacketType::SecondLink);
    let t = Policy::QueueAware.get_packet_state(&msg(1, 2, (4, 5)), &params).unwrap();
    assert_eq!(t, PacketType::LastPacketInFirstLink);
    let t = Policy::QueueAware.get_packet_state(&msg(0, 2, (6, 5)), &params).unwrap();
    assert_eq!(t, PacketType::SecondLink);
}

#[test]
fn controller_report_send() {
    let mut ctl = TxPartCtler::new(Policy::HardThreshold, PolicyParameter::default());
    ctl.report_send(1, false);
    assert_eq!(ctl.blocked_signals, vec![false, true]);
    ctl.report_send(1, true);
    assert_eq!(ctl.blocked_signals, vec![false, false]);
    let mut rr = TxPartCtler::new(Policy::ConditionalRR, PolicyParameter::default());
    rr.report_send(0, false);
    rr.report_send(0, true);
    assert_eq!(rr.blocked_signals, vec![true, false]);
}

fn frag(seq: u32, offset: u16, length: u16, ind: u8, fill: u8) -> Vec<u8> {
    let mut v = vec![0u8; 9 + length as usize];
    v[..4].copy_from_slice(&seq.to_le_bytes());
    v[4..6].copy_from_slice(&offset.to_le_bytes());
    v[6..8].copy_from_slice(&length.to_le_bytes());
    v[8] = ind;
    for b in v[9..].iter_mut() {
        *b = fill;
    }
    v
}

#[test]
fn reassembly_completes_only_with_terminator_and_all_offsets() {
    let mut r = RecvRecord::new();
    assert!(r.record(&frag(4, 2, 2, 3, 0xCC), 300));
    assert!(!r.is_complete);
    assert_eq!(r.last_packet_id, Some(2));
    assert!(r.record(&frag(4, 0, 3, 0, 0xAA), 100));
    assert!(!r.is_complete);
    assert!(r.record(&frag(4, 1, 1, 1, 0xBB), 250));
    assert!(r.is_complete);
    assert_eq!(r.gather(), vec![0xAA, 0xAA, 0xAA, 0xBB, 0xCC, 0xCC]);
    assert_eq!(r.delta(), 150);
}

#[test]
fn reassembly_without_terminator_is_incomplete() {
    let mut r = RecvRecord::new();
    assert!(r.record(&frag(1, 0, 1, 0, 1), 10));
    assert!(r.record(&frag(1, 1, 1, 1, 2), 20));
    assert!(!r.is_complete);
    assert!(!r.record(&[1, 2, 3], 30));
    assert_eq!(r.packets.len(), 2);
    assert_eq!(r.delta(), 10);
}

#[test]
fn digits_parse() {
    assert_eq!(parse_digits("pkt_num:123,", 8), Some(123));
    assert_eq!(parse_digits("abc", 0), None);
    assert_eq!(parse_digits("12", 5), None);
    assert_eq!(parse_digits("99999999999999999999999", 0), None);
    assert_eq!(parse_digits("007x", 0), Some(7));
}

#[test]
fn queue_report_parse() {
    let report = "head:0x1, tail:0x2, pkt_num:5, macid:1, ac:1\n\
                  BCN head:0x1, tail:0x2, pkt_num:9, macid:1, ac:1\n\
                  head:0x1, tail:0x2, pkt_num:7, macid:1, ac:1\r\n\
                  head:0x1, tail:0x2, pkt_num:3, macid:2, ac:300\n\
                  ac:2 pkt_num:4\n\
                  nothing here";
    let info = parse_queue_info(report);
    assert_eq!(info.get(&1), Some(&12));
    assert_eq!(info.get(&0), Some(&3));
    assert_eq!(info.get(&2), None);
    assert_eq!(info.len(), 2);
    assert_eq!(parse_queue_line(b"pkt_num:8 ac:3"), Some((3, 8)));
    assert_eq!(parse_queue_line(b"pkt_num:x ac:3"), None);
    assert!(parse_queue_info("").is_empty());
}

#[test]
fn segment_records() {
    let mut data = Vec::new();
    data.extend_from_slice(&1_000u64.to_be_bytes());
    data.extend_from_slice(&3u64.to_be_bytes());
    data.extend_from_slice(&[1, 2, 3]);
    data.extend_from_slice(&2_000u64.to_be_bytes());
    data.extend_from_slice(&0u64.to_be_bytes());
    let recs = read_packets(&data).unwrap();
    assert_eq!(recs, vec![(1_000, vec![1, 2, 3]), (2_000, vec![])]);
    assert_eq!(read_packets(&[]), Some(vec![]));
    assert_eq!(read_packets(&data[..20]), None);
    assert_eq!(read_packets(&data[..5]), None);
}

#[test]
fn pong_parse() {
    let mut buf = vec![0u8; 27];
    buf[..4].copy_from_slice(&7u32.to_le_bytes());
    buf[19..27].copy_from_slice(&0.002f64.to_le_bytes());
    let (seq, bits) = parse_pong(&buf).unwrap();
    assert_eq!(seq, 7);
    assert_eq!(f64::from_bits(bits), 0.002);
    assert!(parse_pong(&buf[..26]).is_none());
}

#[test]
fn rtt_unknown_seq_dropped() {
    let mut r = RttRecords::new(4, 10);
    assert_eq!(r.update(3, 100, 0), None);
    r.update_arrival(1, 50);
    assert_eq!(r.update(5, 100, 0), None);
    assert_eq!(r.update(1, 40, 0), Some(0));
    let s = r.statistic(1_000);
    assert_eq!(s.rtt_avg, 0);
    assert_eq!(s.outage, 0);
}

#[test]
fn rtt_pending_entry_accumulates_outage() {
    let mut r = RttRecords::new(4, 10);
    r.update_arrival(2, 100);
    let s = r.statistic(150);
    assert_eq!(s.outage, 40);
    let s = r.statistic(170);
    assert_eq!(s.outage, 20);
    assert_eq!(r.queue[2].unwrap().last_outage_time, 170);
}

#[test]
fn cycled_queue_drops_oldest() {
    let mut q: CycledVecDequeue<u32> = CycledVecDequeue::new(2);
    q.push(1);
    q.push(2);
    q.push(3);
    assert_eq!(q.len(), 2);
    assert_eq!(q.front(), Some(&2));
    assert_eq!(q.pop_front(), Some(2));
    assert_eq!(q.pop_front(), Some(3));
    assert_eq!(q.pop_front(), None);
}

#[test]
fn throttle_rate_estimate() {
    let mut th = RateThrottler::new(String::from("s"), 1, 4);
    assert_eq!(th.current_rate_bps(0, 10), None);
    let mut p = PacketWithMeta::new(1);
    p.packet.set_length(1000);
    th.prepare(vec![p], 0);
    assert!(th.consume(1_000_000_000).is_some());
    assert_eq!(th.current_rate_bps(0, 1_000_000_000), None);
    assert_eq!(th.current_rate_bps(0, 2_000_000_000), Some(8_000));
    assert_eq!(th.current_rate_bps(1000, 2_000_000_000), Some(16_000));
    assert!(th.exceeds_with(1, 2_000_000_000));
    th.prepare(vec![], 2_000_000_000);
    assert_eq!(th.rate, 8_000);
    th.reset();
    assert!(!th.exceeds_with(1, 2_000_000_000));
}

fn config(slots: usize, files: usize) -> Config {
    let version = |b: u64| Version {
        label: format!("v{}", b),
        bitrate_bps: b,
        dir: String::from("d"),
        files: (0..files)
            .map(|i| FileEntry { slot_index: i, start_frame: 0, end_frame: 1, path: format!("{}-{}", b, i) })
            .collect(),
    };
    Config {
        input: String::from("in"),
        width: 1,
        height: 1,
        fps: 30,
        slot_seconds: 1,
        frames_per_slot: 30,
        bitrates_bps: vec![100, 200],
        slots,
        versions: vec![version(100), version(200)],
    }
}

#[test]
fn version_manager_walks_slots() {
    assert!(VersionManager::new(config(3, 2)).is_none());
    let mut vm = VersionManager::new(config(2, 2)).unwrap();
    assert_eq!(vm.next(), "100-0");
    assert_eq!(vm.next(), "100-1");
    assert_eq!(vm.next(), "100-0");
    vm.set_version(1);
    assert_eq!(vm.current_version, 1);
    assert_eq!(vm.next(), "200-1");
    assert_eq!(vm.get_bitrate(), 200);
    vm.set_version(5);
    assert_eq!(vm.current_version, 1);
    assert_eq!(vm.available_bitrates(), &[100, 200]);
}

#[test]
fn link_info_from_iw_output() {
    let out = "Connected to 0a:1b:2c:3d:4e:5f (on wlan0)\n\tSSID: lab net  \n\tfreq: 5180\n\tRX: 1 bytes (2 packets)\n\tsignal: -47 dBm\n\ttx bitrate: 866.7 MBit/s VHT-MCS 9 80MHz\n";
    let info = parse_link_info(out);
    assert_eq!(info.bssid.as_deref(), Some("0a:1b:2c:3d:4e:5f"));
    assert_eq!(info.ssid.as_deref(), Some("lab net"));
    assert_eq!(info.freq_mhz, Some(5180));
    assert_eq!(info.signal_dbm, Some(-47));
    assert_eq!(info.tx_kbit_s, Some(866_700));
    let empty = parse_link_info("Not connected.\n");
    assert!(empty.bssid.is_none() && empty.ssid.is_none());
    assert_eq!(empty.freq_mhz, None);
    assert_eq!(empty.signal_dbm, None);
    assert_eq!(empty.tx_kbit_s, None);
    let whole = parse_link_info("\ttx bitrate: 54 MBit/s\n\tsignal: 12 dBm\n");
    assert_eq!(whole.tx_kbit_s, Some(54_000));
    assert_eq!(whole.signal_dbm, Some(12));
    let fine = parse_link_info("\ttx bitrate: 1.23456 MBit/s\n");
    assert_eq!(fine.tx_kbit_s, Some(1_234));
}

#[test]
fn device_from_address_listing() {
    let listing = "1: lo    inet 127.0.0.1/8 scope host lo\\       valid_lft forever\n\
                   3: wlan0    inet 192.168.1.7/24 brd 192.168.1.255 scope global wlan0\n\
                   3: wlan0    inet6 fe80::1A2b/64 scope link\n\
                   4: wlan1    inet 10.0.0.2/24 scope global wlan1\n";
    assert_eq!(get_dev_from_ip(listing, "192.168.1.7").as_deref(), Some("wlan0"));
    assert_eq!(get_dev_from_ip(listing, "10.0.0.2").as_deref(), Some("wlan1"));
    assert_eq!(get_dev_from_ip(listing, "FE80::1a2B").as_deref(), Some("wlan0"));
    assert_eq!(get_dev_from_ip(listing, "10.0.0.3"), None);
    assert_eq!(get_dev_from_ip(listing, "192.168.1"), None);
}

#[test]
fn trace_cursor_wraps_and_stops() {
    let mut c = TraceCursor::new(1, 5, 3);
    assert_eq!(c.next_row(), Some(2));
    assert_eq!(c.next_row(), Some(0));
    assert_eq!(c.next_row(), Some(1));
    assert_eq!(c.next_row(), Some(2));
    assert_eq!(c.next_row(), None);
    assert_eq!(c.next_row(), None);
    assert_eq!(c.idx, 2);
    let mut far = TraceCursor::new(usize::MAX, 10, 4);
    assert_eq!(far.next_row(), Some(0));
}
