use multilink::fragment::fragment_datagram;
use multilink::packet::{PacketType, PacketWithMeta, APP_HEADER_LENGTH, MAX_PAYLOAD_LEN};
use multilink::policies::{Policy, PolicyParameter, SchedulingMessage, PARAMETER_SCALE};
use multilink::record::RecvRecord;
use multilink::rtt_records::RttRecords;
use multilink::source::{enqueue_datagram, finish_send, schedule_fragment};
use multilink::throttle::{Admission, RateThrottler};
use multilink::tx_part_ctl::TxPartCtler;

fn datagram(size: usize) -> Vec<u8> {
    (0..size).map(|i| ((i * 7 + 3) % 251) as u8).collect()
}

fn message(offset: usize, num: usize, blocked: (bool, bool)) -> SchedulingMessage {
    let mut p = PacketWithMeta::new(5000);
    p.packet.set_offset(offset as u16);
    p.num = num;
    SchedulingMessage::new(&p, 0, vec![blocked.0, blocked.1], vec![0, 0], vec![0, 0])
}

fn half() -> PolicyParameter {
    PolicyParameter { theta_1: PARAMETER_SCALE / 2, theta_2: 0, theta_3: 0, theta_4: 0 }
}

fn wire(f: &PacketWithMeta) -> Vec<u8> {
    let bytes = f.to_u8_slice();
    bytes[..APP_HEADER_LENGTH + f.packet.length as usize].to_vec()
}

/// Schedules, encodes and records every fragment; returns the record.
fn send_all(frags: &mut Vec<PacketWithMeta>, policy: Policy, params: PolicyParameter) -> RecvRecord {
    let mut rec = RecvRecord::new();
    for f in frags.iter_mut() {
        let msg = SchedulingMessage::new(f, 0, vec![false, false], vec![0, 0], vec![0, 0]);
        let t = policy.get_packet_state(&msg, &params).unwrap();
        f.packet.set_indicator(t);
        assert!(rec.record(&wire(f), 10));
    }
    rec
}

#[test]
fn single_fragment_datagram() {
    let data = datagram(100);
    let mut template = PacketWithMeta::new(5000);
    let mut frags = fragment_datagram(&mut template, 100, Some(&data), 7);
    assert_eq!(frags.len(), 1);
    assert_eq!(template.num, 1);
    assert_eq!(template.packet.seq, 1);
    assert_eq!(frags[0].packet.seq, 1);
    assert_eq!(frags[0].packet.length, 100);
    assert_eq!(frags[0].packet.offset, 0);
    let rec = send_all(&mut frags, Policy::HardThreshold, half());
    assert!(frags[0].packet.indicators == 2 || frags[0].packet.indicators == 3);
    assert!(rec.is_complete);
    assert_eq!(rec.gather(), data);
}

#[test]
fn first_fragment_offset_carries_count_in_template() {
    let mut template = PacketWithMeta::new(5000);
    let frags = fragment_datagram(&mut template, 100, None, 7);
    assert_eq!(frags.len(), 1);
    assert_eq!(template.packet.seq, 1);
    let mut t2 = PacketWithMeta::new(5000);
    t2.next_seq(1);
    assert_eq!(t2.packet.offset, 1);
    assert_eq!(t2.packet.seq, 1);
}

#[test]
fn exact_multiple_datagram() {
    let size = 2 * MAX_PAYLOAD_LEN;
    assert_eq!(size, 2926);
    let data = datagram(size);
    let mut template = PacketWithMeta::new(5000);
    let mut frags = fragment_datagram(&mut template, size, Some(&data), 7);
    assert_eq!(frags.len(), 2);
    assert_eq!(frags[0].num, 2);
    assert_eq!(frags[0].packet.length, 1463);
    assert_eq!(frags[1].packet.length, 1463);
    assert_eq!(frags[0].packet.offset, 0);
    assert_eq!(frags[1].packet.offset, 1);
    let rec = send_all(&mut frags, Policy::HardThreshold, half());
    assert_eq!(frags[0].packet.indicators & 0b10, 0);
    assert_eq!(frags[1].packet.indicators & 0b10, 0b10);
    assert_eq!(rec.gather(), data);
}

#[test]
fn hard_threshold_split_at_half() {
    let params = half();
    for offset in 0..10 {
        let t = Policy::HardThreshold.get_packet_state(&message(offset, 10, (false, false)), &params).unwrap();
        if offset < 5 {
            assert_eq!(t, PacketType::FirstLink);
        } else if offset < 9 {
            assert_eq!(t, PacketType::SecondLink);
        } else {
            assert_eq!(t, PacketType::LastPacketInSecondLink);
        }
    }
}

#[test]
fn conditional_rr_scenarios() {
    let params = PolicyParameter::default();
    let mut ctl = TxPartCtler::new(Policy::ConditionalRR, params);
    ctl.blocked_signals = vec![true, false];
    let m = ctl.determine_schedule_info(&message_packet(2, 3), &empty_snapshot(), vec![0, 0]);
    assert_eq!(ctl.get_packet_state(&m), Some(PacketType::LastPacketInSecondLink));
    ctl.blocked_signals = vec![false, false];
    let m = ctl.determine_schedule_info(&message_packet(0, 3), &empty_snapshot(), vec![0, 0]);
    assert_eq!(ctl.get_packet_state(&m), Some(PacketType::FirstLink));
    for offset in 0..3 {
        ctl.blocked_signals = vec![true, true];
        let m = ctl.determine_schedule_info(&message_packet(offset, 3), &empty_snapshot(), vec![0, 0]);
        assert_eq!(ctl.get_packet_state(&m), None);
        assert_eq!(ctl.blocked_signals, vec![false, false]);
    }
}

fn message_packet(offset: u16, num: usize) -> PacketWithMeta {
    let mut p = PacketWithMeta::new(5000);
    p.packet.set_offset(offset);
    p.num = num;
    p
}

fn empty_snapshot() -> multilink::mac_queue::MACQueuesSnapshot {
    multilink::mac_queue::MACQueuesSnapshot { taken_at: 0, queues: vec![], link: vec![] }
}

fn staged(n: usize, length: u16) -> Vec<PacketWithMeta> {
    (0..n)
        .map(|_| {
            let mut p = PacketWithMeta::new(5000);
            p.packet.set_length(length);
            p
        })
        .collect()
}

#[test]
fn throttle_paces_at_ten_megabit() {
    let mut th = RateThrottler::new(String::from("s"), 10_000_000, 20);
    th.prepare(staged(200, 1500), 0);
    let mut now: u64 = 1_000_000_000;
    let mut admitted: Vec<u64> = Vec::new();
    while admitted.len() < 150 {
        match th.try_consume(now) {
            Admission::Admit(p) => {
                assert_eq!(p.packet.length, 1500);
                assert!(th.consume(now).is_some());
                admitted.push(now);
            }
            Admission::Throttled => now += 100_000,
            Admission::Empty => panic!("stage ran dry"),
        }
    }
    let tail = &admitted[50..];
    let avg = (tail[tail.len() - 1] - tail[0]) / (tail.len() as u64 - 1);
    assert!(avg >= 1_200_000, "average interval {} ns", avg);
    assert!(avg <= 1_500_000, "average interval {} ns", avg);
}

#[test]
fn throttle_zero_admits_unconditionally() {
    let mut th = RateThrottler::new(String::from("s"), 0, 20);
    th.prepare(staged(100, 1500), 0);
    let now: u64 = 5;
    for _ in 0..100 {
        match th.try_consume(now) {
            Admission::Admit(_) => {
                assert!(th.consume(now).is_some());
            }
            _ => panic!("throttle zero must admit"),
        }
    }
    assert!(matches!(th.try_consume(now), Admission::Empty));
}

#[test]
fn rtt_on_time_pong() {
    let mut r = RttRecords::new(200, 50_000_000);
    r.update_arrival(7, 1_000_000_000);
    assert_eq!(r.update(7, 1_020_000_000, 2_000_000), Some(20_000_000));
    let s = r.statistic(1_020_000_000);
    assert_eq!(s.rtt_avg, 20_000_000);
    assert_eq!(s.outage, 0);
    assert!(r.queue[7].is_none());
}

#[test]
fn rtt_late_pong() {
    let mut r = RttRecords::new(200, 50_000_000);
    r.update_arrival(7, 1_000_000_000);
    assert_eq!(r.update(7, 1_080_000_000, 2_000_000), Some(80_000_000));
    let s = r.statistic(1_080_000_000);
    assert_eq!(s.outage, 30_000_000);
    let rate = s.outage as f64 / r.target_rtt as f64;
    assert!((rate - 0.6).abs() < 1e-12);
}

#[test]
fn drain_round_trip_through_stage() {
    let data = datagram(5000);
    let mut template = PacketWithMeta::new(6000);
    let mut th = RateThrottler::new(String::from("s"), 0, 8);
    let mut ctl = TxPartCtler::new(Policy::HardThreshold, half());
    let seq = enqueue_datagram(&mut template, &mut th, data.len(), Some(&data), 1);
    assert_eq!(seq, 1);
    let snap = empty_snapshot();
    let mut rec = RecvRecord::new();
    let mut links = Vec::new();
    let mut terminators = 0;
    loop {
        match th.try_consume(2) {
            Admission::Admit(mut p) => {
                let link = schedule_fragment(&mut ctl, &mut p, &snap, vec![0, 0]).unwrap();
                assert_eq!(link, (p.packet.indicators & 1) as usize);
                if p.packet.indicators & 0b10 != 0 {
                    terminators += 1;
                }
                links.push(link);
                assert!(rec.record(&wire(&p), 3));
                finish_send(&mut th, &mut ctl, link, true, 2);
            }
            Admission::Empty => break,
            Admission::Throttled => panic!("throttle zero must admit"),
        }
    }
    assert_eq!(links, vec![0, 0, 1, 1]);
    assert_eq!(terminators, 1);
    assert!(rec.is_complete);
    assert_eq!(rec.gather(), data);
}

#[test]
fn stalled_fragment_stays_staged() {
    let mut template = PacketWithMeta::new(6000);
    let mut th = RateThrottler::new(String::from("s"), 0, 8);
    let mut ctl = TxPartCtler::new(Policy::ConditionalRR, PolicyParameter::default());
    enqueue_datagram(&mut template, &mut th, 100, None, 1);
    ctl.report_send(0, false);
    ctl.report_send(1, false);
    let mut p = match th.try_consume(2) {
        Admission::Admit(p) => p,
        _ => panic!("fragment expected"),
    };
    assert_eq!(schedule_fragment(&mut ctl, &mut p, &empty_snapshot(), vec![0, 0]), None);
    assert_eq!(ctl.blocked_signals, vec![false, false]);
    assert_eq!(schedule_fragment(&mut ctl, &mut p, &empty_snapshot(), vec![0, 0]), Some(0));
    assert_eq!(p.packet.indicators, 2);
    finish_send(&mut th, &mut ctl, 0, false, 3);
    assert_eq!(ctl.blocked_signals, vec![true, false]);
    assert!(matches!(th.try_consume(4), Admission::Admit(_)));
    finish_send(&mut th, &mut ctl, 0, true, 4);
    assert!(matches!(th.try_consume(5), Admission::Empty));
}
