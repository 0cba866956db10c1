use rperf::packet::{ReceivedPacket, SentPacket};
use rperf::packet_result::{PacketResult, UNAVAILABLE};
use rperf::sorting::sort_by_index;
use rperf::test_parameters::{Protocol, TestParameters};
use rperf::test_result::TestResult;
use rperf::timespan::TimeSpan;

fn nanos(n: u128) -> TimeSpan {
    TimeSpan::from_nanos(n).unwrap()
}

fn parameters(measure_owl: bool, output_rtt: bool) -> TestParameters {
    TestParameters {
        server_ip: String::from("127.0.0.1"),
        server_port: 7777,
        protocol: Protocol::Udp,
        test_duration: TimeSpan::from_secs(1),
        packets_per_second: 1000,
        packet_size: 64,
        output_rtt,
        measure_owl,
    }
}

fn sent(index: u64, at: u128, wall: u128) -> SentPacket {
    SentPacket { index, sent_duration: nanos(at), sent_timestamp: nanos(wall) }
}

fn received(index: u64, at: u128, wall: u128, server: u128) -> ReceivedPacket {
    ReceivedPacket {
        index,
        received_duration: nanos(at),
        received_timestamp: nanos(wall),
        server_timestamp: nanos(server),
    }
}

fn result_with(index: u64, latency: i128) -> PacketResult {
    PacketResult {
        index,
        tx_time: TimeSpan::zero(),
        rx_time: TimeSpan::zero(),
        latency,
        latency_client_to_server: UNAVAILABLE,
        latency_server_to_client: UNAVAILABLE,
    }
}

#[test]
fn round_trip_latency_is_arrival_minus_sending() {
    let s = sent(5, 1_000_000, 50_000_000_000);
    let r = received(5, 1_250_001, 50_000_300_000, 50_000_100_000);
    let whole = PacketResult::new(&s, &r, false, true);
    assert_eq!(whole.index, 5);
    assert_eq!(whole.tx_time, nanos(1_000_000));
    assert_eq!(whole.rx_time, nanos(1_250_001));
    assert_eq!(whole.latency, 250_001_000);
    assert_eq!(whole.latency_client_to_server, UNAVAILABLE);
    assert_eq!(whole.latency_server_to_client, UNAVAILABLE);
}

#[test]
fn halved_output_is_exactly_half() {
    let s = sent(5, 1_000_000, 50_000_000_000);
    let r = received(5, 1_250_001, 50_000_300_001, 50_000_100_000);
    for measure_owl in [false, true] {
        let whole = PacketResult::new(&s, &r, measure_owl, true);
        let half = PacketResult::new(&s, &r, measure_owl, false);
        assert_eq!(2 * half.latency, whole.latency);
        assert_eq!(half.latency_client_to_server, whole.latency_client_to_server);
        assert_eq!(half.latency_server_to_client, whole.latency_server_to_client);
        assert_eq!(half.tx_time, whole.tx_time);
        assert_eq!(half.rx_time, whole.rx_time);
    }
    assert_eq!(PacketResult::new(&s, &r, false, false).latency, 125_000_500);
    assert_eq!(PacketResult::new(&s, &r, true, false).latency, 150_000_500);
}

#[test]
fn one_way_latencies_come_from_the_wall_clocks() {
    let s = sent(1, 10, 7_000_000_000);
    let r = received(1, 900, 7_000_000_700, 7_000_000_300);
    let result = PacketResult::new(&s, &r, true, true);
    assert_eq!(result.latency_client_to_server, 300_000);
    assert_eq!(result.latency_server_to_client, 400_000);
    assert_eq!(result.latency, 700_000);
}

#[test]
fn server_clock_ahead_makes_one_way_latency_unavailable() {
    let ahead = 5_000_000_000u128;
    let mut sent_packets = Vec::new();
    let mut received_packets = Vec::new();
    for i in 0..100u64 {
        let wall = 1_700_000_000_000_000_000 + (i as u128) * 1_000_000;
        sent_packets.push(sent(i, (i as u128) * 1_000_000, wall));
        received_packets.push(received(
            i,
            (i as u128) * 1_000_000 + 200_000,
            wall + 200_000,
            wall + 100_000 + ahead,
        ));
    }
    let result =
        TestResult::from_tx_rx_times(parameters(true, true), &sent_packets, &received_packets, true);
    assert_eq!(result.packet_results.len(), 100);
    for r in &result.packet_results {
        assert_eq!(r.latency_client_to_server, UNAVAILABLE);
        assert_eq!(r.latency_server_to_client, UNAVAILABLE);
        assert_eq!(r.latency, UNAVAILABLE);
    }
    assert_eq!(result.lost_packets_count, 0);
}

#[test]
fn server_clock_behind_makes_one_way_latency_unavailable() {
    let s = sent(1, 10, 7_000_000_000);
    let r = received(1, 900, 7_000_000_700, 6_999_999_999);
    let result = PacketResult::new(&s, &r, true, true);
    assert_eq!(result.latency_client_to_server, UNAVAILABLE);
    assert_eq!(result.latency_server_to_client, UNAVAILABLE);
    assert_eq!(result.latency, -1_000_000_000);
    assert_eq!(PacketResult::new(&s, &r, true, false).latency, -500_000_000);
}

#[test]
fn small_skew_that_keeps_the_order_goes_unnoticed() {
    let s = sent(1, 10, 7_000_000_000);
    let r = received(1, 900, 7_000_000_700, 7_000_000_699);
    let result = PacketResult::new(&s, &r, true, true);
    assert_eq!(result.latency_client_to_server, 699_000);
    assert_eq!(result.latency_server_to_client, 1_000);
}

#[test]
fn reply_recorded_before_its_packet_gives_negative_latency() {
    let s = sent(1, 1_000, 0);
    let r = received(1, 400, 0, 0);
    assert_eq!(PacketResult::new(&s, &r, false, true).latency, -600_000);
    assert_eq!(PacketResult::new(&s, &r, false, false).latency, -300_000);
}

#[test]
fn results_are_ordered_by_index() {
    let sent_packets = vec![sent(2, 30, 0), sent(0, 10, 0), sent(1, 20, 0)];
    let received_packets =
        vec![received(1, 25, 0, 0), received(2, 31, 0, 0), received(0, 12, 0, 0)];
    let result =
        TestResult::from_tx_rx_times(parameters(false, true), &sent_packets, &received_packets, true);
    let indices: Vec<u64> = result.packet_results.iter().map(|r| r.index).collect();
    assert_eq!(indices, vec![0, 1, 2]);
    let latencies: Vec<i128> = result.packet_results.iter().map(|r| r.latency).collect();
    assert_eq!(latencies, vec![2_000, 5_000, 1_000]);
    assert_eq!(result.sent_duration_nanos, 20);
}

#[test]
fn sorting_is_stable_and_idempotent() {
    let mut v = vec![
        result_with(3, 1),
        result_with(1, 2),
        result_with(3, 3),
        result_with(0, 4),
        result_with(1, 5),
    ];
    sort_by_index(&mut v);
    let order: Vec<(u64, i128)> = v.iter().map(|r| (r.index, r.latency)).collect();
    assert_eq!(order, vec![(0, 4), (1, 2), (1, 5), (3, 1), (3, 3)]);
    let once = v.clone();
    sort_by_index(&mut v);
    assert_eq!(v, once);
    for pair in v.windows(2) {
        assert!(pair[0].index <= pair[1].index);
    }
    let mut empty: Vec<PacketResult> = Vec::new();
    sort_by_index(&mut empty);
    assert!(empty.is_empty());
}

#[test]
fn sorting_agrees_with_the_standard_stable_sort() {
    let mut x: u64 = 88172645463325252;
    let mut v = Vec::new();
    for i in 0..500 {
        x ^= x << 13;
        x ^= x >> 7;
        x ^= x << 17;
        v.push(result_with(x % 50, i));
    }
    let mut expected = v.clone();
    expected.sort_by(|a, b| a.index.cmp(&b.index));
    sort_by_index(&mut v);
    assert_eq!(v, expected);
}

#[test]
fn sorting_handles_long_and_reversed_input() {
    let mut v: Vec<PacketResult> = (0..4000).rev().map(|i| result_with(i / 3, i as i128)).collect();
    let mut expected = v.clone();
    expected.sort_by(|a, b| a.index.cmp(&b.index));
    sort_by_index(&mut v);
    assert_eq!(v, expected);
    let mut one = vec![result_with(9, 1)];
    sort_by_index(&mut one);
    assert_eq!(one, vec![result_with(9, 1)]);
    let mut two = vec![result_with(9, 1), result_with(2, 2)];
    sort_by_index(&mut two);
    assert_eq!(two, vec![result_with(2, 2), result_with(9, 1)]);
}

#[test]
fn a_packet_answered_twice_is_paired_with_its_last_reply() {
    let sent_packets = vec![sent(0, 100, 0)];
    let received_packets = vec![received(0, 150, 0, 0), received(0, 190, 0, 0)];
    let result =
        TestResult::from_tx_rx_times(parameters(false, true), &sent_packets, &received_packets, true);
    assert_eq!(result.packet_results.len(), 1);
    assert_eq!(result.packet_results[0].latency, 90_000);
    assert_eq!(result.sent_packets_count, 1);
    assert_eq!(result.received_packets_count, 2);
    assert_eq!(result.lost_packets_count, 0);
}

#[test]
fn replies_that_answer_nothing_are_passed_over() {
    let sent_packets = vec![sent(0, 100, 0), sent(1, 200, 0)];
    let received_packets = vec![received(7, 150, 0, 0), received(1, 260, 0, 0)];
    let result =
        TestResult::from_tx_rx_times(parameters(false, true), &sent_packets, &received_packets, true);
    assert_eq!(result.packet_results.len(), 1);
    assert_eq!(result.packet_results[0].index, 1);
    assert_eq!(result.sent_packets_count, 2);
    assert_eq!(result.received_packets_count, 2);
    assert_eq!(result.lost_packets_count, 1);
    assert_eq!(result.sent_duration_nanos, 0);
}

#[test]
fn nothing_lost_gives_equal_counts() {
    let n = 250u64;
    let sent_packets: Vec<SentPacket> = (0..n).map(|i| sent(i, (i as u128) * 1_000, 0)).collect();
    let received_packets: Vec<ReceivedPacket> =
        (0..n).rev().map(|i| received(i, (i as u128) * 1_000 + 500, 0, 0)).collect();
    let result = TestResult::from_tx_rx_times(
        parameters(false, false),
        &sent_packets,
        &received_packets,
        false,
    );
    assert_eq!(result.sent_packets_count, n);
    assert_eq!(result.received_packets_count, n);
    assert_eq!(result.lost_packets_count, 0);
    assert_eq!(result.packet_results.len() as u64, n);
    assert_eq!(result.sent_duration_nanos, 249_000);
    assert_eq!(result.average_latency(), Some(250_000));
}

#[test]
fn silent_server_loses_every_packet() {
    let sent_packets: Vec<SentPacket> =
        (0..1000).map(|i| sent(i, (i as u128) * 1_000_000, 0)).collect();
    let received_packets: Vec<ReceivedPacket> = Vec::new();
    let result =
        TestResult::from_tx_rx_times(parameters(false, true), &sent_packets, &received_packets, true);
    assert_eq!(result.sent_packets_count, 1000);
    assert_eq!(result.received_packets_count, 0);
    assert_eq!(result.lost_packets_count, 1000);
    assert!(result.packet_results.is_empty());
    assert_eq!(result.sent_duration_nanos, 0);
    assert_eq!(result.average_latency(), None);
}

#[test]
fn empty_run_has_no_average() {
    let result = TestResult::from_tx_rx_times(parameters(false, true), &Vec::new(), &Vec::new(), true);
    assert_eq!(result.average_latency(), None);
    assert_eq!(result.sent_packets_count, 0);
    assert_eq!(result.lost_packets_count, 0);
}

fn result_of(latencies: &[i128]) -> TestResult {
    TestResult {
        test_parameters: parameters(false, true),
        packet_results: latencies.iter().enumerate().map(|(i, l)| result_with(i as u64, *l)).collect(),
        sent_duration_nanos: 0,
        sent_packets_count: latencies.len() as u64,
        received_packets_count: latencies.len() as u64,
        lost_packets_count: 0,
    }
}

#[test]
fn average_is_the_mean_rounded_down() {
    assert_eq!(result_of(&[10]).average_latency(), Some(10));
    assert_eq!(result_of(&[1, 2]).average_latency(), Some(1));
    assert_eq!(result_of(&[3, 4, 5]).average_latency(), Some(4));
    assert_eq!(result_of(&[-1, -2]).average_latency(), Some(-2));
    assert_eq!(result_of(&[-3, 3]).average_latency(), Some(0));
    assert_eq!(result_of(&[-3, 2]).average_latency(), Some(-1));
    assert_eq!(result_of(&[UNAVAILABLE, 1_000_000_000]).average_latency(), Some(0));
    assert_eq!(result_of(&[0, 0, 0]).average_latency(), Some(0));
}

#[test]
fn average_does_not_overflow() {
    assert_eq!(result_of(&[i128::MAX, i128::MAX, i128::MAX]).average_latency(), Some(i128::MAX));
    assert_eq!(result_of(&[i128::MIN, i128::MIN]).average_latency(), Some(i128::MIN));
    assert_eq!(result_of(&[i128::MIN, i128::MAX]).average_latency(), Some(-1));
    assert_eq!(result_of(&[i128::MAX, i128::MIN, i128::MAX]).average_latency(),
        Some((i128::MAX - 1) / 3));
    assert_eq!(result_of(&[i128::MAX, i128::MAX - 1]).average_latency(), Some(i128::MAX - 1));
    assert_eq!(result_of(&[i128::MIN]).average_latency(), Some(i128::MIN));
}

#[test]
fn average_agrees_with_wide_arithmetic_on_small_values() {
    let mut x: u64 = 0x2545_f491_4f6c_dd1d;
    for n in 1..60usize {
        let mut latencies = Vec::new();
        let mut sum: i128 = 0;
        for _ in 0..n {
            x ^= x << 13;
            x ^= x >> 7;
            x ^= x << 17;
            let l = (x as i64 as i128) >> 8;
            latencies.push(l);
            sum += l;
        }
        assert_eq!(result_of(&latencies).average_latency(), Some(sum.div_euclid(n as i128)));
    }
}
