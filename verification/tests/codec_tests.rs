use rperf::binary64::{timestamp_from_bits, timestamp_to_bits};
use rperf::codec::{decode_packet, encode_packet, Header, FILLER, HEADER_LEN};
use rperf::messages::{ack, is_ack, probe};
use rperf::server_udp::ServerUdp;
use rperf::timespan::{TimeSpan, MAX_NANOS};
use rperf::wire::{push_word, read_word};
use std::time::Duration;

fn span_of(d: Duration) -> TimeSpan {
    TimeSpan::new(d.as_secs(), d.subsec_nanos()).unwrap()
}

#[test]
fn word_is_written_most_significant_byte_first() {
    let mut out = Vec::new();
    push_word(&mut out, 0x0102_0304_0506_0708);
    assert_eq!(out, vec![1, 2, 3, 4, 5, 6, 7, 8]);
    assert_eq!(out, 0x0102_0304_0506_0708u64.to_be_bytes().to_vec());
}

#[test]
fn word_is_read_where_it_starts() {
    let buf = vec![9, 0, 0, 0, 0, 0, 0, 1, 44, 7];
    assert_eq!(read_word(&buf, 1), 0x12c);
    assert_eq!(read_word(&buf, 0), 0x0900_0000_0000_0001);
    assert_eq!(read_word(&buf, 2), u64::from_be_bytes([0, 0, 0, 0, 0, 1, 44, 7]));
}

#[test]
fn words_survive_a_round_trip() {
    for x in [0u64, 1, 255, 256, 0xdead_beef, u64::MAX, 1 << 63, 0x0123_4567_89ab_cdef] {
        let mut out = vec![0xaa];
        push_word(&mut out, x);
        assert_eq!(out.len(), 9);
        assert_eq!(read_word(&out, 1), x);
    }
}

#[test]
fn packet_layout_is_index_timestamp_filler() {
    let bits = 1_700_000_000.25f64.to_bits();
    let packet = encode_packet(Header { index: 7, timestamp_bits: bits }, 20);
    assert_eq!(packet.len(), 20);
    assert_eq!(&packet[0..8], &7u64.to_be_bytes());
    assert_eq!(&packet[8..16], &1_700_000_000.25f64.to_be_bytes());
    assert_eq!(&packet[16..], &[FILLER; 4]);
}

#[test]
fn smallest_packet_has_no_filler() {
    let packet = encode_packet(Header { index: u64::MAX, timestamp_bits: 0 }, HEADER_LEN);
    assert_eq!(packet, vec![255, 255, 255, 255, 255, 255, 255, 255, 0, 0, 0, 0, 0, 0, 0, 0]);
}

#[test]
fn decoding_an_encoded_packet_gives_index_and_timestamp() {
    for size in [16usize, 17, 64, 1500] {
        for index in [0u64, 1, 999, u64::MAX] {
            for seconds in [0.0f64, 1.5, 1_700_000_000.123_456_7] {
                let header = Header { index, timestamp_bits: seconds.to_bits() };
                let decoded = decode_packet(&encode_packet(header, size)).unwrap();
                assert_eq!(decoded, header);
                assert_eq!(f64::from_bits(decoded.timestamp_bits), seconds);
            }
        }
    }
}

#[test]
fn short_packets_do_not_decode() {
    assert_eq!(decode_packet(&[]), None);
    assert_eq!(decode_packet(&[1; 15]), None);
    assert!(decode_packet(&[1; 16]).is_some());
}

#[test]
fn decoding_reads_only_the_header() {
    let mut bytes = encode_packet(Header { index: 3, timestamp_bits: 4 }, 32);
    for b in bytes.iter_mut().skip(16) {
        *b = 0x77;
    }
    assert_eq!(decode_packet(&bytes), Some(Header { index: 3, timestamp_bits: 4 }));
}

#[test]
fn datagram_reply_is_minimal_without_symmetric_load() {
    let server = ServerUdp::new();
    let request = encode_packet(Header { index: 41, timestamp_bits: 5 }, 64);
    let reply = server.reply(&request, TimeSpan::from_millis(2500), false);
    assert_eq!(reply.len(), 16);
    assert_eq!(
        decode_packet(&reply),
        Some(Header { index: 41, timestamp_bits: 2.5f64.to_bits() })
    );
}

#[test]
fn datagram_reply_mirrors_the_size_under_symmetric_load() {
    let server = ServerUdp::new();
    let request = encode_packet(Header { index: 41, timestamp_bits: 5 }, 64);
    let reply = server.reply(&request, TimeSpan::from_secs(3), true);
    assert_eq!(reply, encode_packet(Header { index: 41, timestamp_bits: 3f64.to_bits() }, 64));
    let request = encode_packet(Header { index: 41, timestamp_bits: 5 }, 16);
    assert_eq!(server.reply(&request, TimeSpan::from_secs(3), true).len(), 16);
}

#[test]
fn short_datagram_is_answered_with_sixteen_bytes() {
    let server = ServerUdp::new();
    let reply = server.reply(&probe(), TimeSpan::from_secs(1), true);
    assert_eq!(reply.len(), 16);
    assert_eq!(&reply[0..8], b"_client_");
    assert_eq!(&reply[8..16], &1f64.to_be_bytes());
    let reply = server.reply(&[0xab, 0xcd], TimeSpan::zero(), false);
    assert_eq!(reply, vec![0xab, 0xcd, 0, 0, 0, 0, 0, 0, 0, 0, 0, 0, 0, 0, 0, 0]);
    let reply = server.reply(&[], TimeSpan::zero(), false);
    assert_eq!(reply, vec![0; 16]);
    let reply = server.reply(&[7; 15], TimeSpan::zero(), true);
    assert_eq!(reply.len(), 16);
    assert_eq!(&reply[0..8], &[7; 8]);
}

#[test]
fn responder_runs_until_stopped() {
    let mut server = ServerUdp::new();
    assert!(server.is_running());
    server.stop();
    assert!(!server.is_running());
    server.stop();
    assert!(!server.is_running());
}

#[test]
fn acknowledgment_is_the_two_letters() {
    assert_eq!(ack(), b"OK".to_vec());
    assert!(is_ack(b"OK"));
    assert!(!is_ack(b"ok"));
    assert!(!is_ack(b"OK\n"));
    assert!(!is_ack(b"O"));
    assert!(!is_ack(b""));
    assert_eq!(probe(), b"_client_".to_vec());
}

#[test]
fn timestamp_words_read_as_the_nearest_nanosecond() {
    let cases: [(f64, u64, u32); 9] = [
        (0.0, 0, 0),
        (1e-20, 0, 0),
        (4.2e-7, 0, 420),
        (2.7, 2, 700_000_000),
        (3e10, 30_000_000_000, 0),
        (0.999e-9, 0, 1),
        (1.0, 1, 0),
        (0.000_976_562_5, 0, 976_562),
        (0.002_929_687_5, 0, 2_929_688),
    ];
    for (seconds, secs, nanos) in cases {
        let t = timestamp_from_bits(seconds.to_bits()).unwrap();
        assert_eq!((t.as_secs(), t.subsec_nanos()), (secs, nanos), "{}", seconds);
    }
    assert_eq!(timestamp_from_bits(1).unwrap(), TimeSpan::zero());
    assert_eq!(timestamp_from_bits((-0.0f64).to_bits()).unwrap(), TimeSpan::zero());
}

#[test]
fn timestamp_words_that_are_no_time_are_turned_down() {
    assert_eq!(timestamp_from_bits(f64::NAN.to_bits()), None);
    assert_eq!(timestamp_from_bits(f64::INFINITY.to_bits()), None);
    assert_eq!(timestamp_from_bits(f64::NEG_INFINITY.to_bits()), None);
    assert_eq!(timestamp_from_bits((-1.0f64).to_bits()), None);
    assert_eq!(timestamp_from_bits((-f64::MIN_POSITIVE).to_bits()), None);
    assert_eq!(timestamp_from_bits(0x8000_0000_0000_0001), None);
    assert_eq!(timestamp_from_bits(18_446_744_073_709_551_616.0f64.to_bits()), None);
    assert_eq!(timestamp_from_bits(f64::MAX.to_bits()), None);
    assert_eq!(timestamp_from_bits(u64::MAX), None);
    let largest = 18_446_744_073_709_549_568.0f64;
    let t = timestamp_from_bits(largest.to_bits()).unwrap();
    assert_eq!((t.as_secs(), t.subsec_nanos()), (18_446_744_073_709_549_568, 0));
    assert!(t.as_nanos() <= MAX_NANOS);
}

#[test]
fn timestamp_words_agree_with_the_standard_conversion() {
    let mut x: u64 = 0x9e37_79b9_7f4a_7c15;
    let mut seen_some = 0;
    let mut seen_none = 0;
    for _ in 0..20_000 {
        x ^= x << 13;
        x ^= x >> 7;
        x ^= x << 17;
        for bits in [x, x >> 1, (x >> 2) | 0x3c00_0000_0000_0000, 0x41d0_0000_0000_0000 | (x >> 12)] {
            let ours = timestamp_from_bits(bits);
            match Duration::try_from_secs_f64(f64::from_bits(bits)) {
                Ok(d) => {
                    assert_eq!(ours, Some(span_of(d)), "{:#x}", bits);
                    seen_some += 1;
                }
                Err(_) => {
                    assert_eq!(ours, None, "{:#x}", bits);
                    seen_none += 1;
                }
            }
        }
    }
    assert!(seen_some > 1000 && seen_none > 1000);
}

#[test]
fn times_are_written_as_the_nearest_number_of_seconds() {
    assert_eq!(timestamp_to_bits(&TimeSpan::zero()), 0);
    assert_eq!(timestamp_to_bits(&TimeSpan::from_secs(1)), 1f64.to_bits());
    assert_eq!(timestamp_to_bits(&TimeSpan::from_millis(2500)), 2.5f64.to_bits());
    assert_eq!(timestamp_to_bits(&TimeSpan::from_millis(250)), 0.25f64.to_bits());
    assert_eq!(timestamp_to_bits(&TimeSpan::from_secs(1_700_000_000)), 1.7e9f64.to_bits());
    assert_eq!(timestamp_to_bits(&TimeSpan::from_nanos(1).unwrap()), 1e-9f64.to_bits());
    assert_eq!(timestamp_to_bits(&TimeSpan::from_nanos(420).unwrap()), 4.2e-7f64.to_bits());
    assert_eq!(timestamp_to_bits(&TimeSpan::new(2, 700_000_000).unwrap()), 2.7f64.to_bits());
    assert_eq!(
        timestamp_to_bits(&TimeSpan::new(1_700_000_000, 123_456_789).unwrap()),
        1_700_000_000.123_456_789f64.to_bits()
    );
    assert_eq!(timestamp_to_bits(&TimeSpan::from_secs(1 << 53)), 9_007_199_254_740_992f64.to_bits());
    assert_eq!(
        timestamp_to_bits(&TimeSpan::from_secs((1 << 53) + 1)),
        9_007_199_254_740_992f64.to_bits()
    );
    assert_eq!(
        timestamp_to_bits(&TimeSpan::from_secs((1 << 53) + 3)),
        9_007_199_254_740_996f64.to_bits()
    );
    assert_eq!(
        timestamp_to_bits(&TimeSpan::from_nanos(MAX_NANOS).unwrap()),
        18_446_744_073_709_551_616f64.to_bits()
    );
}

#[test]
fn written_times_are_within_one_step_of_the_plain_sum() {
    let mut x: u64 = 0x1234_5678_9abc_def1;
    for _ in 0..20_000 {
        x ^= x << 13;
        x ^= x >> 7;
        x ^= x << 17;
        for secs in [x >> 33, x >> 20, x % 3, 1_700_000_000 + (x % 1_000_000)] {
            let nanos = (x.rotate_left(17) % 1_000_000_000) as u32;
            let t = TimeSpan::new(secs, nanos).unwrap();
            let ours = timestamp_to_bits(&t);
            let plain = (secs as f64 + nanos as f64 * 1e-9).to_bits();
            assert!(ours.abs_diff(plain) <= 1, "{} {}", secs, nanos);
        }
    }
}

#[test]
fn written_times_read_back_within_the_precision_of_the_word() {
    let mut x: u64 = 0x0fed_cba9_8765_4321;
    for _ in 0..20_000 {
        x ^= x << 13;
        x ^= x >> 7;
        x ^= x << 17;
        for n in [
            x as u128,
            (x >> 12) as u128,
            (x >> 40) as u128,
            (x as u128) << 20,
            1_700_000_000_000_000_000 + (x >> 24) as u128,
        ] {
            let t = TimeSpan::from_nanos(n).unwrap();
            let back = timestamp_from_bits(timestamp_to_bits(&t)).unwrap().as_nanos();
            let moved = back.abs_diff(n);
            assert!((moved << 54) <= 2 * n + (1 << 53), "{}", n);
            if n < (1 << 52) {
                assert_eq!(back, n);
            }
        }
    }
}

#[test]
fn written_times_keep_their_order() {
    let mut last = 0u64;
    for k in 0..5000u128 {
        let t = TimeSpan::from_nanos(k * k * k * 977 + k).unwrap();
        let bits = timestamp_to_bits(&t);
        assert!(bits >= last);
        last = bits;
    }
}

#[test]
fn whole_seconds_are_written_as_the_standard_conversion_writes_them() {
    let mut x: u64 = 0x6a09_e667_f3bc_c908;
    for _ in 0..20_000 {
        x ^= x << 13;
        x ^= x >> 7;
        x ^= x << 17;
        for secs in [x, x >> 7, x >> 11, x >> 12, x >> 31, x | (1 << 63), (x >> 10) | 1] {
            if secs > u64::MAX - 1024 {
                continue;
            }
            let bits = timestamp_to_bits(&TimeSpan::from_secs(secs));
            assert_eq!(bits, (secs as f64).to_bits(), "{}", secs);
        }
    }
}

#[test]
fn binary_fractions_of_a_second_are_written_exactly() {
    let mut x: u64 = 0xbb67_ae85_84ca_a73b;
    for _ in 0..20_000 {
        x ^= x << 13;
        x ^= x >> 7;
        x ^= x << 17;
        for k in [x >> 11, x >> 30, x >> 50, x % 512] {
            let t = TimeSpan::from_nanos(k as u128 * 1_953_125).unwrap();
            let bits = timestamp_to_bits(&t);
            assert_eq!(bits, (k as f64 / 512.0).to_bits(), "{}", k);
            assert_eq!(timestamp_from_bits(bits), Some(t));
        }
    }
}
