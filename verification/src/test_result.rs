//! Correlation of what was sent with what came back, and the figures drawn
//! from it.

use crate::packet::{ReceivedPacket, SentPacket};
use crate::packet_result::{halved, lemma_halved_is_half, packet_result, PacketResult};
use crate::sorting::{
    lemma_sort_commutes,
    lemma_sorted_is_ordered,
    lemma_sorted_of_ordered,
    ordered_by_index,
    sort_by_index,
    sorted_by_index,
};
use crate::test_parameters::TestParameters;
use std::collections::HashMap;
use vstd::arithmetic::div_mod::lemma_fundamental_div_mod_converse;
use vstd::prelude::*;

verus! {

broadcast use vstd::std_specs::hash::group_hash_axioms;

/// The position in `received` of the last reply that carries `index`.
pub open spec fn last_match(received: Seq<ReceivedPacket>, index: u64) -> Option<int>
    decreases received.len(),
{
    if received.len() == 0 {
        None
    } else if received.last().index == index {
        Some(received.len() - 1)
    } else {
        last_match(received.drop_last(), index)
    }
}

/// One result for every packet of `sent` that has a reply, in the order of
/// `sent`. A packet answered more than once is paired with its last reply;
/// a reply that answers no packet is passed over.
pub open spec fn correlate(
    sent: Seq<SentPacket>,
    received: Seq<ReceivedPacket>,
    measure_owl: bool,
    output_rtt: bool,
) -> Seq<PacketResult>
    decreases sent.len(),
{
    if sent.len() == 0 {
        Seq::empty()
    } else {
        let before = correlate(sent.drop_last(), received, measure_owl, output_rtt);
        match last_match(received, sent.last().index) {
            Some(at) => before.push(
                packet_result(sent.last(), received[at], measure_owl, output_rtt),
            ),
            None => before,
        }
    }
}

/// The number of packets of `sent` that have no reply.
pub open spec fn lost_count(sent: Seq<SentPacket>, received: Seq<ReceivedPacket>) -> nat
    decreases sent.len(),
{
    if sent.len() == 0 {
        0
    } else {
        lost_count(sent.drop_last(), received) + if last_match(
            received,
            sent.last().index,
        ).is_none() {
            1nat
        } else {
            0nat
        }
    }
}

/// Nanoseconds from the send time of the first result to that of the last;
/// zero where there is no result, and below zero where the last was sent
/// before the first.
pub open spec fn sent_span(results: Seq<PacketResult>) -> int {
    if results.len() == 0 {
        0
    } else {
        results.last().tx_time@ - results.first().tx_time@
    }
}

/// What `last_match` finds is a reply with the index asked for, and no
/// later reply has it; where it finds nothing, no reply has it.
pub proof fn lemma_last_match(received: Seq<ReceivedPacket>, index: u64)
    ensures
        match last_match(received, index) {
            Some(at) => 0 <= at < received.len() && received[at].index == index && forall|k: int|
                at < k < received.len() ==> received[k].index != index,
            None => forall|k: int| 0 <= k < received.len() ==> received[k].index != index,
        },
    decreases received.len(),
{
    if received.len() > 0 && received.last().index != index {
        let init = received.drop_last();
        lemma_last_match(init, index);
        match last_match(init, index) {
            Some(at) => {
                assert(init[at] == received[at]);
                assert forall|k: int| at < k < received.len() implies received[k].index
                    != index by {
                    if k < init.len() {
                        assert(init[k] == received[k]);
                    }
                }
            },
            None => {
                assert forall|k: int| 0 <= k < received.len() implies received[k].index
                    != index by {
                    if k < init.len() {
                        assert(init[k] == received[k]);
                    }
                }
            },
        }
    }
}

/// Every packet is either paired or lost.
pub proof fn lemma_paired_or_lost(
    sent: Seq<SentPacket>,
    received: Seq<ReceivedPacket>,
    measure_owl: bool,
    output_rtt: bool,
)
    ensures
        correlate(sent, received, measure_owl, output_rtt).len() + lost_count(sent, received)
            == sent.len(),
    decreases sent.len(),
{
    if sent.len() > 0 {
        lemma_paired_or_lost(sent.drop_last(), received, measure_owl, output_rtt);
    }
}

/// Whether some reply of `received` carries `index`.
pub open spec fn has_reply(received: Seq<ReceivedPacket>, index: u64) -> bool {
    exists|k: int| 0 <= k < received.len() && (#[trigger] received[k]).index == index
}

/// Where every packet has a reply, nothing is lost and every packet has its
/// result.
pub proof fn lemma_nothing_lost(
    sent: Seq<SentPacket>,
    received: Seq<ReceivedPacket>,
    measure_owl: bool,
    output_rtt: bool,
)
    requires
        forall|i: int| 0 <= i < sent.len() ==> has_reply(received, (#[trigger] sent[i]).index),
    ensures
        lost_count(sent, received) == 0,
        correlate(sent, received, measure_owl, output_rtt).len() == sent.len(),
    decreases sent.len(),
{
    if sent.len() > 0 {
        let init = sent.drop_last();
        assert forall|i: int| 0 <= i < init.len() implies has_reply(
            received,
            (#[trigger] init[i]).index,
        ) by {
            assert(init[i] == sent[i]);
        }
        lemma_nothing_lost(init, received, measure_owl, output_rtt);
        assert(sent.last() == sent[sent.len() - 1]);
        lemma_last_match(received, sent.last().index);
    }
}

/// The indices of `sent`, in the order of sending.
pub open spec fn sent_indices(sent: Seq<SentPacket>) -> Seq<u64> {
    sent.map_values(|p: SentPacket| p.index)
}

/// The indices of `received`, in the order of arrival.
pub open spec fn received_indices(received: Seq<ReceivedPacket>) -> Seq<u64> {
    received.map_values(|p: ReceivedPacket| p.index)
}

/// A run without loss counts as many replies as packets, and nothing lost:
/// where no index is sent twice, no reply comes twice, every reply answers
/// a packet and every packet has a reply, there are as many replies as
/// packets, one result for each, and no packet is lost.
pub proof fn lemma_counts_without_loss(
    sent: Seq<SentPacket>,
    received: Seq<ReceivedPacket>,
    measure_owl: bool,
    output_rtt: bool,
)
    requires
        sent_indices(sent).no_duplicates(),
        received_indices(received).no_duplicates(),
        forall|k: int|
            0 <= k < received.len() ==> sent_indices(sent).contains((#[trigger] received[k]).index),
        forall|i: int| 0 <= i < sent.len() ==> has_reply(received, (#[trigger] sent[i]).index),
    ensures
        received.len() == sent.len(),
        lost_count(sent, received) == 0,
        correlate(sent, received, measure_owl, output_rtt).len() == sent.len(),
{
    let si = sent_indices(sent);
    let ri = received_indices(received);
    assert forall|a: u64| si.contains(a) <==> ri.contains(a) by {
        if si.contains(a) {
            let i = choose|i: int| 0 <= i < si.len() && si[i] == a;
            assert(has_reply(received, sent[i].index));
            let k = choose|k: int| 0 <= k < received.len() && (#[trigger] received[k]).index == a;
            assert(ri[k] == a);
        }
        if ri.contains(a) {
            let k = choose|k: int| 0 <= k < ri.len() && ri[k] == a;
            assert(si.contains(received[k].index));
        }
    }
    assert(si.to_set() =~= ri.to_set());
    si.unique_seq_to_set();
    ri.unique_seq_to_set();
    lemma_nothing_lost(sent, received, measure_owl, output_rtt);
}

/// The results of a run in which every packet is answered once and the
/// replies arrive in the order of sending: packet by packet the result of
/// the packet and its own reply.
pub open spec fn paired_in_order(
    sent: Seq<SentPacket>,
    received: Seq<ReceivedPacket>,
    measure_owl: bool,
    output_rtt: bool,
) -> Seq<PacketResult> {
    Seq::new(
        sent.len(),
        |i: int| packet_result(sent[i], received[i], measure_owl, output_rtt),
    )
}

/// Where the packets are numbered from zero and reply number `i` answers
/// packet number `i`, every packet is paired with its own reply, nothing is
/// lost, and the results are in order as they are.
pub proof fn lemma_every_packet_answered(
    sent: Seq<SentPacket>,
    received: Seq<ReceivedPacket>,
    measure_owl: bool,
    output_rtt: bool,
)
    requires
        received.len() >= sent.len(),
        forall|i: int| 0 <= i < sent.len() ==> (#[trigger] sent[i]).index == i,
        forall|k: int| 0 <= k < received.len() ==> (#[trigger] received[k]).index == k,
    ensures
        correlate(sent, received, measure_owl, output_rtt) == paired_in_order(
            sent,
            received,
            measure_owl,
            output_rtt,
        ),
        sorted_by_index(correlate(sent, received, measure_owl, output_rtt)) == paired_in_order(
            sent,
            received,
            measure_owl,
            output_rtt,
        ),
        lost_count(sent, received) == 0,
    decreases sent.len(),
{
    let paired = paired_in_order(sent, received, measure_owl, output_rtt);
    if sent.len() == 0 {
        assert(correlate(sent, received, measure_owl, output_rtt) =~= paired);
    } else {
        let init = sent.drop_last();
        let last = sent.len() - 1;
        assert forall|i: int| 0 <= i < init.len() implies (#[trigger] init[i]).index == i by {
            assert(init[i] == sent[i]);
        }
        lemma_every_packet_answered(init, received, measure_owl, output_rtt);
        assert(sent.last() == sent[last]);
        assert(received[last].index == last);
        lemma_last_match(received, sent.last().index);
        assert(last_match(received, sent.last().index) == Some(last));
        assert(correlate(sent, received, measure_owl, output_rtt) =~= paired);
    }
    assert(ordered_by_index(paired)) by {
        assert forall|i: int, j: int| 0 <= i < j < paired.len() implies paired[i].index
            <= paired[j].index by {
            assert(sent[i].index == i && sent[j].index == j);
        }
    }
    lemma_sorted_of_ordered(paired);
}

/// Where nothing came back, every packet is lost and there is no result.
pub proof fn lemma_all_lost(
    sent: Seq<SentPacket>,
    received: Seq<ReceivedPacket>,
    measure_owl: bool,
    output_rtt: bool,
)
    requires
        received.len() == 0,
    ensures
        lost_count(sent, received) == sent.len(),
        correlate(sent, received, measure_owl, output_rtt).len() == 0,
    decreases sent.len(),
{
    if sent.len() > 0 {
        lemma_all_lost(sent.drop_last(), received, measure_owl, output_rtt);
    }
}

/// A reply that answers no packet changes nothing: neither the results
/// nor what is counted as lost.
pub proof fn lemma_stray_reply_ignored(
    sent: Seq<SentPacket>,
    received: Seq<ReceivedPacket>,
    stray: ReceivedPacket,
    measure_owl: bool,
    output_rtt: bool,
)
    requires
        forall|i: int| 0 <= i < sent.len() ==> (#[trigger] sent[i]).index != stray.index,
    ensures
        correlate(sent, received.push(stray), measure_owl, output_rtt) == correlate(
            sent,
            received,
            measure_owl,
            output_rtt,
        ),
        lost_count(sent, received.push(stray)) == lost_count(sent, received),
    decreases sent.len(),
{
    if sent.len() > 0 {
        let init = sent.drop_last();
        assert forall|i: int| 0 <= i < init.len() implies (#[trigger] init[i]).index
            != stray.index by {
            assert(init[i] == sent[i]);
        }
        lemma_stray_reply_ignored(init, received, stray, measure_owl, output_rtt);
        let extended = received.push(stray);
        assert(sent.last() == sent[sent.len() - 1]);
        assert(extended.drop_last() =~= received);
        assert(extended.last() == stray);
        assert(last_match(extended, sent.last().index) == last_match(received, sent.last().index));
        lemma_last_match(received, sent.last().index);
        match last_match(received, sent.last().index) {
            Some(at) => {
                assert(extended[at] == received[at]);
            },
            None => {},
        }
    }
}

/// A further reply to a packet that has one changes neither how many
/// packets are lost nor how many results there are.
pub proof fn lemma_repeated_reply_not_counted(
    sent: Seq<SentPacket>,
    received: Seq<ReceivedPacket>,
    repeated: ReceivedPacket,
    measure_owl: bool,
    output_rtt: bool,
)
    requires
        has_reply(received, repeated.index),
    ensures
        lost_count(sent, received.push(repeated)) == lost_count(sent, received),
        correlate(sent, received.push(repeated), measure_owl, output_rtt).len() == correlate(
            sent,
            received,
            measure_owl,
            output_rtt,
        ).len(),
    decreases sent.len(),
{
    if sent.len() > 0 {
        lemma_repeated_reply_not_counted(
            sent.drop_last(),
            received,
            repeated,
            measure_owl,
            output_rtt,
        );
        let extended = received.push(repeated);
        let index = sent.last().index;
        assert(extended.drop_last() =~= received);
        assert(extended.last() == repeated);
        lemma_last_match(received, index);
        if index == repeated.index {
            assert(last_match(received, index).is_some());
        }
    }
}

/// With halved output every result is the result of round-trip output with
/// its latency halved, pair by pair and after ordering alike.
pub proof fn lemma_halved_results(
    sent: Seq<SentPacket>,
    received: Seq<ReceivedPacket>,
    measure_owl: bool,
)
    requires
        forall|i: int| 0 <= i < sent.len() ==> (#[trigger] sent[i]).wf(),
        forall|k: int| 0 <= k < received.len() ==> (#[trigger] received[k]).wf(),
    ensures
        correlate(sent, received, measure_owl, false) == correlate(
            sent,
            received,
            measure_owl,
            true,
        ).map_values(|r: PacketResult| halved(r)),
        sorted_by_index(correlate(sent, received, measure_owl, false)) == sorted_by_index(
            correlate(sent, received, measure_owl, true),
        ).map_values(|r: PacketResult| halved(r)),
    decreases sent.len(),
{
    let f = |r: PacketResult| halved(r);
    let half = correlate(sent, received, measure_owl, false);
    let full = correlate(sent, received, measure_owl, true);
    if sent.len() == 0 {
        assert(half =~= full.map_values(f));
    } else {
        let init = sent.drop_last();
        assert forall|i: int| 0 <= i < init.len() implies (#[trigger] init[i]).wf() by {
            assert(init[i] == sent[i]);
        }
        lemma_halved_results(init, received, measure_owl);
        assert(sent.last() == sent[sent.len() - 1]);
        lemma_last_match(received, sent.last().index);
        match last_match(received, sent.last().index) {
            Some(at) => {
                lemma_halved_is_half(sent.last(), received[at], measure_owl);
            },
            None => {},
        }
        assert(half =~= full.map_values(f));
    }
    lemma_sort_commutes(full, f);
}

/// The outcome of one run.
#[derive(Clone, Debug)]
pub struct TestResult {
    /// What the run was configured with.
    pub test_parameters: TestParameters,
    /// One result per answered packet, in ascending order of index.
    pub packet_results: Vec<PacketResult>,
    /// Nanoseconds from the send time of the first result to that of the
    /// last.
    pub sent_duration_nanos: i128,
    /// Packets sent.
    pub sent_packets_count: u64,
    /// Replies received, paired or not.
    pub received_packets_count: u64,
    /// Packets sent that have no reply.
    pub lost_packets_count: u64,
}

/// Maps every index that occurs in `received` to the position of the last
/// reply that carries it.
fn index_replies(received: &Vec<ReceivedPacket>) -> (positions: HashMap<u64, usize>)
    ensures
        forall|index: u64|
            match #[trigger] last_match(received@, index) {
                Some(at) => positions@.contains_key(index) && positions@[index] == at,
                None => !positions@.contains_key(index),
            },
{
    let mut positions: HashMap<u64, usize> = HashMap::with_capacity(received.len());
    let mut i: usize = 0;
    while i < received.len()
        invariant
            i <= received@.len(),
            forall|index: u64|
                match #[trigger] last_match(received@.take(i as int), index) {
                    Some(at) => positions@.contains_key(index) && positions@[index] == at,
                    None => !positions@.contains_key(index),
                },
        decreases received@.len() - i,
    {
        let ghost seen = received@.take(i as int);
        let ghost next = received@.take(i + 1);
        let reply_index = received[i].index;
        positions.insert(reply_index, i);
        proof {
            assert(next.drop_last() =~= seen);
            assert(next.last() == received@[i as int]);
            assert forall|index: u64|
                match #[trigger] last_match(next, index) {
                    Some(at) => positions@.contains_key(index) && positions@[index] == at,
                    None => !positions@.contains_key(index),
                } by {
                if index != reply_index {
                    assert(last_match(next, index) == last_match(seen, index));
                }
            }
        }
        i = i + 1;
    }
    assert(received@.take(received@.len() as int) =~= received@);
    positions
}

impl TestResult {
    /// Pairs every sent packet with its last reply, computes the result of
    /// each pair, orders the results by index and counts what was lost.
    ///
    /// `output_rtt` decides whether latencies are reported whole or
    /// halved; the mode of measurement is taken from `test_parameters`.
    pub fn from_tx_rx_times(
        test_parameters: TestParameters,
        sent_packets: &Vec<SentPacket>,
        received_packets: &Vec<ReceivedPacket>,
        output_rtt: bool,
    ) -> (result: TestResult)
        ensures
            result.test_parameters == test_parameters,
            result.packet_results@ == sorted_by_index(
                correlate(
                    sent_packets@,
                    received_packets@,
                    test_parameters.measure_owl,
                    output_rtt,
                ),
            ),
            ordered_by_index(result.packet_results@),
            result.sent_duration_nanos == sent_span(result.packet_results@),
            result.sent_packets_count == sent_packets@.len(),
            result.received_packets_count == received_packets@.len(),
            result.lost_packets_count == lost_count(sent_packets@, received_packets@),
            result.packet_results@.len() + result.lost_packets_count == sent_packets@.len(),
    {
        let measure_owl = test_parameters.measure_owl;
        let positions = index_replies(received_packets);
        let mut packet_results: Vec<PacketResult> = Vec::new();
        let mut lost: u64 = 0;
        let mut i: usize = 0;
        while i < sent_packets.len()
            invariant
                i <= sent_packets@.len(),
                lost <= i,
                lost == lost_count(sent_packets@.take(i as int), received_packets@),
                packet_results@ == correlate(
                    sent_packets@.take(i as int),
                    received_packets@,
                    measure_owl,
                    output_rtt,
                ),
                forall|index: u64|
                    match #[trigger] last_match(received_packets@, index) {
                        Some(at) => positions@.contains_key(index) && positions@[index] == at,
                        None => !positions@.contains_key(index),
                    },
            decreases sent_packets@.len() - i,
        {
            let sent = &sent_packets[i];
            proof {
                let next = sent_packets@.take(i + 1);
                assert(next.drop_last() =~= sent_packets@.take(i as int));
                assert(next.last() == *sent);
                lemma_last_match(received_packets@, sent.index);
                assert(last_match(received_packets@, sent.index).is_some()
                    == positions@.contains_key(sent.index));
            }
            match positions.get(&sent.index) {
                Some(at) => {
                    let received = &received_packets[*at];
                    packet_results.push(PacketResult::new(sent, received, measure_owl, output_rtt));
                },
                None => {
                    lost = lost + 1;
                },
            }
            i = i + 1;
        }
        proof {
            assert(sent_packets@.take(sent_packets@.len() as int) =~= sent_packets@);
            lemma_paired_or_lost(sent_packets@, received_packets@, measure_owl, output_rtt);
            lemma_sorted_is_ordered(packet_results@);
        }
        sort_by_index(&mut packet_results);
        let count = packet_results.len();
        let sent_duration_nanos: i128 = if count == 0 {
            0
        } else {
            let first = packet_results[0].tx_time.as_nanos();
            let last = packet_results[count - 1].tx_time.as_nanos();
            last as i128 - first as i128
        };
        TestResult {
            test_parameters,
            packet_results,
            sent_duration_nanos,
            sent_packets_count: sent_packets.len() as u64,
            received_packets_count: received_packets.len() as u64,
            lost_packets_count: lost,
        }
    }
}

/// The sum of the reported latencies of `results`, in picoseconds.
pub open spec fn latency_sum(results: Seq<PacketResult>) -> int
    decreases results.len(),
{
    if results.len() == 0 {
        0
    } else {
        latency_sum(results.drop_last()) + results.last().latency
    }
}

/// The arithmetic mean of the reported latencies of `results`, rounded down
/// to a whole picosecond. There is none where there is no result.
pub open spec fn mean_latency(results: Seq<PacketResult>) -> Option<int> {
    if results.len() == 0 {
        None
    } else {
        Some(latency_sum(results) / (results.len() as int))
    }
}

/// `x` split into a multiple of `n` and a remainder below `n`.
fn split(x: i128, n: u128) -> (r: (i128, u128))
    requires
        0 < n <= u64::MAX,
    ensures
        x == r.0 * n + r.1,
        r.1 < n,
{
    if x >= 0 {
        let magnitude = x as u128;
        let quotient = magnitude / n;
        let remainder = magnitude % n;
        assert(magnitude == quotient * n + remainder) by (nonlinear_arith)
            requires
                quotient == magnitude / n,
                remainder == magnitude % n,
                n > 0,
        ;
        assert(quotient <= magnitude) by (nonlinear_arith)
            requires
                quotient == magnitude / n,
                n > 0,
        ;
        (quotient as i128, remainder)
    } else {
        let magnitude = (-(x + 1)) as u128;
        let quotient = magnitude / n;
        let remainder = magnitude % n;
        assert(magnitude == quotient * n + remainder) by (nonlinear_arith)
            requires
                quotient == magnitude / n,
                remainder == magnitude % n,
                n > 0,
        ;
        assert(quotient <= magnitude) by (nonlinear_arith)
            requires
                quotient == magnitude / n,
                n > 0,
        ;
        let q: i128 = -(quotient as i128) - 1;
        let r: u128 = n - 1 - remainder;
        assert(x == q * n + r) by (nonlinear_arith)
            requires
                x == -(magnitude + 1),
                magnitude == quotient * n + remainder,
                q == -quotient - 1,
                r == n - 1 - remainder,
        ;
        (q, r)
    }
}

/// A sum of `k` numbers of 128 bits, `k` no more than `n`, split into a
/// multiple of `n` and a remainder below `n`, has a multiple that fits in
/// 128 bits.
proof fn lemma_quotient_fits(sum: int, k: int, n: int, q: int, r: int)
    requires
        0 <= k <= n,
        0 < n,
        -k * 0x8000_0000_0000_0000_0000_0000_0000_0000 <= sum,
        sum <= k * 0x7fff_ffff_ffff_ffff_ffff_ffff_ffff_ffff,
        sum == q * n + r,
        0 <= r < n,
    ensures
        i128::MIN <= q <= i128::MAX,
        q == sum / n,
{
    let lo: int = -0x8000_0000_0000_0000_0000_0000_0000_0000;
    let hi: int = 0x7fff_ffff_ffff_ffff_ffff_ffff_ffff_ffff;
    assert(k * lo >= n * lo) by (nonlinear_arith)
        requires
            0 <= k <= n,
            lo <= 0,
    ;
    assert(k * hi <= n * hi) by (nonlinear_arith)
        requires
            0 <= k <= n,
            hi >= 0,
    ;
    assert(q <= hi) by (nonlinear_arith)
        requires
            q * n + r <= n * hi,
            0 <= r,
            0 < n,
    ;
    assert(q >= lo) by (nonlinear_arith)
        requires
            q * n + r >= n * lo,
            r < n,
            0 < n,
    ;
    lemma_fundamental_div_mod_converse(sum, n, q, r);
}

/// A sum of latencies is no further from zero than as many numbers of 128
/// bits can be.
proof fn lemma_latency_sum_bounds(results: Seq<PacketResult>)
    ensures
        -results.len() * 0x8000_0000_0000_0000_0000_0000_0000_0000 <= latency_sum(results),
        latency_sum(results) <= results.len() * 0x7fff_ffff_ffff_ffff_ffff_ffff_ffff_ffff,
    decreases results.len(),
{
    if results.len() > 0 {
        lemma_latency_sum_bounds(results.drop_last());
    }
}

impl TestResult {
    /// The mean of the reported latencies of all results, rounded down to a
    /// whole picosecond, or `None` where no packet was answered.
    pub fn average_latency(&self) -> (mean: Option<i128>)
        ensures
            match mean {
                Some(m) => mean_latency(self.packet_results@) == Some(m as int),
                None => self.packet_results@.len() == 0,
            },
    {
        let count = self.packet_results.len();
        if count == 0 {
            return None;
        }
        let n = count as u128;
        let ghost results = self.packet_results@;
        let mut quotient: i128 = 0;
        let mut remainder: u128 = 0;
        let mut i: usize = 0;
        while i < count
            invariant
                i <= count,
                count == results.len(),
                results == self.packet_results@,
                n == count,
                0 < n <= u64::MAX,
                remainder < n,
                latency_sum(results.take(i as int)) == quotient * n + remainder,
            decreases count - i,
        {
            let ghost seen = results.take(i as int);
            let ghost next = results.take(i + 1);
            let (q, r) = split(self.packet_results[i].latency, n);
            let carry: i128 = if r >= n - remainder {
                1
            } else {
                0
            };
            proof {
                assert(next.drop_last() =~= seen);
                assert(next.last() == results[i as int]);
                lemma_latency_sum_bounds(next);
                let total = remainder + r - carry * n;
                assert(latency_sum(next) == (quotient + q + carry) * n + total)
                    by (nonlinear_arith)
                    requires
                        latency_sum(next) == latency_sum(seen) + results[i as int].latency,
                        latency_sum(seen) == quotient * n + remainder,
                        results[i as int].latency == q * n + r,
                        total == remainder + r - carry * n,
                ;
                lemma_quotient_fits(
                    latency_sum(next),
                    i + 1,
                    n as int,
                    quotient + q + carry,
                    total,
                );
                // The carry is in reach of `q` before it is added to `quotient`.
                lemma_quotient_fits(
                    results[i as int].latency as int,
                    1,
                    n as int,
                    q as int,
                    r as int,
                );
                if n == 1 {
                    assert(carry == 0);
                } else {
                    assert(q < i128::MAX) by (nonlinear_arith)
                        requires
                            q * n + r <= i128::MAX,
                            n >= 2,
                            r >= 0,
                    ;
                }
            }
            let step: i128 = q + carry;
            quotient = quotient + step;
            remainder = if carry == 1 {
                r - (n - remainder)
            } else {
                remainder + r
            };
            i = i + 1;
        }
        proof {
            assert(results.take(count as int) =~= results);
            lemma_latency_sum_bounds(results);
            lemma_quotient_fits(
                latency_sum(results),
                count as int,
                n as int,
                quotient as int,
                remainder as int,
            );
        }
        Some(quotient)
    }
}

} // verus!
