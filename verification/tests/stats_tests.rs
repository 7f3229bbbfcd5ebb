use xdp_top::stats::QueueStats;

const SAMPLE: &str = "
     rx_queue_0_packets: 100
     rx_queue_0_xdp_redirect: 40
     rx_queue_0_xdp_drop: 2
     rx_queue_1_packets: 7
     tx_queue_0_packets: 30
     tx_queue_1_pkts: 3
";

#[test]
fn first_sample_is_its_own_baseline() {
    let mut q = QueueStats::new();
    assert!(q.parse_ethtool_output(SAMPLE));
    assert_eq!(q.rx_queue_packets.get(&0), Some(&100));
    assert_eq!(q.rx_queue_packets.get(&1), Some(&7));
    assert_eq!(q.rx_queue_delta.get(&0), Some(&0));
    assert_eq!(q.rx_queue_delta.get(&1), Some(&0));
    assert_eq!(q.rx_queue_xdp_packets.get(&0), Some(&42));
    assert_eq!(q.rx_queue_xdp_delta.get(&0), Some(&0));
    assert_eq!(q.tx_queue_packets.get(&0), Some(&30));
    assert_eq!(q.tx_queue_packets.get(&1), Some(&3));
    assert_eq!(q.last_xdp_redirect_packets, 42);
    assert_eq!(q.xdp_redirect_delta, None);
    assert_eq!(q.last_rx_queue_packets, q.rx_queue_packets);
    assert_eq!(q.last_tx_queue_packets, q.tx_queue_packets);
    assert_eq!(q.last_rx_queue_xdp_packets, q.rx_queue_xdp_packets);
}

#[test]
fn later_samples_count_since_the_previous_one() {
    let mut q = QueueStats::new();
    assert!(q.parse_ethtool_output(SAMPLE));
    let next = "
     rx_queue_0_packets: 160
     rx_queue_0_xdp_redirect: 90
     rx_queue_0_xdp_drop: 2
     rx_queue_1_packets: 5
     tx_queue_0_packets: 31
     tx_queue_1_pkts: 3
     tx_queue_2_pkts: 9
";
    assert!(q.parse_ethtool_output(next));
    assert_eq!(q.rx_queue_delta.get(&0), Some(&60));
    // a counter that went back counts nothing
    assert_eq!(q.rx_queue_delta.get(&1), Some(&0));
    assert_eq!(q.rx_queue_xdp_delta.get(&0), Some(&50));
    assert_eq!(q.tx_queue_delta.get(&0), Some(&1));
    assert_eq!(q.tx_queue_delta.get(&1), Some(&0));
    // a queue seen for the first time counts nothing
    assert_eq!(q.tx_queue_delta.get(&2), Some(&0));
    assert_eq!(q.xdp_redirect_delta, Some(50));
    assert_eq!(q.last_xdp_redirect_packets, 92);
}

#[test]
fn repeated_sample_counts_nothing() {
    let mut q = QueueStats::new();
    assert!(q.parse_ethtool_output(SAMPLE));
    let (rx, xdp, tx) = (q.rx_queue_packets.clone(), q.rx_queue_xdp_packets.clone(), q.tx_queue_packets.clone());
    assert!(q.parse_ethtool_output(SAMPLE));
    assert_eq!((q.rx_queue_packets.clone(), q.rx_queue_xdp_packets.clone(), q.tx_queue_packets.clone()), (rx, xdp, tx));
    assert_eq!(q.rx_queue_delta.keys().collect::<Vec<_>>(), q.rx_queue_packets.keys().collect::<Vec<_>>());
    assert!(q.rx_queue_delta.values().all(|d| *d == 0));
    assert!(q.rx_queue_xdp_delta.values().all(|d| *d == 0));
    assert!(q.tx_queue_delta.values().all(|d| *d == 0));
    assert_eq!(q.xdp_redirect_delta, Some(0));
}

#[test]
fn transmit_counters_skip_receive_and_xdp_lines() {
    let mut q = QueueStats::new();
    assert!(q.parse_ethtool_output("  rx_queue_3_packets: 9\n  tx_queue_4_xdp_packets: 2\n  queue_5_packets: 11\n"));
    assert_eq!(q.tx_queue_packets.get(&3), None);
    assert_eq!(q.tx_queue_packets.get(&4), None);
    assert_eq!(q.tx_queue_packets.get(&5), Some(&11));
    assert_eq!(q.rx_queue_packets.get(&3), Some(&9));
    assert_eq!(q.rx_queue_packets.get(&5), Some(&11));
}

#[test]
fn empty_statistics_clear_the_queues() {
    let mut q = QueueStats::new();
    assert!(q.parse_ethtool_output(SAMPLE));
    assert!(q.parse_ethtool_output(""));
    assert!(q.rx_queue_packets.is_empty());
    assert!(q.rx_queue_delta.is_empty());
    assert!(q.tx_queue_packets.is_empty());
    assert_eq!(q.last_xdp_redirect_packets, 0);
    assert_eq!(q.xdp_redirect_delta, Some(0));
}

#[test]
fn xdp_sum_overflow_is_refused() {
    let mut q = QueueStats::new();
    assert!(q.parse_ethtool_output(SAMPLE));
    let huge = "  rx_queue_0_xdp_a: 18446744073709551615\n  rx_queue_0_xdp_b: 1\n";
    assert!(!q.parse_ethtool_output(huge));
    assert_eq!(q.rx_queue_packets.get(&0), Some(&100));
    assert_eq!(q.last_xdp_redirect_packets, 42);
}

#[test]
fn xdp_is_recognised_in_any_case() {
    let mut q = QueueStats::new();
    assert!(q.parse_ethtool_output("  RX_Queue_0_Packets: 10\n  rx_queue_1_XDP_pkts: 4\n"));
    assert_eq!(q.rx_queue_packets.get(&0), Some(&10));
    assert_eq!(q.rx_queue_packets.get(&1), None);
    assert_eq!(q.rx_queue_xdp_packets.get(&1), Some(&4));
    assert_eq!(q.last_xdp_redirect_packets, 4);
}
