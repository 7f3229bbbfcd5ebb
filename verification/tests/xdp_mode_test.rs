// The per-queue counters of `ethtool -S` tell native (driver) XDP apart from
// generic (SKB) XDP: only in native mode do the driver's XDP counters move.

use std::collections::BTreeMap;
use xdp_top::app::App;

/// Packets per second of each queue, from the packets counted over `elapsed` seconds.
fn rates(deltas: &BTreeMap<usize, u64>, elapsed: f64) -> BTreeMap<usize, f64> {
    deltas.iter().map(|(q, d)| (*q, *d as f64 / elapsed)).collect()
}

#[test]
fn test_drv_vs_skb_mode_detection() {
    let mut app = App::new_empty();

    // 0. Baseline: the first reading of a counter is its own baseline.
    let baseline_output = "
        rx_queue_0_packets: 0
        rx_queue_0_xdp_packets: 0
        rx_queue_1_packets: 0
    ";
    app.parse_ethtool_output(baseline_output);

    // 1. Plain SKB traffic: the queues count packets, the XDP counters stay put.
    let skb_output = "
        rx_queue_0_packets: 1000
        rx_queue_0_xdp_packets: 0
        rx_queue_1_packets: 50
    ";

    // One second after the baseline.
    app.parse_ethtool_output(skb_output);
    let rx_queue_pps = rates(&app.traffic.queues.rx_queue_delta, 1.0);
    let rx_queue_xdp_pps = rates(&app.traffic.queues.rx_queue_xdp_delta, 1.0);

    assert_eq!(rx_queue_pps.get(&0).copied().unwrap_or(0.0), 1000.0);
    assert_eq!(rx_queue_xdp_pps.get(&0).copied().unwrap_or(0.0), 0.0);

    let pps = *rx_queue_pps.get(&0).unwrap();
    let xdp_pps = *rx_queue_xdp_pps.get(&0).unwrap_or(&0.0);

    let is_zc = xdp_pps > (pps * 0.1) || xdp_pps > 10.0;
    assert!(!is_zc, "SKB traffic incorrectly identified as DRV/Zero-Copy");

    // 2. Native XDP: the driver's XDP counter moves with the queue counter.
    let drv_output = "
        rx_queue_0_packets: 5000
        rx_queue_0_xdp_packets: 4000
        rx_queue_1_packets: 50
    ";

    app.parse_ethtool_output(drv_output);
    let rx_queue_pps = rates(&app.traffic.queues.rx_queue_delta, 1.0);
    let rx_queue_xdp_pps = rates(&app.traffic.queues.rx_queue_xdp_delta, 1.0);

    // rx_queue_0: 5000 (current) - 1000 (last) = 4000 packets per second in all
    assert_eq!(rx_queue_pps.get(&0).copied().unwrap_or(0.0), 4000.0);

    // rx_queue_0_xdp: 4000 (current) - 0 (last) = 4000 packets per second by XDP
    assert_eq!(rx_queue_xdp_pps.get(&0).copied().unwrap_or(0.0), 4000.0);

    let pps_drv = *rx_queue_pps.get(&0).unwrap();
    let xdp_pps_drv = *rx_queue_xdp_pps.get(&0).unwrap_or(&0.0);

    let is_zc_drv = xdp_pps_drv > (pps_drv * 0.1) || xdp_pps_drv > 10.0;
    assert!(is_zc_drv, "DRV traffic failed to be correctly identified as Zero-Copy/XDP");
}
