use xdp_top::report::{
    channels_of, driver_info, fallback_queue_count, hardware_model_of, lspci_wanted,
    mac_address_of, xdp_state_of, zero_copy_capable,
};

const ETHTOOL_I: &str = "driver: mlx5_core\nversion: 6.5.0\nfirmware-version: 16.35.2000 (MT_0000000012)\nexpansion-rom-version: \nbus-info: 0000:3b:00.0\nsupports-statistics: yes\n";

#[test]
fn driver_info_reads_the_keyed_lines() {
    let d = driver_info(Some(ETHTOOL_I));
    assert_eq!(d.driver, "mlx5_core");
    assert_eq!(d.firmware, "16.35.2000 (MT_0000000012)");
    assert_eq!(d.bus_info, "0000:3b:00.0");
}

#[test]
fn driver_info_defaults_to_unknown() {
    let d = driver_info(None);
    assert_eq!((d.driver.as_str(), d.firmware.as_str(), d.bus_info.as_str()), ("Unknown", "Unknown", "Unknown"));
    let d = driver_info(Some("driver: veth\nbus-info:\n"));
    assert_eq!(d.driver, "veth");
    assert_eq!(d.firmware, "Unknown");
    assert_eq!(d.bus_info, "");
}

#[test]
fn last_driver_line_counts() {
    let d = driver_info(Some("driver: e1000\ndriver: ice\n"));
    assert_eq!(d.driver, "ice");
    assert!(zero_copy_capable("driver: e1000\ndriver: ice\n"));
    assert!(!zero_copy_capable("driver: ice\ndriver: e1000\n"));
}

#[test]
fn zero_copy_driver_list() {
    for drv in ["mlx5_core", "mlx4_core", "i40e", "ixgbe", "ice", "igb", "igc", "bnxt_en", "ena", "sfc", "virtio_net", "ntb"] {
        assert!(zero_copy_capable(&format!("driver: {}\n", drv)), "{}", drv);
    }
    assert!(!zero_copy_capable("driver: veth\n"));
    assert!(!zero_copy_capable("version: 1\n"));
    assert!(!zero_copy_capable(" driver: ice\n"));
}

#[test]
fn lspci_only_for_known_bus() {
    assert!(lspci_wanted("0000:3b:00.0"));
    assert!(!lspci_wanted("Unknown"));
    assert!(!lspci_wanted(""));
}

#[test]
fn hardware_model_from_first_lspci_line() {
    let out = "3b:00.0 Ethernet controller: Mellanox Technologies MT27800 Family [ConnectX-5]  \n3b:00.1 other: x\n";
    assert_eq!(hardware_model_of(Some(out)), "Mellanox Technologies MT27800 Family [ConnectX-5]");
    assert_eq!(hardware_model_of(Some("no separator\n")), "Unknown (Not PCI/Virtual)");
    assert_eq!(hardware_model_of(Some("")), "Unknown (Not PCI/Virtual)");
    assert_eq!(hardware_model_of(None), "Unknown (Not PCI/Virtual)");
}

#[test]
fn xdp_state_variants() {
    assert_eq!(xdp_state_of(Some("mtu 1500 xdpdrv qdisc")), "Active - NATIVE (drv)");
    assert_eq!(xdp_state_of(Some("prog/xdp id 12 ")), "Active - NATIVE (drv)");
    assert_eq!(xdp_state_of(Some("xdpgeneric prog/xdp id 3")), "Active - GENERIC (skb)");
    assert_eq!(xdp_state_of(Some("mtu 1500 xdpoffload")), "Active - OFFLOAD (hw)");
    assert_eq!(xdp_state_of(Some("xdpmulti")), "Active - Unknown Mode");
    assert_eq!(xdp_state_of(Some("mtu 1500 qdisc mq")), "None (Standard Linux Networking)");
    assert_eq!(xdp_state_of(None), "None (Standard Linux Networking)");
}

#[test]
fn mac_from_link_ether_line() {
    let out = "2: eth0: <BROADCAST> mtu 1500\n    link/ether 0c:42:a1:00:11:22 brd ff:ff:ff:ff:ff:ff\n";
    assert_eq!(mac_address_of(Some(out)), "0c:42:a1:00:11:22");
    assert_eq!(mac_address_of(Some("link/ether\nlink/ether aa:bb\n")), "Unknown");
    assert_eq!(mac_address_of(Some("1: lo: <LOOPBACK>\n    link/loopback 00:00:00:00:00:00\n")), "Unknown");
    assert_eq!(mac_address_of(None), "Unknown");
}

#[test]
fn channels_per_section() {
    let out = "Channel parameters for eth0:\nPre-set maximums:\nRX:\t\tn/a\nTX:\t\tn/a\nOther:\t\t1\nCombined:\t63\nCurrent hardware settings:\nRX:\t\tn/a\nTX:\t\tn/a\nOther:\t\t1\nCombined:\t8\n";
    let c = channels_of(Some(out));
    assert_eq!((c.max_channels, c.current_channels), (63, 8));
    let c = channels_of(Some("Pre-set maximums:\nRX: 4\nCombined: 2\nCurrent hardware settings:\nRX: 0\nCombined: 3 extra\n"));
    assert_eq!((c.max_channels, c.current_channels), (4, 0));
    let c = channels_of(None);
    assert_eq!((c.max_channels, c.current_channels), (0, 0));
    let c = channels_of(Some("Combined: 5\n"));
    assert_eq!((c.max_channels, c.current_channels), (0, 0));
}

#[test]
fn fallback_queues_count_rx_entries() {
    let names: Vec<String> = ["rx-0", "rx-1", "tx-0", "tx-1", "rx-2"].iter().map(|s| s.to_string()).collect();
    assert_eq!(fallback_queue_count(&names), 3);
    assert_eq!(fallback_queue_count(&vec!["tx-0".to_string()]), 1);
    assert_eq!(fallback_queue_count(&Vec::new()), 1);
}
