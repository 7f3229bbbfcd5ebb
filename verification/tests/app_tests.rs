use xdp_top::app::{App, AppMode, Focus, NicReports, SPARKLINE_LEN};
use xdp_top::input::{Action, Key, MouseInput};
use xdp_top::ranking::{preferred_index, ranked_nics, scores_fit, sorted_candidates};
use xdp_top::ui::Rect;

fn cand(name: &str, zc: bool, traffic: u64) -> (String, bool, u64) {
    (name.to_string(), zc, traffic)
}

fn found(name: &str, driver_report: Option<&str>, traffic: u64) -> (String, Option<String>, u64) {
    (name.to_string(), driver_report.map(|r| r.to_string()), traffic)
}

fn driver_reports(driver: &str) -> NicReports {
    NicReports {
        driver: Some(format!("driver: {}\nbus-info: virtual\n", driver)),
        lspci: None,
        link: None,
        channels: None,
        queue_names: Vec::new(),
    }
}

fn three_found() -> Vec<(String, Option<String>, u64)> {
    vec![found("eth2", None, 5), found("eth0", Some("driver: ice\nversion: 1\n"), 1), found("eth1", Some("driver: r8169\n"), 9)]
}

fn three_nics() -> App {
    App::new(&three_found(), &vec![None, None, None], Some(8), 16, &driver_reports("ice"))
}

#[test]
fn candidates_sorted_by_name_or_loopback() {
    let c = sorted_candidates(vec![cand("eth1", false, 1), cand("enp3s0", true, 2), cand("eth0", false, 3)]);
    let names: Vec<&str> = c.iter().map(|c| c.0.as_str()).collect();
    assert_eq!(names, vec!["enp3s0", "eth0", "eth1"]);
    assert_eq!(sorted_candidates(Vec::new()), vec![cand("lo", false, 0)]);
}

#[test]
fn preferred_nic_by_score() {
    let c = vec![cand("a", false, 10), cand("b", true, 0), cand("c", false, 0)];
    // zero-copy capability outweighs traffic
    assert_eq!(preferred_index(&c, &vec![None, None, None]), 1);
    // native XDP outweighs zero-copy capability
    assert_eq!(preferred_index(&c, &vec![None, None, Some("mtu 1500 xdpdrv".to_string())]), 2);
    // generic XDP: 200e9 beats 100e9 + 0
    assert_eq!(preferred_index(&c, &vec![Some("xdpgeneric".to_string()), None, None]), 0);
    // among equal scores, the last wins
    let tie = vec![cand("a", false, 0), cand("b", false, 0)];
    assert_eq!(preferred_index(&tie, &vec![None, None]), 1);
    assert!(scores_fit(&c, &vec![None, None, None]));
    assert!(!scores_fit(&vec![cand("x", true, u64::MAX - 5)], &vec![None]));
}

#[test]
fn ranked_nics_use_driver_reports() {
    let c = ranked_nics(&three_found());
    assert_eq!(c, vec![cand("eth0", true, 1), cand("eth1", false, 9), cand("eth2", false, 5)]);
    assert_eq!(ranked_nics(&Vec::new()), vec![cand("lo", false, 0)]);
    // the last driver line decides
    let twice = vec![found("a", Some("driver: r8169\ndriver: mlx5_core\n"), 0)];
    assert_eq!(ranked_nics(&twice), vec![cand("a", true, 0)]);
}

#[test]
fn new_app_shows_preferred_nic() {
    let app = three_nics();
    let names: Vec<&str> = app.nics.iter().map(|n| n.0.as_str()).collect();
    assert_eq!(names, vec!["eth0", "eth1", "eth2"]);
    let zc: Vec<bool> = app.nics.iter().map(|n| n.1).collect();
    assert_eq!(zc, vec![true, false, false]);
    assert_eq!(app.selected_idx, 0);
    assert_eq!(app.menu_selected, Some(0));
    assert_eq!(app.physical_cores, 8);
    assert_eq!(app.mode, AppMode::Normal);
    assert!(app.show_throughput);
    assert_eq!(app.traffic.rx_bytes_history.len(), SPARKLINE_LEN);
    assert!(app.traffic.rx_bytes_history.iter().all(|v| *v == 0));
    let info = app.current_nic_info.as_ref().unwrap();
    assert_eq!(info.driver, "ice");
    assert!(info.xdp_is_zerocopy);
}

#[test]
fn new_app_counts_logical_cpus_without_core_count() {
    let app = App::new(&Vec::new(), &vec![None], None, 16, &driver_reports("loopback"));
    assert_eq!(app.physical_cores, 16);
    assert_eq!(app.nics, vec![("lo".to_string(), false)]);
    assert_eq!(app.selected_idx, 0);
    assert_eq!(app.current_nic_info.as_ref().unwrap().driver, "loopback");
}

#[test]
fn new_empty_defaults() {
    let app = App::new_empty();
    assert!(app.nics.is_empty());
    assert_eq!(app.physical_cores, 4);
    assert_eq!(app.focus, None);
    assert!(app.current_nic_info.is_none());
    assert!(!app.quit);
    assert_eq!(app.traffic.tx_bytes_history.len(), SPARKLINE_LEN);
}

#[test]
fn next_and_prev_wrap_around() {
    let mut app = three_nics();
    let r = driver_reports("e1000");
    assert_eq!(app.prev_nic_index(), 2);
    app.prev_nic(&r);
    assert_eq!(app.selected_idx, 2);
    assert_eq!(app.next_nic_index(), 0);
    app.next_nic(&r);
    assert_eq!(app.selected_idx, 0);
    app.next_nic(&r);
    app.next_nic(&r);
    assert_eq!(app.selected_idx, 2);
    app.next_nic(&r);
    assert_eq!(app.selected_idx, 0);
}

#[test]
fn next_visits_every_nic_and_returns() {
    let mut app = three_nics();
    let r = driver_reports("e1000");
    let start = app.selected_idx;
    let mut seen = Vec::new();
    for _ in 0..app.nics.len() {
        seen.push(app.selected_idx);
        app.next_nic(&r);
    }
    seen.sort();
    assert_eq!(seen, vec![0, 1, 2]);
    assert_eq!(app.selected_idx, start);
}

#[test]
fn selecting_resets_traffic_and_refreshes_info() {
    let mut app = three_nics();
    assert_eq!(app.update_counters(1000, 500, 10, 5), None);
    app.push_history(7, 8);
    app.select_nic(1, &driver_reports("r8169"));
    assert_eq!(app.selected_idx, 1);
    assert_eq!(app.traffic.last_rx_bytes, 0);
    assert!(app.traffic.rx_bytes_history.iter().all(|v| *v == 0));
    let info = app.current_nic_info.as_ref().unwrap();
    assert_eq!(info.driver, "r8169");
    assert!(!info.xdp_is_zerocopy);
    assert_eq!(info.xdp_capability, "Restricted (SKB Software Mode Only)");
}

#[test]
fn counters_measure_since_previous_reading() {
    let mut app = three_nics();
    assert_eq!(app.update_counters(1000, 500, 10, 5), None);
    let d = app.update_counters(1600, 400, 16, 9).unwrap();
    assert_eq!((d.rx_bytes, d.tx_bytes, d.rx_packets, d.tx_packets), (600, 0, 6, 4));
    assert_eq!(app.traffic.last_tx_bytes, 400);
}

#[test]
fn history_keeps_its_length() {
    let mut app = three_nics();
    for v in 1..=150u64 {
        app.push_history(v, v * 2);
    }
    assert_eq!(app.traffic.rx_bytes_history.len(), SPARKLINE_LEN);
    assert_eq!(app.traffic.rx_bytes_history.front(), Some(&51));
    assert_eq!(app.traffic.rx_bytes_history.back(), Some(&150));
    assert_eq!(app.traffic.tx_bytes_history.back(), Some(&300));
}

#[test]
fn fetch_nic_info_combines_reports() {
    let mut app = three_nics();
    let names = vec!["rx-0".to_string(), "rx-1".to_string(), "tx-0".to_string()];
    app.fetch_nic_info(&NicReports {
        driver: Some("driver: ice\nfirmware-version: 4.1\nbus-info: 0000:01:00.0\n".to_string()),
        lspci: Some("01:00.0 Ethernet controller: Intel Corporation E810\n".to_string()),
        link: Some("2: eth0: <UP> mtu 1500 xdpgeneric\n    link/ether 11:22:33:44:55:66 brd ff\n".to_string()),
        channels: Some("Pre-set maximums:\nCombined: 16\nCurrent hardware settings:\nCombined: 4\n".to_string()),
        queue_names: names,
    });
    let info = app.current_nic_info.as_ref().unwrap();
    assert_eq!(info.driver, "ice");
    assert_eq!(info.firmware, "4.1");
    assert_eq!(info.bus_info, "0000:01:00.0");
    assert_eq!(info.hardware_model, "Intel Corporation E810");
    assert!(info.xdp_is_zerocopy);
    assert_eq!(info.xdp_capability, "Supported (Native 'drv' Zero-Copy Capable)");
    assert_eq!(info.current_xdp_state, "Active - GENERIC (skb)");
    assert_eq!(info.mac_address, "11:22:33:44:55:66");
    assert_eq!((info.current_channels, info.max_channels, info.fallback_queues), (4, 16, 2));
}

#[test]
fn lspci_ignored_without_bus_address() {
    let mut app = three_nics();
    app.select_nic(1, &NicReports {
        driver: None,
        lspci: Some("00:00.0 Host: ignored\n".to_string()),
        link: None,
        channels: None,
        queue_names: Vec::new(),
    });
    let info = app.current_nic_info.as_ref().unwrap();
    assert_eq!(info.hardware_model, "Unknown (Not PCI/Virtual)");
    assert_eq!(info.driver, "Unknown");
    assert!(!info.xdp_is_zerocopy);
    assert_eq!(info.xdp_capability, "Restricted (SKB Software Mode Only)");
    assert_eq!(info.current_xdp_state, "None (Standard Linux Networking)");
    assert_eq!(info.fallback_queues, 1);
}

#[test]
fn tab_cycles_through_buttons() {
    let mut app = three_nics();
    let mut seen = Vec::new();
    for _ in 0..5 {
        assert_eq!(app.handle_key(Key::Tab), Action::Nothing);
        seen.push(app.focus);
    }
    assert_eq!(
        seen,
        vec![Some(Focus::NicBtn), Some(Focus::ToggleBtn), Some(Focus::AboutBtn), Some(Focus::QuitBtn), Some(Focus::NicBtn)]
    );
    app.handle_key(Key::BackTab);
    assert_eq!(app.focus, Some(Focus::QuitBtn));
    let mut fresh = three_nics();
    fresh.handle_key(Key::BackTab);
    assert_eq!(fresh.focus, Some(Focus::QuitBtn));
}

#[test]
fn enter_acts_on_focused_button() {
    let mut app = three_nics();
    app.handle_key(Key::Tab);
    app.handle_key(Key::Tab);
    app.handle_key(Key::Enter);
    assert!(!app.show_throughput);
    app.handle_key(Key::Tab);
    app.handle_key(Key::Enter);
    assert_eq!(app.mode, AppMode::About);
    app.handle_key(Key::Char('x'));
    assert_eq!(app.mode, AppMode::About);
    app.handle_key(Key::Esc);
    assert_eq!(app.mode, AppMode::Normal);
    app.handle_key(Key::Tab);
    app.handle_key(Key::Enter);
    assert!(app.quit);
}

#[test]
fn m_opens_nic_menu_whatever_the_focus() {
    let mut app = three_nics();
    app.handle_key(Key::Tab);
    app.handle_key(Key::Tab);
    assert_eq!(app.focus, Some(Focus::ToggleBtn));
    assert_eq!(app.handle_key(Key::Char('m')), Action::Nothing);
    assert_eq!(app.mode, AppMode::NicMenu);
    assert_eq!(app.menu_selected, Some(app.selected_idx));
    assert!(app.show_throughput);
    app.handle_key(Key::Char('m'));
    assert_eq!(app.mode, AppMode::Normal);
    app.handle_key(Key::Tab);
    app.handle_key(Key::Tab);
    assert_eq!(app.focus, Some(Focus::QuitBtn));
    app.handle_key(Key::Char('m'));
    assert_eq!(app.mode, AppMode::NicMenu);
    assert!(!app.quit);
}

#[test]
fn arrows_change_nic() {
    let mut app = three_nics();
    assert_eq!(app.handle_key(Key::Left), Action::Select(2));
    assert_eq!(app.selected_idx, 0);
    app.select_nic(2, &driver_reports("e1000"));
    assert_eq!(app.handle_key(Key::Right), Action::Select(0));
    assert_eq!(app.handle_key(Key::Up), Action::Nothing);
    assert_eq!(app.selected_idx, 2);
}

#[test]
fn nic_menu_navigation() {
    let mut app = three_nics();
    app.handle_key(Key::Char('m'));
    assert_eq!(app.mode, AppMode::NicMenu);
    assert_eq!(app.menu_selected, Some(0));
    app.handle_key(Key::Up);
    assert_eq!(app.menu_selected, Some(2));
    app.handle_key(Key::Down);
    assert_eq!(app.menu_selected, Some(0));
    app.handle_key(Key::Down);
    assert_eq!(app.handle_key(Key::Enter), Action::Select(1));
    assert_eq!(app.mode, AppMode::Normal);
    app.select_nic(1, &driver_reports("r8169"));
    assert_eq!(app.selected_idx, 1);
    app.handle_key(Key::Char('m'));
    app.handle_key(Key::Char('q'));
    assert_eq!(app.mode, AppMode::Normal);
    assert!(!app.quit);
    app.handle_key(Key::Char('Q'));
    assert!(app.quit);
}

#[test]
fn mouse_in_nic_menu() {
    let mut app = three_nics();
    app.list_rect = Rect { x: 10, y: 5, width: 20, height: 8 };
    app.btn_nic_rect = Rect { x: 40, y: 0, width: 18, height: 3 };
    app.handle_key(Key::Enter);
    assert_eq!(app.mode, AppMode::NicMenu);
    // row 8 is the third entry below the border at row 5
    let a = app.handle_mouse(MouseInput { column: 12, row: 8, left_press: false });
    assert_eq!(a, Action::Nothing);
    assert_eq!(app.hovered_nic_idx, Some(2));
    assert_eq!(app.mouse_pos, (12, 8));
    // a row below the entries hovers nothing, and a click there keeps the menu
    app.handle_mouse(MouseInput { column: 12, row: 10, left_press: true });
    assert_eq!(app.hovered_nic_idx, None);
    assert_eq!(app.mode, AppMode::NicMenu);
    let a = app.handle_mouse(MouseInput { column: 12, row: 7, left_press: true });
    assert_eq!(a, Action::Select(1));
    assert_eq!(app.selected_idx, 0);
    assert_eq!(app.mode, AppMode::Normal);
    // a click outside the menu closes it
    app.handle_mouse(MouseInput { column: 45, row: 1, left_press: true });
    assert_eq!(app.mode, AppMode::NicMenu);
    app.handle_mouse(MouseInput { column: 0, row: 0, left_press: true });
    assert_eq!(app.mode, AppMode::Normal);
}

#[test]
fn mouse_on_buttons() {
    let mut app = three_nics();
    app.btn_toggle_rect = Rect { x: 20, y: 0, width: 10, height: 3 };
    app.btn_about_rect = Rect { x: 30, y: 0, width: 10, height: 3 };
    app.btn_quit_rect = Rect { x: 40, y: 0, width: 10, height: 3 };
    app.focus = Some(Focus::AboutBtn);
    app.handle_mouse(MouseInput { column: 25, row: 1, left_press: false });
    assert_eq!(app.focus, None);
    assert!(app.show_throughput);
    app.handle_mouse(MouseInput { column: 25, row: 1, left_press: true });
    assert!(!app.show_throughput);
    app.handle_mouse(MouseInput { column: 30, row: 2, left_press: true });
    assert_eq!(app.mode, AppMode::About);
    app.handle_mouse(MouseInput { column: 45, row: 1, left_press: true });
    assert_eq!(app.mode, AppMode::Normal);
    assert!(!app.quit);
    app.handle_mouse(MouseInput { column: 49, row: 2, left_press: true });
    assert!(app.quit);
}

#[test]
fn inputs_that_cannot_be_answered() {
    let app = three_nics();
    assert!(app.accepts_key(Key::Right));
    assert!(app.accepts_mouse(MouseInput { column: 1, row: 1, left_press: true }));
    let empty = App::new_empty();
    assert!(!empty.accepts_key(Key::Right));
    assert!(!empty.accepts_key(Key::Left));
    assert!(empty.accepts_key(Key::Char('q')));
    let mut bad = three_nics();
    bad.btn_quit_rect = Rect { x: 65535, y: 0, width: 1, height: 1 };
    assert!(!bad.accepts_mouse(MouseInput { column: 1, row: 1, left_press: true }));
    assert!(bad.accepts_mouse(MouseInput { column: 1, row: 1, left_press: false }));
}

#[test]
fn quitting_works_without_nics() {
    let mut app = App::new_empty();
    assert_eq!(app.handle_key(Key::Esc), Action::Nothing);
    assert!(app.quit);
}
