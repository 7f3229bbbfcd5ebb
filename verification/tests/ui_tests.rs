use xdp_top::app::{App, Focus, NicInfo};
use xdp_top::ui::{
    centered_rect, channels_text, highlighted, is_inside, nic_menu_label, rss_status,
    shows_throughput, toggle_label, xdp_state_tone, Rect, StateTone,
};

#[test]
fn inside_is_half_open() {
    let r = Rect { x: 2, y: 3, width: 4, height: 2 };
    assert!(is_inside((2, 3), r));
    assert!(is_inside((5, 4), r));
    assert!(!is_inside((6, 4), r));
    assert!(!is_inside((5, 5), r));
    assert!(!is_inside((1, 3), r));
    assert!(!is_inside((0, 0), Rect::default()));
}

#[test]
fn centered_rect_lies_in_the_middle() {
    let r = centered_rect(40, 50, Rect { x: 0, y: 0, width: 100, height: 40 });
    assert_eq!(r, Rect { x: 30, y: 10, width: 40, height: 20 });
    let square = Rect { x: 0, y: 0, width: 100, height: 100 };
    assert_eq!(centered_rect(40, 50, square), Rect { x: 30, y: 25, width: 40, height: 50 });
    assert_eq!(centered_rect(42, 44, square), Rect { x: 29, y: 28, width: 42, height: 44 });
}

#[test]
fn centered_rect_margins_balance() {
    let area = Rect { x: 3, y: 2, width: 81, height: 23 };
    let r = centered_rect(60, 40, area);
    let left = r.x - area.x;
    let right = (area.x + area.width) - (r.x + r.width);
    assert!(left.abs_diff(right) <= 1);
    let top = r.y - area.y;
    let bottom = (area.y + area.height) - (r.y + r.height);
    assert!(top.abs_diff(bottom) <= 1);
    assert!((r.width as i32 - 49).abs() <= 1);
    assert!((r.height as i32 - 9).abs() <= 1);
}

#[test]
fn throughput_toggle_label() {
    assert_eq!(toggle_label(true, 40), " [ Hide Throughput ] ");
    assert_eq!(toggle_label(true, 20), " [ Hidden (Size) ] ");
    assert_eq!(toggle_label(false, 20), " [ Show Throughput ] ");
    assert!(shows_throughput(true, 30));
    assert!(!shows_throughput(true, 29));
    assert!(!shows_throughput(false, 50));
}

#[test]
fn button_highlight() {
    let r = Rect { x: 10, y: 0, width: 5, height: 3 };
    assert!(highlighted(Some(Focus::NicBtn), Focus::NicBtn, (0, 0), r));
    assert!(highlighted(None, Focus::NicBtn, (12, 1), r));
    assert!(!highlighted(Some(Focus::QuitBtn), Focus::NicBtn, (0, 0), r));
}

#[test]
fn menu_labels() {
    assert_eq!(nic_menu_label(1, 1, "eth0", true), "[*] eth0 [Zerocopy capable]");
    assert_eq!(nic_menu_label(0, 1, "lo", false), "[ ] lo");
}

#[test]
fn state_tones() {
    assert_eq!(xdp_state_tone("Active - NATIVE (drv)"), StateTone::Native);
    assert_eq!(xdp_state_tone("Active - GENERIC (skb)"), StateTone::Generic);
    assert_eq!(xdp_state_tone("None (Standard Linux Networking)"), StateTone::Neutral);
}

fn info(current: usize, max: usize, fallback: usize) -> NicInfo {
    NicInfo {
        hardware_model: String::new(),
        driver: String::new(),
        firmware: String::new(),
        bus_info: String::new(),
        xdp_capability: String::new(),
        xdp_is_zerocopy: false,
        current_xdp_state: String::new(),
        mac_address: String::new(),
        current_channels: current,
        max_channels: max,
        fallback_queues: fallback,
    }
}

#[test]
fn channel_texts() {
    assert_eq!(channels_text(&info(8, 63, 1)), "8 active channels (Max Supported: 63)");
    assert_eq!(channels_text(&info(0, 0, 4)), "4 active queues (Fallback detection)");
}

#[test]
fn rss_texts() {
    assert_eq!(rss_status(0, 4), "No queue stats");
    assert_eq!(rss_status(4, 4), "RSS: Optimal (4 Qs / 4 Cores)");
    assert_eq!(rss_status(12, 8), "RSS: Suboptimal (12 Qs > 8 Cores)");
    let _ = App::new_empty();
}

#[test]
fn header_places_buttons_after_the_info_block() {
    let mut app = App::new_empty();
    let info = app.place_header(Rect { x: 0, y: 0, width: 100, height: 3 });
    assert_eq!(info, Rect { x: 0, y: 0, width: 38, height: 3 });
    assert_eq!(app.btn_nic_rect, Rect { x: 38, y: 0, width: 18, height: 3 });
    assert_eq!(app.btn_toggle_rect, Rect { x: 56, y: 0, width: 23, height: 3 });
    assert_eq!(app.btn_about_rect, Rect { x: 79, y: 0, width: 11, height: 3 });
    assert_eq!(app.btn_quit_rect, Rect { x: 90, y: 0, width: 10, height: 3 });
}

#[test]
fn narrow_header_keeps_buttons_in_order() {
    let mut app = App::new_empty();
    let header = Rect { x: 5, y: 1, width: 60, height: 3 };
    let info = app.place_header(header);
    assert_eq!(info.x, 5);
    assert_eq!(app.btn_nic_rect.x, info.x + info.width);
    assert_eq!(app.btn_toggle_rect.x, app.btn_nic_rect.x + app.btn_nic_rect.width);
    assert_eq!(app.btn_about_rect.x, app.btn_toggle_rect.x + app.btn_toggle_rect.width);
    assert_eq!(app.btn_quit_rect.x, app.btn_about_rect.x + app.btn_about_rect.width);
    assert!(app.btn_quit_rect.x + app.btn_quit_rect.width <= 65);
    let wide = Rect { x: 2, y: 0, width: 120, height: 3 };
    let info = app.place_header(wide);
    assert_eq!(info, Rect { x: 2, y: 0, width: 58, height: 3 });
    assert_eq!(app.btn_quit_rect, Rect { x: 112, y: 0, width: 10, height: 3 });
}
