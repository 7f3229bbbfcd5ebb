//! The state of the monitor: the NICs it can show, which one is selected, what
//! is known of it, its traffic counters, and the state of the interface.
use std::collections::VecDeque;
use vstd::prelude::*;
use crate::report::{
    channels, channels_of, driver_info, fallback_queue_count, fallback_queues, hardware_model,
    hardware_model_of, lspci_applies, mac_address, mac_address_of, no_hardware_model, opt_view,
    report_field, xdp_state, xdp_state_of, lspci_wanted,
};
use crate::stats::{empty_stats, next_stats, sample_captures, sample_fits, sampled, sat_sub, QueueStats};
use crate::ranking::{
    candidates_of, lemma_best_of, nic_score, preferred, preferred_index, ranked, ranked_nics, scores,
    CandidateView, FoundNic,
};
use crate::ui::Rect;

verus! {

/// The number of samples the throughput histories hold.
pub const SPARKLINE_LEN: usize = 100;

#[derive(PartialEq, Eq, Structural, Clone, Copy, Debug)]
pub enum AppMode {
    Normal,
    NicMenu,
    About,
}

#[derive(PartialEq, Eq, Structural, Clone, Copy, Debug)]
pub enum Focus {
    NicBtn,
    ToggleBtn,
    FilterBtn,
    AboutBtn,
    QuitBtn,
}

/// What is known of the selected NIC.
pub struct NicInfo {
    pub hardware_model: String,
    pub driver: String,
    pub firmware: String,
    pub bus_info: String,
    pub xdp_capability: String,
    pub xdp_is_zerocopy: bool,
    pub current_xdp_state: String,
    pub mac_address: String,
    pub current_channels: usize,
    pub max_channels: usize,
    pub fallback_queues: usize,
}

/// Traffic measured on the selected NIC: throughput histories, the totals of the
/// previous reading, and the per-queue counters.
pub struct Traffic {
    pub rx_bytes_history: VecDeque<u64>,
    pub tx_bytes_history: VecDeque<u64>,
    pub last_rx_bytes: u64,
    pub last_tx_bytes: u64,
    pub last_rx_packets: u64,
    pub last_tx_packets: u64,
    pub queues: QueueStats,
}

/// A history of `SPARKLINE_LEN` zero samples.
pub open spec fn zero_history() -> Seq<u64> {
    Seq::new(SPARKLINE_LEN as nat, |i: int| 0u64)
}

impl Traffic {
    /// Nothing measured yet.
    pub open spec fn is_reset(&self) -> bool {
        &&& self.rx_bytes_history@ == zero_history()
        &&& self.tx_bytes_history@ == zero_history()
        &&& self.last_rx_bytes == 0
        &&& self.last_tx_bytes == 0
        &&& self.last_rx_packets == 0
        &&& self.last_tx_packets == 0
        &&& self.queues@ == empty_stats()
    }

    pub fn new() -> (res: Traffic)
        ensures
            res.is_reset(),
    {
        Traffic {
            rx_bytes_history: zeros(),
            tx_bytes_history: zeros(),
            last_rx_bytes: 0,
            last_tx_bytes: 0,
            last_rx_packets: 0,
            last_tx_packets: 0,
            queues: QueueStats::new(),
        }
    }
}

fn zeros() -> (res: VecDeque<u64>)
    ensures
        res@ == zero_history(),
{
    let mut h: VecDeque<u64> = VecDeque::new();
    let mut i: usize = 0;
    while i < SPARKLINE_LEN
        invariant
            i <= SPARKLINE_LEN,
            h@ == Seq::new(i as nat, |j: int| 0u64),
        decreases SPARKLINE_LEN - i,
    {
        h.push_back(0);
        i = i + 1;
        assert(h@ =~= Seq::new(i as nat, |j: int| 0u64));
    }
    h
}

/// The packets and bytes moved since the previous reading of a NIC's totals.
#[derive(PartialEq, Eq, Structural, Clone, Copy, Debug)]
pub struct TrafficDelta {
    pub rx_bytes: u64,
    pub tx_bytes: u64,
    pub rx_packets: u64,
    pub tx_packets: u64,
}

fn saturating_sub(a: u64, b: u64) -> (res: u64)
    ensures
        res == sat_sub(a, b),
{
    if a >= b {
        a - b
    } else {
        0
    }
}

/// The whole state of the monitor.
pub struct App {
    /// Name of each NIC, and whether its driver supports zero-copy XDP.
    pub nics: Vec<(String, bool)>,
    pub mode: AppMode,
    pub focus: Option<Focus>,
    pub selected_idx: usize,
    /// The entry highlighted in the NIC menu.
    pub menu_selected: Option<usize>,
    pub show_throughput: bool,
    pub filter_drv_only: bool,
    pub physical_cores: usize,
    pub current_nic_info: Option<NicInfo>,
    pub mouse_pos: (u16, u16),
    pub btn_nic_rect: Rect,
    pub btn_toggle_rect: Rect,
    pub btn_filter_rect: Rect,
    pub btn_about_rect: Rect,
    pub btn_quit_rect: Rect,
    pub list_rect: Rect,
    pub hovered_nic_idx: Option<usize>,
    pub traffic: Traffic,
    pub quit: bool,
}

pub open spec fn zero_rect() -> Rect {
    Rect { x: 0, y: 0, width: 0, height: 0 }
}

/// The starting state of an `App` on the given NICs.
pub open spec fn initial(
    app: App,
    nics: Seq<(Seq<char>, bool)>,
    selected: usize,
    menu_selected: Option<usize>,
    physical_cores: usize,
) -> bool {
    &&& app.nics.deep_view() == nics
    &&& app.mode == AppMode::Normal
    &&& app.focus is None
    &&& app.selected_idx == selected
    &&& app.menu_selected == menu_selected
    &&& app.show_throughput
    &&& !app.filter_drv_only
    &&& app.physical_cores == physical_cores
    &&& app.mouse_pos == (0u16, 0u16)
    &&& app.btn_nic_rect == zero_rect()
    &&& app.btn_toggle_rect == zero_rect()
    &&& app.btn_filter_rect == zero_rect()
    &&& app.btn_about_rect == zero_rect()
    &&& app.btn_quit_rect == zero_rect()
    &&& app.list_rect == zero_rect()
    &&& app.hovered_nic_idx is None
    &&& app.traffic.is_reset()
    &&& !app.quit
}

/// The NIC list of the candidates: names and zero-copy capability.
pub open spec fn nics_of(cands: Seq<CandidateView>) -> Seq<(Seq<char>, bool)> {
    cands.map_values(|c: CandidateView| (c.0, c.1))
}

/// The reports of the tools that describe a NIC, `None` for a tool that could
/// not be run: `ethtool -i`, `lspci -s` on its bus address, `ip -details link
/// show`, `ethtool -l`, and the names in its queue directory.
pub struct NicReports {
    pub driver: Option<String>,
    pub lspci: Option<String>,
    pub link: Option<String>,
    pub channels: Option<String>,
    pub queue_names: Vec<String>,
}

/// `info` is what the reports `r` tell of a NIC with zero-copy capability `zc`.
pub open spec fn nic_info_from(info: NicInfo, zc: bool, r: NicReports) -> bool {
    nic_info_fields(
        info,
        zc,
        r.driver.deep_view(),
        r.lspci.deep_view(),
        r.link.deep_view(),
        r.channels.deep_view(),
        r.queue_names.deep_view(),
    )
}

/// `new` is `old` showing NIC `idx`: selected, with no traffic measured yet, and
/// described by the reports `r`.
pub open spec fn shows_nic(old: App, new: App, idx: usize, r: NicReports) -> bool {
    &&& new.traffic.is_reset()
    &&& new.current_nic_info matches Some(info) && nic_info_from(info, old.nics@[idx as int].1, r)
    &&& new == App {
        selected_idx: idx,
        traffic: new.traffic,
        current_nic_info: new.current_nic_info,
        ..old
    }
}

fn as_text(o: &Option<String>) -> (res: Option<&str>)
    ensures
        opt_view(res) == o.deep_view(),
{
    match o {
        Some(s) => Some(s.as_str()),
        None => None,
    }
}

impl App {
    /// An application on the interfaces `found`, offered in the order `ranked`
    /// gives, whose `ip -details link show` reports in that order are
    /// `link_reports`, on a machine with `physical_cores` cores where that is
    /// known and `logical_cpus` CPUs. It shows the preferred NIC, which the NIC
    /// menu also highlights, described by the reports `chosen` of that NIC.
    pub fn new(
        found: &Vec<FoundNic>,
        link_reports: &Vec<Option<String>>,
        physical_cores: Option<usize>,
        logical_cpus: usize,
        chosen: &NicReports,
    ) -> (res: App)
        requires
            link_reports.len() == ranked(candidates_of(found.deep_view())).len(),
            forall|i: int|
                0 <= i < link_reports.len() ==> nic_score(
                    #[trigger] ranked(candidates_of(found.deep_view()))[i],
                    link_reports.deep_view()[i],
                ) <= u64::MAX,
        ensures
            ({
                let cands = ranked(candidates_of(found.deep_view()));
                let best = preferred(cands, link_reports.deep_view()) as usize;
                &&& initial(
                    res,
                    nics_of(cands),
                    best,
                    Some(best),
                    match physical_cores {
                        Some(c) => c,
                        None => logical_cpus,
                    },
                )
                &&& res.current_nic_info matches Some(info) && nic_info_from(
                    info,
                    cands[best as int].1,
                    *chosen,
                )
            }),
            res.selected_idx < res.nics.len(),
    {
        let candidates = ranked_nics(found);
        proof {
            crate::ranking::lemma_ranked(candidates_of(found.deep_view()));
        }
        let best = preferred_index(&candidates, link_reports);
        proof {
            lemma_best_of(scores(candidates.deep_view(), link_reports.deep_view()));
        }
        let ghost cs = candidates.deep_view();
        let mut nics: Vec<(String, bool)> = Vec::new();
        let mut i: usize = 0;
        while i < candidates.len()
            invariant
                i <= candidates.len(),
                cs == candidates.deep_view(),
                nics.deep_view() == nics_of(cs).take(i as int),
                nics@.len() == i,
                forall|k: int| 0 <= k < i ==> #[trigger] nics@[k].1 == cs[k].1,
            decreases candidates.len() - i,
        {
            let entry = (candidates[i].0.clone(), candidates[i].1);
            assert(entry.deep_view() == nics_of(cs)[i as int]);
            let ghost before = nics.deep_view();
            nics.push(entry);
            assert(nics.deep_view() =~= before.push(nics_of(cs)[i as int]));
            assert(nics.deep_view() =~= nics_of(cs).take(i + 1));
            i = i + 1;
        }
        assert(nics_of(cs).take(i as int) =~= nics_of(cs));
        let mut app = App::new_empty();
        app.nics = nics;
        app.selected_idx = best;
        app.menu_selected = Some(best);
        app.physical_cores = match physical_cores {
            Some(c) => c,
            None => logical_cpus,
        };
        app.fetch_nic_info(chosen);
        app
    }

    /// An application with no NICs, showing throughput, on an assumed 4 cores.
    pub fn new_empty() -> (res: App)
        ensures
            initial(res, Seq::empty(), 0, None, 4),
            res.current_nic_info is None,
    {
        let nics: Vec<(String, bool)> = Vec::new();
        assert(nics.deep_view() =~= Seq::<(Seq<char>, bool)>::empty());
        App {
            nics,
            mode: AppMode::Normal,
            focus: None,
            selected_idx: 0,
            menu_selected: None,
            show_throughput: true,
            filter_drv_only: false,
            physical_cores: 4,
            current_nic_info: None,
            mouse_pos: (0, 0),
            btn_nic_rect: Rect::default(),
            btn_toggle_rect: Rect::default(),
            btn_filter_rect: Rect::default(),
            btn_about_rect: Rect::default(),
            btn_quit_rect: Rect::default(),
            list_rect: Rect::default(),
            hovered_nic_idx: None,
            traffic: Traffic::new(),
            quit: false,
        }
    }

    /// Forgets all traffic measured so far.
    pub fn reset_stats(&mut self)
        ensures
            final(self).traffic.is_reset(),
            *final(self) == (App { traffic: final(self).traffic, ..*old(self) }),
    {
        self.traffic = Traffic::new();
    }

    /// Selects NIC `idx`, whose tool reports are `reports`: forgets the traffic
    /// measured on the previous NIC and records what is known of this one.
    pub fn select_nic(&mut self, idx: usize, reports: &NicReports)
        requires
            idx < old(self).nics.len(),
        ensures
            shows_nic(*old(self), *final(self), idx, *reports),
    {
        self.selected_idx = idx;
        self.reset_stats();
        self.fetch_nic_info(reports);
    }

    /// The NIC after the selected one, after the last one the first.
    pub fn next_nic_index(&self) -> (res: usize)
        requires
            self.nics.len() > 0,
            self.selected_idx < usize::MAX,
        ensures
            res == next_index(self.selected_idx, self.nics.len()),
            res < self.nics.len(),
    {
        let n = self.nics.len();
        let next = (self.selected_idx + 1) % n;
        assert(next < n) by (nonlinear_arith)
            requires
                next == (self.selected_idx + 1) % (n as int),
                n > 0,
        ;
        next
    }

    /// The NIC before the selected one, before the first one the last.
    pub fn prev_nic_index(&self) -> (res: usize)
        requires
            self.nics.len() > 0,
            self.selected_idx <= self.nics.len(),
        ensures
            res == prev_index(self.selected_idx, self.nics.len()),
            res < self.nics.len(),
    {
        if self.selected_idx == 0 {
            self.nics.len() - 1
        } else {
            self.selected_idx - 1
        }
    }

    /// Selects the next NIC, after the last one the first, whose tool reports
    /// are `reports`.
    pub fn next_nic(&mut self, reports: &NicReports)
        requires
            old(self).nics.len() > 0,
            old(self).selected_idx < usize::MAX,
        ensures
            shows_nic(
                *old(self),
                *final(self),
                next_index(old(self).selected_idx, old(self).nics.len()),
                *reports,
            ),
    {
        let next = self.next_nic_index();
        self.select_nic(next, reports);
    }

    /// Selects the previous NIC, before the first one the last, whose tool
    /// reports are `reports`.
    pub fn prev_nic(&mut self, reports: &NicReports)
        requires
            old(self).nics.len() > 0,
            old(self).selected_idx <= old(self).nics.len(),
        ensures
            shows_nic(
                *old(self),
                *final(self),
                prev_index(old(self).selected_idx, old(self).nics.len()),
                *reports,
            ),
    {
        let prev = self.prev_nic_index();
        self.select_nic(prev, reports);
    }
}

/// The history after one more sample: the oldest sample leaves, `v` joins at the end.
pub open spec fn shifted(h: Seq<u64>, v: u64) -> Seq<u64> {
    if h.len() > 0 {
        h.drop_first().push(v)
    } else {
        h.push(v)
    }
}

/// What is known of a NIC, from its zero-copy capability and the reports of
/// `ethtool -i`, `lspci -s` (consulted only for a known bus address),
/// `ip -details link show`, `ethtool -l` and the names in its queue directory.
pub open spec fn nic_info_fields(
    info: NicInfo,
    xdp_is_zerocopy: bool,
    driver_report: Option<Seq<char>>,
    lspci_report: Option<Seq<char>>,
    link_report: Option<Seq<char>>,
    channel_report: Option<Seq<char>>,
    queue_names: Seq<Seq<char>>,
) -> bool {
    let bus = report_field(driver_report, "bus-info:"@);
    &&& info.driver@ == report_field(driver_report, "driver:"@)
    &&& info.firmware@ == report_field(driver_report, "firmware-version:"@)
    &&& info.bus_info@ == bus
    &&& info.hardware_model@ == if lspci_applies(bus) {
        hardware_model(lspci_report)
    } else {
        no_hardware_model()
    }
    &&& info.xdp_is_zerocopy == xdp_is_zerocopy
    &&& info.xdp_capability@ == if xdp_is_zerocopy {
        "Supported (Native 'drv' Zero-Copy Capable)"@
    } else {
        "Restricted (SKB Software Mode Only)"@
    }
    &&& info.current_xdp_state@ == xdp_state(link_report)
    &&& info.mac_address@ == mac_address(link_report)
    &&& info.current_channels == channels(channel_report).current_channels
    &&& info.max_channels == channels(channel_report).max_channels
    &&& info.fallback_queues == fallback_queues(queue_names)
}

impl App {
    /// Takes a reading of the selected NIC's byte and packet totals. Where an
    /// earlier reading gave a positive receive byte total, returns what moved
    /// since (saturating at zero); the reading becomes the one the next is
    /// measured against.
    pub fn update_counters(&mut self, rx_bytes: u64, tx_bytes: u64, rx_packets: u64, tx_packets: u64) -> (res: Option<TrafficDelta>)
        ensures
            res == if old(self).traffic.last_rx_bytes > 0 {
                Some(TrafficDelta {
                    rx_bytes: sat_sub(rx_bytes, old(self).traffic.last_rx_bytes),
                    tx_bytes: sat_sub(tx_bytes, old(self).traffic.last_tx_bytes),
                    rx_packets: sat_sub(rx_packets, old(self).traffic.last_rx_packets),
                    tx_packets: sat_sub(tx_packets, old(self).traffic.last_tx_packets),
                })
            } else {
                None
            },
            *final(self) == (App {
                traffic: Traffic {
                    last_rx_bytes: rx_bytes,
                    last_tx_bytes: tx_bytes,
                    last_rx_packets: rx_packets,
                    last_tx_packets: tx_packets,
                    ..old(self).traffic
                },
                ..*old(self)
            }),
    {
        let res = if self.traffic.last_rx_bytes > 0 {
            Some(TrafficDelta {
                rx_bytes: saturating_sub(rx_bytes, self.traffic.last_rx_bytes),
                tx_bytes: saturating_sub(tx_bytes, self.traffic.last_tx_bytes),
                rx_packets: saturating_sub(rx_packets, self.traffic.last_rx_packets),
                tx_packets: saturating_sub(tx_packets, self.traffic.last_tx_packets),
            })
        } else {
            None
        };
        self.traffic.last_rx_bytes = rx_bytes;
        self.traffic.last_tx_bytes = tx_bytes;
        self.traffic.last_rx_packets = rx_packets;
        self.traffic.last_tx_packets = tx_packets;
        res
    }

    /// Appends a throughput sample to each history, dropping the oldest.
    pub fn push_history(&mut self, rx: u64, tx: u64)
        ensures
            final(self).traffic.rx_bytes_history@ == shifted(old(self).traffic.rx_bytes_history@, rx),
            final(self).traffic.tx_bytes_history@ == shifted(old(self).traffic.tx_bytes_history@, tx),
            *final(self) == (App {
                traffic: Traffic {
                    rx_bytes_history: final(self).traffic.rx_bytes_history,
                    tx_bytes_history: final(self).traffic.tx_bytes_history,
                    ..old(self).traffic
                },
                ..*old(self)
            }),
    {
        let _ = self.traffic.rx_bytes_history.pop_front();
        self.traffic.rx_bytes_history.push_back(rx);
        let _ = self.traffic.tx_bytes_history.pop_front();
        self.traffic.tx_bytes_history.push_back(tx);
        assert(self.traffic.rx_bytes_history@ =~= shifted(old(self).traffic.rx_bytes_history@, rx));
        assert(self.traffic.tx_bytes_history@ =~= shifted(old(self).traffic.tx_bytes_history@, tx));
    }

    /// Samples the `ethtool -S` statistics of the selected NIC (see
    /// `QueueStats::parse_ethtool_output`).
    pub fn parse_ethtool_output(&mut self, stdout: &str) -> (res: bool)
        ensures
            res == (sample_captures(stdout@) matches Some((rx, rx_xdp, tx, xdp)) && sample_fits(
                rx_xdp,
                xdp,
            )),
            res ==> (sample_captures(stdout@) matches Some((rx, rx_xdp, tx, xdp))
                && final(self).traffic.queues@ == next_stats(
                old(self).traffic.queues@,
                rx,
                rx_xdp,
                tx,
                xdp,
            )),
            !res ==> final(self).traffic.queues@ == old(self).traffic.queues@,
            final(self).traffic.queues@ == sampled(old(self).traffic.queues@, stdout@),
            *final(self) == (App {
                traffic: Traffic { queues: final(self).traffic.queues, ..old(self).traffic },
                ..*old(self)
            }),
    {
        self.traffic.queues.parse_ethtool_output(stdout)
    }

    /// Records what is known of the selected NIC, from the reports of the tools
    /// that describe it.
    pub fn fetch_nic_info(&mut self, reports: &NicReports)
        requires
            old(self).selected_idx < old(self).nics.len(),
        ensures
            final(self).current_nic_info matches Some(info) && nic_info_from(
                info,
                old(self).nics@[old(self).selected_idx as int].1,
                *reports,
            ),
            *final(self) == (App { current_nic_info: final(self).current_nic_info, ..*old(self) }),
    {
        let driver_report = as_text(&reports.driver);
        let lspci_report = as_text(&reports.lspci);
        let link_report = as_text(&reports.link);
        let channel_report = as_text(&reports.channels);
        let queue_names = &reports.queue_names;
        let xdp_is_zerocopy = self.nics[self.selected_idx].1;
        let d = driver_info(driver_report);
        let hardware_model = if lspci_wanted(d.bus_info.as_str()) {
            hardware_model_of(lspci_report)
        } else {
            "Unknown (Not PCI/Virtual)".to_owned()
        };
        let xdp_capability = if xdp_is_zerocopy {
            "Supported (Native 'drv' Zero-Copy Capable)".to_owned()
        } else {
            "Restricted (SKB Software Mode Only)".to_owned()
        };
        let ch = channels_of(channel_report);
        self.current_nic_info = Some(
            NicInfo {
                hardware_model,
                driver: d.driver,
                firmware: d.firmware,
                bus_info: d.bus_info,
                xdp_capability,
                xdp_is_zerocopy,
                current_xdp_state: xdp_state_of(link_report),
                mac_address: mac_address_of(link_report),
                current_channels: ch.current_channels,
                max_channels: ch.max_channels,
                fallback_queues: fallback_queue_count(queue_names),
            },
        );
    }
}

/// A history of `SPARKLINE_LEN` samples keeps that length as samples are added,
/// and so does a history that was reset.
pub proof fn lemma_history_window(h: Seq<u64>, v: u64)
    requires
        h.len() == SPARKLINE_LEN,
    ensures
        shifted(h, v).len() == SPARKLINE_LEN,
        shifted(h, v).last() == v,
        forall|i: int| 0 <= i < SPARKLINE_LEN - 1 ==> #[trigger] shifted(h, v)[i] == h[i + 1],
        zero_history().len() == SPARKLINE_LEN,
{
}

/// The NIC after `i` of `n`, wrapping around.
pub open spec fn next_index(i: usize, n: usize) -> usize {
    ((i + 1) % (n as int)) as usize
}

/// The NIC before `i` of `n`, wrapping around.
pub open spec fn prev_index(i: usize, n: usize) -> usize {
    if i == 0 {
        (n - 1) as usize
    } else {
        (i - 1) as usize
    }
}

/// Stepping to the next NIC and back, or back and then on, returns to the NIC
/// one started from.
pub proof fn lemma_next_prev_inverse(i: usize, n: usize)
    requires
        i < n,
    ensures
        prev_index(next_index(i, n), n) == i,
        next_index(prev_index(i, n), n) == i,
        next_index(i, n) < n,
        prev_index(i, n) < n,
{
    if i + 1 < n {
        assert((i + 1) % (n as int) == i + 1) by (nonlinear_arith)
            requires
                0 <= i + 1 < n,
        ;
    } else {
        assert((i + 1) % (n as int) == 0) by (nonlinear_arith)
            requires
                i + 1 == n,
                n > 0,
        ;
    }
    if i == 0 {
        assert(((n - 1) + 1) % (n as int) == 0) by (nonlinear_arith)
            requires
                n > 0,
        ;
    } else {
        assert(((i - 1) + 1) % (n as int) == i) by (nonlinear_arith)
            requires
                0 < i < n,
        ;
    }
}

/// The NIC reached from `i` of `n` by `k` steps to the next one.
pub open spec fn steps_next(i: usize, n: usize, k: nat) -> usize
    decreases k,
{
    if k == 0 {
        i
    } else {
        next_index(steps_next(i, n, (k - 1) as nat), n)
    }
}

proof fn lemma_steps_next(i: usize, n: usize, k: nat)
    requires
        i < n,
        k <= n,
    ensures
        steps_next(i, n, k) == if i + k < n {
            i + k
        } else {
            i + k - n
        },
    decreases k,
{
    if k > 0 {
        lemma_steps_next(i, n, (k - 1) as nat);
        let x = steps_next(i, n, (k - 1) as nat);
        if x + 1 < n {
            assert((x + 1) % (n as int) == x + 1) by (nonlinear_arith)
                requires
                    0 <= x + 1 < n,
            ;
        } else {
            assert((x + 1) % (n as int) == 0) by (nonlinear_arith)
                requires
                    x + 1 == n,
                    n > 0,
            ;
        }
    }
}

/// The NICs shown in the first `n` steps to the next NIC from `start`.
pub open spec fn visited_nics(start: usize, n: usize) -> Set<usize> {
    Set::new(|j: usize| exists|k: nat| k < n && #[trigger] steps_next(start, n, k) == j)
}

/// Stepping to the next NIC `n` times from any of `n` NICs shows every NIC
/// exactly once and comes back to the NIC one started from; every step stays on
/// a NIC.
pub proof fn lemma_next_visits_every_nic(start: usize, n: usize)
    requires
        start < n,
    ensures
        steps_next(start, n, n as nat) == start,
        forall|k: nat| k <= n ==> #[trigger] steps_next(start, n, k) < n,
        forall|k1: nat, k2: nat|
            k1 < k2 < n ==> #[trigger] steps_next(start, n, k1) != #[trigger] steps_next(
                start,
                n,
                k2,
            ),
        visited_nics(start, n) == Set::new(|j: usize| j < n),
{
    lemma_steps_next(start, n, n as nat);
    assert forall|k: nat| k <= n implies #[trigger] steps_next(start, n, k) < n by {
        lemma_steps_next(start, n, k);
    }
    assert forall|k1: nat, k2: nat| k1 < k2 < n implies #[trigger] steps_next(start, n, k1)
        != #[trigger] steps_next(start, n, k2) by {
        lemma_steps_next(start, n, k1);
        lemma_steps_next(start, n, k2);
    }
    assert forall|j: usize| visited_nics(start, n).contains(j) <==> j < n by {
        if j < n {
            let k: nat = if j >= start {
                (j - start) as nat
            } else {
                (j + n - start) as nat
            };
            lemma_steps_next(start, n, k);
            assert(steps_next(start, n, k) == j);
        }
        if visited_nics(start, n).contains(j) {
            let k = choose|k: nat| k < n && steps_next(start, n, k) == j;
            lemma_steps_next(start, n, k);
        }
    }
    assert(visited_nics(start, n) =~= Set::new(|j: usize| j < n));
}

} // verus!
