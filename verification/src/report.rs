//! What the library reads from the reports of `ethtool -i`, `ethtool -l`,
//! `lspci -s`, `ip -details link show` and the queue directory of a NIC.
use vstd::prelude::*;
use crate::text::{
    chars_eq, chars_of, contains, occurs_at, contains_exec, find, find_exec, lemma_find_from, lines,
    lines_exec, parse_unsigned, parse_usize, remove_all, remove_all_exec, slice_chars, starts_with, starts_with_exec,
    string_from_chars, trim, trim_exec, words, words_exec,
};

verus! {

/// The view of a report that may be missing (the tool could not be run).
pub open spec fn opt_view(o: Option<&str>) -> Option<Seq<char>> {
    match o {
        Some(s) => Some(s@),
        None => None,
    }
}

pub open spec fn unknown() -> Seq<char> {
    "Unknown"@
}

/// The value of the last line of `ls` that starts with `key`: that line with every
/// occurrence of `key` removed, then trimmed.
pub open spec fn last_field(ls: Seq<Seq<char>>, key: Seq<char>) -> Option<Seq<char>>
    decreases ls.len(),
{
    if ls.len() == 0 {
        None
    } else if starts_with(ls.last(), key) {
        Some(trim(remove_all(ls.last(), key)))
    } else {
        last_field(ls.drop_last(), key)
    }
}

/// The value a `key: value` report gives for `key`, or "Unknown".
pub open spec fn report_field(report: Option<Seq<char>>, key: Seq<char>) -> Seq<char> {
    match report {
        Some(r) => match last_field(lines(r), key) {
            Some(v) => v,
            None => unknown(),
        },
        None => unknown(),
    }
}

fn last_field_exec(ls: &Vec<Vec<char>>, key: &Vec<char>) -> (res: Option<Vec<char>>)
    ensures
        match res {
            Some(v) => last_field(ls.deep_view(), key@) == Some(v@),
            None => last_field(ls.deep_view(), key@) is None,
        },
{
    let ghost all = ls.deep_view();
    let mut i = ls.len();
    assert(all.take(i as int) =~= all);
    while i > 0
        invariant
            i <= ls.len(),
            all == ls.deep_view(),
            last_field(all, key@) == last_field(all.take(i as int), key@),
        decreases i,
    {
        assert(all.take(i as int).last() == ls[i - 1]@);
        assert(all.take(i as int).drop_last() =~= all.take(i - 1));
        if starts_with_exec(&ls[i - 1], key) {
            let cut = remove_all_exec(&ls[i - 1], key);
            return Some(trim_exec(&cut));
        }
        i = i - 1;
    }
    assert(all.take(0) =~= Seq::<Seq<char>>::empty());
    None
}

fn report_field_exec(report: Option<&str>, key: &str) -> (res: String)
    ensures
        res@ == report_field(opt_view(report), key@),
{
    match report {
        Some(r) => {
            let text = chars_of(r);
            let ls = lines_exec(&text);
            match last_field_exec(&ls, &chars_of(key)) {
                Some(v) => string_from_chars(&v),
                None => "Unknown".to_owned(),
            }
        },
        None => "Unknown".to_owned(),
    }
}

/// Driver, firmware version and PCI bus address of a NIC, as `ethtool -i` reports them.
pub struct DriverInfo {
    pub driver: String,
    pub firmware: String,
    pub bus_info: String,
}

/// Reads the `driver:`, `firmware-version:` and `bus-info:` lines of an
/// `ethtool -i` report; a value that is not reported, or a report that could not
/// be had, reads "Unknown". Where a key occurs on several lines, the last one counts.
pub fn driver_info(report: Option<&str>) -> (res: DriverInfo)
    ensures
        res.driver@ == report_field(opt_view(report), "driver:"@),
        res.firmware@ == report_field(opt_view(report), "firmware-version:"@),
        res.bus_info@ == report_field(opt_view(report), "bus-info:"@),
{
    DriverInfo {
        driver: report_field_exec(report, "driver:"),
        firmware: report_field_exec(report, "firmware-version:"),
        bus_info: report_field_exec(report, "bus-info:"),
    }
}

/// The drivers that implement native XDP with zero-copy AF_XDP sockets.
pub open spec fn is_zero_copy_driver(d: Seq<char>) -> bool {
    ||| d == "mlx5_core"@
    ||| d == "mlx4_core"@
    ||| d == "i40e"@
    ||| d == "ixgbe"@
    ||| d == "ice"@
    ||| d == "igb"@
    ||| d == "igc"@
    ||| d == "bnxt_en"@
    ||| d == "ena"@
    ||| d == "sfc"@
    ||| d == "virtio_net"@
    ||| d == "ntb"@
}

pub fn zero_copy_driver(d: &Vec<char>) -> (res: bool)
    ensures
        res == is_zero_copy_driver(d@),
{
    chars_eq(d, &chars_of("mlx5_core")) || chars_eq(d, &chars_of("mlx4_core")) || chars_eq(
        d,
        &chars_of("i40e"),
    ) || chars_eq(d, &chars_of("ixgbe")) || chars_eq(d, &chars_of("ice")) || chars_eq(
        d,
        &chars_of("igb"),
    ) || chars_eq(d, &chars_of("igc")) || chars_eq(d, &chars_of("bnxt_en")) || chars_eq(
        d,
        &chars_of("ena"),
    ) || chars_eq(d, &chars_of("sfc")) || chars_eq(d, &chars_of("virtio_net")) || chars_eq(
        d,
        &chars_of("ntb"),
    )
}

/// Whether an `ethtool -i` report names a zero-copy capable driver on its last
/// `driver:` line.
pub open spec fn reports_zero_copy(report: Seq<char>) -> bool {
    match last_field(lines(report), "driver:"@) {
        Some(d) => is_zero_copy_driver(d),
        None => false,
    }
}

pub fn zero_copy_capable(report: &str) -> (res: bool)
    ensures
        res == reports_zero_copy(report@),
{
    let text = chars_of(report);
    let ls = lines_exec(&text);
    match last_field_exec(&ls, &chars_of("driver:")) {
        Some(d) => zero_copy_driver(&d),
        None => false,
    }
}

/// An `ethtool -i` report shows a zero-copy capable NIC exactly when the value
/// of its last `driver:` line is one of mlx5_core, mlx4_core, i40e, ixgbe, ice,
/// igb, igc, bnxt_en, ena, sfc, virtio_net or ntb.
pub proof fn lemma_zero_copy_drivers(report: Seq<char>)
    ensures
        reports_zero_copy(report) <==> (last_field(lines(report), "driver:"@) matches Some(d) && (
        d == "mlx5_core"@ || d == "mlx4_core"@ || d == "i40e"@ || d == "ixgbe"@ || d == "ice"@
            || d == "igb"@ || d == "igc"@ || d == "bnxt_en"@ || d == "ena"@ || d == "sfc"@ || d
            == "virtio_net"@ || d == "ntb"@)),
{
}

/// Whether `lspci` is asked about a bus address: it is known and not empty.
pub open spec fn lspci_applies(bus_info: Seq<char>) -> bool {
    bus_info.len() > 0 && bus_info != unknown()
}

pub fn lspci_wanted(bus_info: &str) -> (res: bool)
    ensures
        res == lspci_applies(bus_info@),
{
    let b = chars_of(bus_info);
    b.len() > 0 && !chars_eq(&b, &chars_of("Unknown"))
}

pub open spec fn no_hardware_model() -> Seq<char> {
    "Unknown (Not PCI/Virtual)"@
}

/// The hardware model in an `lspci -s` report: the text after the first ": " of
/// its first line, trimmed.
pub open spec fn hardware_model(report: Option<Seq<char>>) -> Seq<char> {
    match report {
        Some(r) => {
            let ls = lines(r);
            if ls.len() > 0 && find(ls[0], ": "@) >= 0 {
                trim(ls[0].subrange(find(ls[0], ": "@) + 2, ls[0].len() as int))
            } else {
                no_hardware_model()
            }
        },
        None => no_hardware_model(),
    }
}

pub fn hardware_model_of(report: Option<&str>) -> (res: String)
    ensures
        res@ == hardware_model(opt_view(report)),
{
    match report {
        Some(r) => {
            let text = chars_of(r);
            let ls = lines_exec(&text);
            if ls.len() == 0 {
                return "Unknown (Not PCI/Virtual)".to_owned();
            }
            let sep = chars_of(": ");
            proof {
                reveal_strlit(": ");
                lemma_find_from(ls[0]@, sep@, 0);
            }
            assert(ls.deep_view()[0] == ls[0]@);
            match find_exec(&ls[0], &sep) {
                Some(i) => {
                    assert(occurs_at(ls[0]@, sep@, i as int));
                    assert(sep@.len() == 2);
                    let line0 = &ls[0];
                    let n = line0.len();
                    assert(i + 2 <= n);
                    let rest = slice_chars(line0, i + 2, n);
                    string_from_chars(&trim_exec(&rest))
                },
                None => "Unknown (Not PCI/Virtual)".to_owned(),
            }
        },
        None => "Unknown (Not PCI/Virtual)".to_owned(),
    }
}

pub open spec fn no_xdp_state() -> Seq<char> {
    "None (Standard Linux Networking)"@
}

/// The XDP attachment that an `ip -details link show` report shows.
pub open spec fn xdp_state(report: Option<Seq<char>>) -> Seq<char> {
    match report {
        Some(t) => if contains(t, "xdpdrv"@) || (contains(t, "xdp "@) && !contains(
            t,
            "xdpgeneric"@,
        )) {
            "Active - NATIVE (drv)"@
        } else if contains(t, "xdpgeneric"@) {
            "Active - GENERIC (skb)"@
        } else if contains(t, "xdpoffload"@) {
            "Active - OFFLOAD (hw)"@
        } else if contains(t, "xdp"@) {
            "Active - Unknown Mode"@
        } else {
            no_xdp_state()
        },
        None => no_xdp_state(),
    }
}

pub fn xdp_state_of(report: Option<&str>) -> (res: String)
    ensures
        res@ == xdp_state(opt_view(report)),
{
    match report {
        Some(r) => {
            let t = chars_of(r);
            if contains_exec(&t, &chars_of("xdpdrv")) || (contains_exec(&t, &chars_of("xdp "))
                && !contains_exec(&t, &chars_of("xdpgeneric"))) {
                "Active - NATIVE (drv)".to_owned()
            } else if contains_exec(&t, &chars_of("xdpgeneric")) {
                "Active - GENERIC (skb)".to_owned()
            } else if contains_exec(&t, &chars_of("xdpoffload")) {
                "Active - OFFLOAD (hw)".to_owned()
            } else if contains_exec(&t, &chars_of("xdp")) {
                "Active - Unknown Mode".to_owned()
            } else {
                "None (Standard Linux Networking)".to_owned()
            }
        },
        None => "None (Standard Linux Networking)".to_owned(),
    }
}

/// The index of the first line of `ls` at or after `k` that contains `p`, or -1.
pub open spec fn first_line_containing(ls: Seq<Seq<char>>, p: Seq<char>, k: int) -> int
    decreases ls.len() + 1 - k,
{
    if 0 <= k < ls.len() {
        if contains(ls[k], p) {
            k
        } else {
            first_line_containing(ls, p, k + 1)
        }
    } else {
        -1
    }
}

/// The MAC address in an `ip -details link show` report: the second word of the
/// first line that mentions "link/ether", or "Unknown".
pub open spec fn mac_address(report: Option<Seq<char>>) -> Seq<char> {
    match report {
        Some(t) => {
            let ls = lines(t);
            let k = first_line_containing(ls, "link/ether"@, 0);
            if 0 <= k < ls.len() && words(ls[k]).len() >= 2 {
                words(ls[k])[1]
            } else {
                unknown()
            }
        },
        None => unknown(),
    }
}

pub fn mac_address_of(report: Option<&str>) -> (res: String)
    ensures
        res@ == mac_address(opt_view(report)),
{
    match report {
        Some(r) => {
            let t = chars_of(r);
            let ls = lines_exec(&t);
            let key = chars_of("link/ether");
            let ghost all = ls.deep_view();
            let mut k: usize = 0;
            while k < ls.len()
                invariant
                    k <= ls.len(),
                    all == ls.deep_view(),
                    all == lines(r@),
                    opt_view(report) == Some(r@),
                    key@ == "link/ether"@,
                    first_line_containing(all, key@, 0) == first_line_containing(
                        all,
                        key@,
                        k as int,
                    ),
                decreases ls.len() - k,
            {
                assert(all[k as int] == ls[k as int]@);
                if contains_exec(&ls[k], &key) {
                    let parts = words_exec(&ls[k]);
                    assert(first_line_containing(all, key@, k as int) == k);
                    assert(parts.deep_view().len() == parts.len());
                    assert(parts.deep_view() == words(all[k as int]));
                    assert(first_line_containing(lines(r@), "link/ether"@, 0) == k);
                    if parts.len() >= 2 {
                        assert(parts[1].deep_view() =~= parts[1]@);
                        assert(parts.deep_view()[1] == parts[1]@);
                        return string_from_chars(&parts[1]);
                    } else {
                        return "Unknown".to_owned();
                    }
                }
                k = k + 1;
            }
            "Unknown".to_owned()
        },
        None => "Unknown".to_owned(),
    }
}

/// Progress through an `ethtool -l` report: which section is being read and the
/// largest positive channel counts seen in each.
#[derive(Clone, Copy)]
pub struct ChannelScan {
    pub in_max: bool,
    pub in_current: bool,
    pub max_channels: usize,
    pub current_channels: usize,
}

pub open spec fn channel_scan_start() -> ChannelScan {
    ChannelScan { in_max: false, in_current: false, max_channels: 0, current_channels: 0 }
}

pub open spec fn max_usize(a: usize, b: usize) -> usize {
    if a >= b {
        a
    } else {
        b
    }
}

/// One line of an `ethtool -l` report: a section header switches section; a
/// `Combined:` or `RX:` line of exactly two words whose count is positive raises
/// the maximum of the current section.
pub open spec fn channel_step(st: ChannelScan, line: Seq<char>) -> ChannelScan {
    let t = trim(line);
    if starts_with(t, "Pre-set maximums:"@) {
        ChannelScan { in_max: true, in_current: false, ..st }
    } else if starts_with(t, "Current hardware settings:"@) {
        ChannelScan { in_max: false, in_current: true, ..st }
    } else if starts_with(t, "Combined:"@) || starts_with(t, "RX:"@) {
        let parts = words(t);
        if parts.len() == 2 {
            match parse_unsigned(parts[1], usize::MAX as nat) {
                Some(v) => if v > 0 {
                    ChannelScan {
                        max_channels: if st.in_max {
                            max_usize(st.max_channels, v as usize)
                        } else {
                            st.max_channels
                        },
                        current_channels: if st.in_current {
                            max_usize(st.current_channels, v as usize)
                        } else {
                            st.current_channels
                        },
                        ..st
                    }
                } else {
                    st
                },
                None => st,
            }
        } else {
            st
        }
    } else {
        st
    }
}

pub open spec fn channel_scan(ls: Seq<Seq<char>>) -> ChannelScan
    decreases ls.len(),
{
    if ls.len() == 0 {
        channel_scan_start()
    } else {
        channel_step(channel_scan(ls.drop_last()), ls.last())
    }
}

/// The result of reading an `ethtool -l` report, or of no report at all.
pub open spec fn channels(report: Option<Seq<char>>) -> ChannelScan {
    match report {
        Some(r) => channel_scan(lines(r)),
        None => channel_scan_start(),
    }
}

fn channel_step_exec(st: ChannelScan, line: &Vec<char>) -> (res: ChannelScan)
    ensures
        res == channel_step(st, line@),
{
    let t = trim_exec(line);
    if starts_with_exec(&t, &chars_of("Pre-set maximums:")) {
        ChannelScan { in_max: true, in_current: false, ..st }
    } else if starts_with_exec(&t, &chars_of("Current hardware settings:")) {
        ChannelScan { in_max: false, in_current: true, ..st }
    } else if starts_with_exec(&t, &chars_of("Combined:")) || starts_with_exec(
        &t,
        &chars_of("RX:"),
    ) {
        let parts = words_exec(&t);
        assert(parts.deep_view().len() == parts.len());
        if parts.len() == 2 {
            assert(parts[1].deep_view() =~= parts[1]@);
            match parse_usize(&parts[1]) {
                Some(v) => if v > 0 {
                    ChannelScan {
                        max_channels: if st.in_max && v > st.max_channels {
                            v
                        } else {
                            st.max_channels
                        },
                        current_channels: if st.in_current && v > st.current_channels {
                            v
                        } else {
                            st.current_channels
                        },
                        ..st
                    }
                } else {
                    st
                },
                None => st,
            }
        } else {
            st
        }
    } else {
        st
    }
}

/// Reads the channel counts of an `ethtool -l` report.
pub fn channels_of(report: Option<&str>) -> (res: ChannelScan)
    ensures
        res == channels(opt_view(report)),
{
    let mut st = ChannelScan {
        in_max: false,
        in_current: false,
        max_channels: 0,
        current_channels: 0,
    };
    match report {
        Some(r) => {
            let t = chars_of(r);
            let ls = lines_exec(&t);
            let ghost all = ls.deep_view();
            let mut i: usize = 0;
            while i < ls.len()
                invariant
                    i <= ls.len(),
                    all == ls.deep_view(),
                    st == channel_scan(all.take(i as int)),
                decreases ls.len() - i,
            {
                assert(all.take(i + 1).drop_last() =~= all.take(i as int));
                assert(all.take(i + 1).last() == ls[i as int]@);
                st = channel_step_exec(st, &ls[i]);
                i = i + 1;
            }
            assert(all.take(i as int) =~= all);
            st
        },
        None => st,
    }
}

/// Whether a line of an `ethtool -l` report starts a section: trimmed, it starts
/// with "Pre-set maximums:" or "Current hardware settings:".
pub open spec fn is_channel_header(line: Seq<char>) -> bool {
    starts_with(trim(line), "Pre-set maximums:"@) || starts_with(trim(line), "Current hardware settings:"@)
}

/// Whether line `k` of `ls` lies in the section that a line starting with
/// `header` opens: such a line comes before it, and no section starts between.
#[verifier::opaque]
pub open spec fn in_channel_section(ls: Seq<Seq<char>>, k: int, header: Seq<char>) -> bool {
    exists|j: int|
        0 <= j < k && #[trigger] starts_with(trim(ls[j]), header) && forall|m: int|
            j < m < k ==> !is_channel_header(#[trigger] ls[m])
}

/// The positive channel count a line gives: a line that, trimmed, starts with
/// "Combined:" or "RX:", has exactly two words, and whose second word reads as a
/// positive `usize`.
pub open spec fn channel_count(line: Seq<char>) -> Option<nat> {
    let t = trim(line);
    if !is_channel_header(line) && (starts_with(t, "Combined:"@) || starts_with(t, "RX:"@))
        && words(t).len() == 2 {
        match parse_unsigned(words(t)[1], usize::MAX as nat) {
            Some(v) => if v > 0 {
                Some(v)
            } else {
                None
            },
            None => None,
        }
    } else {
        None
    }
}

proof fn lemma_headers_differ(t: Seq<char>)
    ensures
        !(starts_with(t, "Pre-set maximums:"@) && starts_with(t, "Current hardware settings:"@)),
{
    reveal_strlit("Pre-set maximums:");
    reveal_strlit("Current hardware settings:");
    if starts_with(t, "Pre-set maximums:"@) && starts_with(t, "Current hardware settings:"@) {
        assert(t.subrange(0, 17)[0] == t[0]);
        assert(t.subrange(0, 26)[0] == t[0]);
    }
}

proof fn lemma_section_prefix(ls: Seq<Seq<char>>, k: int, h: Seq<char>)
    requires
        0 <= k < ls.len(),
    ensures
        in_channel_section(ls, k, h) == in_channel_section(ls.drop_last(), k, h),
{
    reveal(in_channel_section);
    let p = ls.drop_last();
    if in_channel_section(ls, k, h) {
        let j = choose|j: int|
            0 <= j < k && #[trigger] starts_with(trim(ls[j]), h) && forall|m: int|
                j < m < k ==> !is_channel_header(#[trigger] ls[m]);
        assert(p[j] == ls[j]);
        assert forall|m: int| j < m < k implies !is_channel_header(#[trigger] p[m]) by {
            assert(p[m] == ls[m]);
        }
        assert(starts_with(trim(p[j]), h));
    }
    if in_channel_section(p, k, h) {
        let j = choose|j: int|
            0 <= j < k && #[trigger] starts_with(trim(p[j]), h) && forall|m: int|
                j < m < k ==> !is_channel_header(#[trigger] p[m]);
        assert(p[j] == ls[j]);
        assert forall|m: int| j < m < k implies !is_channel_header(#[trigger] ls[m]) by {
            assert(p[m] == ls[m]);
        }
        assert(starts_with(trim(ls[j]), h));
    }
}

proof fn lemma_section_after_last(ls: Seq<Seq<char>>, h: Seq<char>)
    requires
        ls.len() > 0,
        h == "Pre-set maximums:"@ || h == "Current hardware settings:"@,
    ensures
        in_channel_section(ls, ls.len() as int, h) == if is_channel_header(ls.last()) {
            starts_with(trim(ls.last()), h)
        } else {
            in_channel_section(ls, ls.len() - 1, h)
        },
{
    reveal(in_channel_section);
    let n = ls.len() - 1;
    assert(ls.last() == ls[n]);
    if in_channel_section(ls, n + 1, h) {
        let j = choose|j: int|
            0 <= j < n + 1 && #[trigger] starts_with(trim(ls[j]), h) && forall|m: int|
                j < m < n + 1 ==> !is_channel_header(#[trigger] ls[m]);
        if j < n {
            assert(!is_channel_header(ls[n]));
            assert forall|m: int| j < m < n implies !is_channel_header(#[trigger] ls[m]) by {}
            assert(in_channel_section(ls, n, h));
        } else {
            assert(is_channel_header(ls[n]));
        }
    }
    if is_channel_header(ls[n]) && starts_with(trim(ls[n]), h) {
        assert(forall|m: int| n < m < n + 1 ==> !is_channel_header(#[trigger] ls[m]));
        assert(in_channel_section(ls, n + 1, h));
    }
    if !is_channel_header(ls[n]) && in_channel_section(ls, n, h) {
        let j = choose|j: int|
            0 <= j < n && #[trigger] starts_with(trim(ls[j]), h) && forall|m: int|
                j < m < n ==> !is_channel_header(#[trigger] ls[m]);
        assert forall|m: int| j < m < n + 1 implies !is_channel_header(#[trigger] ls[m]) by {}
        assert(in_channel_section(ls, n + 1, h));
    }
}

/// One line of an `ethtool -l` report: a header switches to its own section and
/// keeps the counts; any other line keeps the section and raises the count of the
/// section being read to the positive count it gives, if larger.
proof fn lemma_channel_step(st: ChannelScan, l: Seq<char>)
    ensures
        ({
            let ns = channel_step(st, l);
            &&& is_channel_header(l) ==> {
                &&& ns.in_max == starts_with(trim(l), "Pre-set maximums:"@)
                &&& ns.in_current == starts_with(trim(l), "Current hardware settings:"@)
                &&& ns.max_channels == st.max_channels
                &&& ns.current_channels == st.current_channels
                &&& channel_count(l) is None
            }
            &&& !is_channel_header(l) ==> {
                &&& ns.in_max == st.in_max
                &&& ns.in_current == st.in_current
                &&& ns.max_channels == match channel_count(l) {
                    Some(v) => if st.in_max && v > st.max_channels {
                        v
                    } else {
                        st.max_channels as nat
                    },
                    None => st.max_channels as nat,
                }
                &&& ns.current_channels == match channel_count(l) {
                    Some(v) => if st.in_current && v > st.current_channels {
                        v
                    } else {
                        st.current_channels as nat
                    },
                    None => st.current_channels as nat,
                }
            }
        }),
{
    lemma_headers_differ(trim(l));
}

/// Reading lines `ls` of an `ethtool -l` report, the section being read is the
/// one the last header opened.
proof fn lemma_channel_scan_section(ls: Seq<Seq<char>>)
    ensures
        channel_scan(ls).in_max == in_channel_section(ls, ls.len() as int, "Pre-set maximums:"@),
        channel_scan(ls).in_current == in_channel_section(
            ls,
            ls.len() as int,
            "Current hardware settings:"@,
        ),
    decreases ls.len(),
{
    let pre = "Pre-set maximums:"@;
    let cur = "Current hardware settings:"@;
    if ls.len() == 0 {
        reveal(in_channel_section);
    } else {
        let p = ls.drop_last();
        let n = p.len() as int;
        lemma_channel_scan_section(p);
        lemma_section_after_last(ls, pre);
        lemma_section_after_last(ls, cur);
        lemma_section_prefix(ls, n, pre);
        lemma_section_prefix(ls, n, cur);
        lemma_channel_step(channel_scan(p), ls.last());
    }
}

/// Reading lines `ls` of an `ethtool -l` report, the count kept for the section
/// that `header` opens is the largest positive count its lines give, or 0.
#[verifier::rlimit(40)]
proof fn lemma_channel_scan_maximum(ls: Seq<Seq<char>>, header: Seq<char>)
    requires
        header == "Pre-set maximums:"@ || header == "Current hardware settings:"@,
    ensures
        ({
            let kept = if header == "Pre-set maximums:"@ {
                channel_scan(ls).max_channels
            } else {
                channel_scan(ls).current_channels
            };
            &&& forall|k: int|
                0 <= k < ls.len() && in_channel_section(ls, k, header)
                    && #[trigger] channel_count(ls[k]) is Some ==> channel_count(ls[k]).unwrap()
                    <= kept
            &&& kept == 0 || exists|k: int|
                0 <= k < ls.len() && in_channel_section(ls, k, header)
                    && #[trigger] channel_count(ls[k]) == Some(kept as nat)
        }),
    decreases ls.len(),
{
    if ls.len() > 0 {
        let p = ls.drop_last();
        let n = p.len() as int;
        let l = ls.last();
        assert(l == ls[n]);
        lemma_channel_scan_maximum(p, header);
        lemma_channel_scan_section(p);
        lemma_section_prefix(ls, n, header);
        lemma_channel_step(channel_scan(p), l);
        assert forall|k: int| 0 <= k < n implies #[trigger] ls[k] == p[k] && in_channel_section(
            ls,
            k,
            header,
        ) == in_channel_section(p, k, header) by {
            lemma_section_prefix(ls, k, header);
        }
        let old_kept = if header == "Pre-set maximums:"@ {
            channel_scan(p).max_channels
        } else {
            channel_scan(p).current_channels
        };
        if old_kept != 0 {
            let k = choose|k: int|
                0 <= k < p.len() && in_channel_section(p, k, header) && #[trigger] channel_count(
                    p[k],
                ) == Some(old_kept as nat);
            assert(ls[k] == p[k]);
        }
    }
}

/// The channel counts read from an `ethtool -l` report are the largest positive
/// counts of their sections: every positive count that a `Combined:` or `RX:`
/// line of two words gives in the "Pre-set maximums:" section is at most
/// `max_channels`, which is 0 or one of them; likewise `current_channels` for
/// the "Current hardware settings:" section.
pub proof fn lemma_channels_are_section_maxima(report: Seq<char>)
    ensures
        ({
            let ls = lines(report);
            let ch = channels(Some(report));
            &&& forall|k: int|
                0 <= k < ls.len() && in_channel_section(ls, k, "Pre-set maximums:"@)
                    && #[trigger] channel_count(ls[k]) is Some ==> channel_count(ls[k]).unwrap()
                    <= ch.max_channels
            &&& ch.max_channels == 0 || exists|k: int|
                0 <= k < ls.len() && in_channel_section(ls, k, "Pre-set maximums:"@)
                    && #[trigger] channel_count(ls[k]) == Some(ch.max_channels as nat)
            &&& forall|k: int|
                0 <= k < ls.len() && in_channel_section(ls, k, "Current hardware settings:"@)
                    && #[trigger] channel_count(ls[k]) is Some ==> channel_count(ls[k]).unwrap()
                    <= ch.current_channels
            &&& ch.current_channels == 0 || exists|k: int|
                0 <= k < ls.len() && in_channel_section(ls, k, "Current hardware settings:"@)
                    && #[trigger] channel_count(ls[k]) == Some(ch.current_channels as nat)
        }),
{
    reveal_strlit("Pre-set maximums:");
    reveal_strlit("Current hardware settings:");
    assert("Pre-set maximums:"@.len() != "Current hardware settings:"@.len());
    lemma_channel_scan_maximum(lines(report), "Pre-set maximums:"@);
    lemma_channel_scan_maximum(lines(report), "Current hardware settings:"@);
}

/// The number of entries of a queue directory named `rx-…`, or 1 where there is
/// none: a NIC has at least one receive queue.
pub open spec fn count_rx_queues(names: Seq<Seq<char>>) -> nat
    decreases names.len(),
{
    if names.len() == 0 {
        0
    } else {
        count_rx_queues(names.drop_last()) + if starts_with(names.last(), "rx-"@) {
            1nat
        } else {
            0nat
        }
    }
}

pub open spec fn fallback_queues(names: Seq<Seq<char>>) -> nat {
    if count_rx_queues(names) == 0 {
        1
    } else {
        count_rx_queues(names)
    }
}

pub proof fn lemma_count_rx_queues_bound(names: Seq<Seq<char>>)
    ensures
        count_rx_queues(names) <= names.len(),
    decreases names.len(),
{
    if names.len() > 0 {
        lemma_count_rx_queues_bound(names.drop_last());
    }
}

pub fn fallback_queue_count(names: &Vec<String>) -> (res: usize)
    ensures
        res == fallback_queues(names.deep_view()),
        res >= 1,
{
    let ghost all = names.deep_view();
    let prefix = chars_of("rx-");
    let mut count: usize = 0;
    let mut i: usize = 0;
    while i < names.len()
        invariant
            i <= names.len(),
            all == names.deep_view(),
            prefix@ == "rx-"@,
            count == count_rx_queues(all.take(i as int)),
        decreases names.len() - i,
    {
        assert(all.take(i + 1).drop_last() =~= all.take(i as int));
        assert(all.take(i + 1).last() == names[i as int]@);
        proof {
            lemma_count_rx_queues_bound(all.take(i as int));
        }
        let name = chars_of(names[i].as_str());
        if starts_with_exec(&name, &prefix) {
            count = count + 1;
        }
        i = i + 1;
    }
    assert(all.take(i as int) =~= all);
    if count == 0 {
        1
    } else {
        count
    }
}

} // verus!
