//! Per-queue packet counters read from `ethtool -S` statistics.
//!
//! Each sample records the counter of every queue the statistics name and the
//! number of packets the queue handled since the previous sample. The first
//! sample of a queue is its own baseline, so it counts zero packets.
use std::collections::BTreeMap;
use vstd::prelude::*;
use crate::text::{chars_of, contains, contains_exec, parse_u64, parse_unsigned, parse_usize};

verus! {

broadcast use vstd::std_specs::btree::group_btree_axioms, vstd::laws_cmp::group_laws_cmp;

/// The text of each group of a regular expression match; `None` for a group that
/// did not take part in the match.
pub type Capture = Vec<Option<String>>;

pub open spec fn group(cap: Seq<Option<Seq<char>>>, i: int) -> Option<Seq<char>> {
    if 0 <= i < cap.len() {
        cap[i]
    } else {
        None
    }
}

/// The result of `str::to_lowercase`.
pub uninterp spec fn lowercase_of(s: Seq<char>) -> Seq<char>;

/// `str::to_lowercase`; its result is `lowercase_of` of the argument, a function
/// of the text alone (the Unicode lowercase mapping).
#[verifier::external_body]
fn to_lowercase(s: &str) -> (res: String)
    ensures
        res@ == lowercase_of(s@),
{
    s.to_lowercase()
}

/// Whether the whole match of `cap`, lowercased, contains `word`; a capture that
/// lacks its whole match counts as mentioning every word.
pub open spec fn mentions(cap: Seq<Option<Seq<char>>>, word: Seq<char>) -> bool {
    match group(cap, 0) {
        Some(t) => contains(lowercase_of(t), word),
        None => true,
    }
}

/// The queue number (group 1) and packet counter (group 2) of a capture, where
/// both read as decimal numbers of their types.
pub open spec fn queue_reading(cap: Seq<Option<Seq<char>>>) -> Option<(usize, u64)> {
    match (group(cap, 1), group(cap, 2)) {
        (Some(q), Some(p)) => match (
            parse_unsigned(q, usize::MAX as nat),
            parse_unsigned(p, u64::MAX as nat),
        ) {
            (Some(qv), Some(pv)) => Some((qv as usize, pv as u64)),
            _ => None,
        },
        _ => None,
    }
}

pub open spec fn sat_sub(a: u64, b: u64) -> u64 {
    if a >= b {
        (a - b) as u64
    } else {
        0
    }
}

/// The counter a queue is measured against: its value in the previous sample,
/// or, for a queue not seen before, its current value.
pub open spec fn baseline(last: Map<usize, u64>, q: usize, p: u64) -> u64 {
    if last.contains_key(q) {
        last[q]
    } else {
        p
    }
}

/// Whether a capture is counted as a plain queue counter: its match does not
/// mention "xdp", nor, for transmit queues, "rx".
pub open spec fn counted(cap: Seq<Option<Seq<char>>>, transmit: bool) -> bool {
    !mentions(cap, "xdp"@) && !(transmit && mentions(cap, "rx"@))
}

/// The counters and packet counts since `last` of the queues that `caps` name;
/// where a queue is named twice, the later capture counts.
pub open spec fn queue_fold(
    caps: Seq<Seq<Option<Seq<char>>>>,
    last: Map<usize, u64>,
    transmit: bool,
) -> (Map<usize, u64>, Map<usize, u64>)
    decreases caps.len(),
{
    if caps.len() == 0 {
        (Map::empty(), Map::empty())
    } else {
        let acc = queue_fold(caps.drop_last(), last, transmit);
        let cap = caps.last();
        if counted(cap, transmit) {
            match queue_reading(cap) {
                Some((q, p)) => (acc.0.insert(q, p), acc.1.insert(q, sat_sub(p, baseline(last, q, p)))),
                None => acc,
            }
        } else {
            acc
        }
    }
}

fn group_text(cap: &Capture, i: usize) -> (res: Option<Vec<char>>)
    ensures
        match res {
            Some(t) => group(cap.deep_view(), i as int) == Some(t@),
            None => group(cap.deep_view(), i as int) is None,
        },
{
    if i < cap.len() {
        match &cap[i] {
            Some(s) => Some(chars_of(s.as_str())),
            None => None,
        }
    } else {
        None
    }
}

fn mentions_exec(cap: &Capture, word: &str) -> (res: bool)
    ensures
        res == mentions(cap.deep_view(), word@),
{
    if cap.len() > 0 {
        match &cap[0] {
            Some(s) => {
                let lower = to_lowercase(s.as_str());
                contains_exec(&chars_of(lower.as_str()), &chars_of(word))
            },
            None => true,
        }
    } else {
        true
    }
}

fn queue_reading_exec(cap: &Capture) -> (res: Option<(usize, u64)>)
    ensures
        res == queue_reading(cap.deep_view()),
{
    match (group_text(cap, 1), group_text(cap, 2)) {
        (Some(q), Some(p)) => match (parse_usize(&q), parse_u64(&p)) {
            (Some(qv), Some(pv)) => Some((qv, pv)),
            _ => None,
        },
        _ => None,
    }
}

fn queue_fold_exec(caps: &Vec<Capture>, last: &BTreeMap<usize, u64>, transmit: bool) -> (res: (
    BTreeMap<usize, u64>,
    BTreeMap<usize, u64>,
))
    ensures
        (res.0@, res.1@) == queue_fold(caps.deep_view(), last@, transmit),
{
    let ghost all = caps.deep_view();
    let mut packets: BTreeMap<usize, u64> = BTreeMap::new();
    let mut delta: BTreeMap<usize, u64> = BTreeMap::new();
    let mut i: usize = 0;
    while i < caps.len()
        invariant
            i <= caps.len(),
            all == caps.deep_view(),
            (packets@, delta@) == queue_fold(all.take(i as int), last@, transmit),
        decreases caps.len() - i,
    {
        assert(all.take(i + 1).drop_last() =~= all.take(i as int));
        assert(all.take(i + 1).last() == caps[i as int].deep_view());
        let cap = &caps[i];
        let skip = mentions_exec(cap, "xdp") || (transmit && mentions_exec(cap, "rx"));
        if !skip {
            match queue_reading_exec(cap) {
                Some((q, p)) => {
                    let base = match last.get(&q) {
                        Some(v) => *v,
                        None => p,
                    };
                    let d = if p >= base {
                        p - base
                    } else {
                        0
                    };
                    packets.insert(q, p);
                    delta.insert(q, d);
                },
                None => {},
            }
        }
        i = i + 1;
    }
    assert(all.take(i as int) =~= all);
    (packets, delta)
}

/// The sum of the counters each queue is given by `caps`, over all its captures.
pub open spec fn xdp_sums(caps: Seq<Seq<Option<Seq<char>>>>) -> Map<usize, int>
    decreases caps.len(),
{
    if caps.len() == 0 {
        Map::empty()
    } else {
        let acc = xdp_sums(caps.drop_last());
        match queue_reading(caps.last()) {
            Some((q, p)) => acc.insert(
                q,
                (if acc.contains_key(q) {
                    acc[q]
                } else {
                    0
                }) + p,
            ),
            None => acc,
        }
    }
}

pub open spec fn sums_fit(m: Map<usize, int>) -> bool {
    forall|q: usize| #[trigger] m.contains_key(q) ==> 0 <= m[q] <= u64::MAX
}

pub open spec fn as_counters(m: Map<usize, int>) -> Map<usize, u64> {
    Map::new(|q: usize| m.contains_key(q), |q: usize| m[q] as u64)
}

/// Packets since `last` for each queue of `packets`.
pub open spec fn deltas(packets: Map<usize, u64>, last: Map<usize, u64>) -> Map<usize, u64> {
    Map::new(
        |q: usize| packets.contains_key(q),
        |q: usize| sat_sub(packets[q], baseline(last, q, packets[q])),
    )
}

/// The sum of the counters (group 1) that `caps` give.
pub open spec fn redirect_total(caps: Seq<Seq<Option<Seq<char>>>>) -> int
    decreases caps.len(),
{
    if caps.len() == 0 {
        0
    } else {
        redirect_total(caps.drop_last()) + match group(caps.last(), 1) {
            Some(t) => match parse_unsigned(t, u64::MAX as nat) {
                Some(v) => v as int,
                None => 0int,
            },
            None => 0int,
        }
    }
}

proof fn lemma_xdp_sums_grow(caps: Seq<Seq<Option<Seq<char>>>>, i: int)
    requires
        0 <= i <= caps.len(),
    ensures
        forall|q: usize| #[trigger] xdp_sums(caps.take(i)).contains_key(q) ==> xdp_sums(
            caps,
        ).contains_key(q) && xdp_sums(caps)[q] >= xdp_sums(caps.take(i))[q],
        forall|q: usize| #[trigger] xdp_sums(caps).contains_key(q) ==> xdp_sums(caps)[q] >= 0,
    decreases caps.len() - i,
{
    if i < caps.len() {
        lemma_xdp_sums_grow(caps, i + 1);
        let pre = caps.take(i + 1);
        assert(pre.drop_last() =~= caps.take(i));
        assert(forall|q: usize| #[trigger] xdp_sums(caps.take(i)).contains_key(q) ==> xdp_sums(
            pre,
        ).contains_key(q) && xdp_sums(pre)[q] >= xdp_sums(caps.take(i))[q]);
    } else {
        assert(caps.take(i) =~= caps);
        lemma_xdp_sums_nonneg(caps);
    }
}

proof fn lemma_xdp_sums_nonneg(caps: Seq<Seq<Option<Seq<char>>>>)
    ensures
        forall|q: usize| #[trigger] xdp_sums(caps).contains_key(q) ==> xdp_sums(caps)[q] >= 0,
    decreases caps.len(),
{
    if caps.len() > 0 {
        lemma_xdp_sums_nonneg(caps.drop_last());
        let acc = xdp_sums(caps.drop_last());
        match queue_reading(caps.last()) {
            Some((q, p)) => {
                assert(p as int >= 0);
                assert forall|k: usize| #[trigger] xdp_sums(caps).contains_key(k) implies xdp_sums(
                    caps,
                )[k] >= 0 by {
                    if k != q {
                        assert(acc.contains_key(k));
                    }
                }
            },
            None => {},
        }
    }
}

proof fn lemma_redirect_total_grow(caps: Seq<Seq<Option<Seq<char>>>>, i: int)
    requires
        0 <= i <= caps.len(),
    ensures
        redirect_total(caps.take(i)) <= redirect_total(caps),
        0 <= redirect_total(caps.take(i)),
    decreases caps.len() - i,
{
    if i < caps.len() {
        lemma_redirect_total_grow(caps, i + 1);
        lemma_redirect_total_nonneg(caps.take(i));
        assert(caps.take(i + 1).drop_last() =~= caps.take(i));
    } else {
        assert(caps.take(i) =~= caps);
        lemma_redirect_total_nonneg(caps);
    }
}

proof fn lemma_redirect_total_nonneg(caps: Seq<Seq<Option<Seq<char>>>>)
    ensures
        0 <= redirect_total(caps),
    decreases caps.len(),
{
    if caps.len() > 0 {
        lemma_redirect_total_nonneg(caps.drop_last());
    }
}

/// The per-queue sums of `caps`, with the list of queues they name; `None` where
/// a sum exceeds `u64::MAX`.
fn xdp_sums_exec(caps: &Vec<Capture>) -> (res: Option<(BTreeMap<usize, u64>, Vec<usize>)>)
    ensures
        match res {
            Some((m, keys)) => {
                &&& sums_fit(xdp_sums(caps.deep_view()))
                &&& m@ == as_counters(xdp_sums(caps.deep_view()))
                &&& forall|q: usize| #[trigger] keys@.contains(q) <==> m@.contains_key(q)
            },
            None => !sums_fit(xdp_sums(caps.deep_view())),
        },
{
    let ghost all = caps.deep_view();
    let mut m: BTreeMap<usize, u64> = BTreeMap::new();
    let mut keys: Vec<usize> = Vec::new();
    let mut i: usize = 0;
    while i < caps.len()
        invariant
            i <= caps.len(),
            all == caps.deep_view(),
            sums_fit(xdp_sums(all.take(i as int))),
            m@ == as_counters(xdp_sums(all.take(i as int))),
            forall|q: usize| #[trigger] keys@.contains(q) <==> m@.contains_key(q),
        decreases caps.len() - i,
    {
        let ghost pre = all.take(i as int);
        assert(all.take(i + 1).drop_last() =~= pre);
        assert(all.take(i + 1).last() == caps[i as int].deep_view());
        match queue_reading_exec(&caps[i]) {
            Some((q, p)) => {
                let cur: u64 = match m.get(&q) {
                    Some(v) => *v,
                    None => 0,
                };
                match cur.checked_add(p) {
                    Some(total) => {
                        let ghost old_keys = keys@;
                        if m.get(&q).is_none() {
                            keys.push(q);
                            assert(keys@[keys@.len() - 1] == q);
                        }
                        assert(keys@.contains(q));
                        assert forall|k: usize| #[trigger] old_keys.contains(k) implies keys@.contains(
                            k,
                        ) by {
                            let j = choose|j: int| 0 <= j < old_keys.len() && old_keys[j] == k;
                            assert(keys@[j] == k);
                        }
                        assert forall|k: usize| #[trigger] keys@.contains(k) && k != q implies old_keys.contains(
                            k,
                        ) by {
                            let j = choose|j: int| 0 <= j < keys@.len() && keys@[j] == k;
                            assert(old_keys[j] == k);
                        }
                        let ghost old_m = m@;
                        m.insert(q, total);
                        assert forall|k: usize| #[trigger] keys@.contains(k) <==> m@.contains_key(k) by {
                            if k != q {
                                assert(keys@.contains(k) <==> old_keys.contains(k));
                                assert(m@.contains_key(k) <==> old_m.contains_key(k));
                            }
                        }
                        assert(m@ =~= as_counters(xdp_sums(all.take(i + 1))));
                    },
                    None => {
                        proof {
                            lemma_xdp_sums_grow(all, i + 1);
                        }
                        assert(xdp_sums(all.take(i + 1)).contains_key(q));
                        return None;
                    },
                }
            },
            None => {},
        }
        i = i + 1;
    }
    assert(all.take(i as int) =~= all);
    Some((m, keys))
}

/// Packets since `last` for each of the queues `keys` lists in `packets`.
fn deltas_exec(packets: &BTreeMap<usize, u64>, keys: &Vec<usize>, last: &BTreeMap<usize, u64>) -> (res:
    BTreeMap<usize, u64>)
    requires
        forall|q: usize| #[trigger] keys@.contains(q) <==> packets@.contains_key(q),
    ensures
        res@ == deltas(packets@, last@),
{
    let mut res: BTreeMap<usize, u64> = BTreeMap::new();
    let mut i: usize = 0;
    while i < keys.len()
        invariant
            i <= keys.len(),
            forall|q: usize| #[trigger] keys@.contains(q) <==> packets@.contains_key(q),
            res@ == Map::new(
                |q: usize| keys@.take(i as int).contains(q),
                |q: usize| sat_sub(packets@[q], baseline(last@, q, packets@[q])),
            ),
        decreases keys.len() - i,
    {
        let q = keys[i];
        assert(keys@.contains(q));
        let p: u64 = match packets.get(&q) {
            Some(v) => *v,
            None => 0,
        };
        let base = match last.get(&q) {
            Some(v) => *v,
            None => p,
        };
        let d = if p >= base {
            p - base
        } else {
            0
        };
        res.insert(q, d);
        assert forall|k: usize| keys@.take(i + 1).contains(k) <==> (keys@.take(i as int).contains(k)
            || k == q) by {
            if keys@.take(i + 1).contains(k) {
                let j = choose|j: int| 0 <= j < i + 1 && #[trigger] keys@.take(i + 1)[j] == k;
                if j < i {
                    assert(keys@.take(i as int)[j] == k);
                }
            }
            if keys@.take(i as int).contains(k) {
                let j = choose|j: int| 0 <= j < i && #[trigger] keys@.take(i as int)[j] == k;
                assert(keys@.take(i + 1)[j] == k);
            }
            if k == q {
                assert(keys@.take(i + 1)[i as int] == k);
            }
        }
        assert(res@ =~= Map::new(
            |k: usize| keys@.take(i + 1).contains(k),
            |k: usize| sat_sub(packets@[k], baseline(last@, k, packets@[k])),
        ));
        i = i + 1;
    }
    assert(keys@.take(i as int) =~= keys@);
    assert(res@ =~= deltas(packets@, last@));
    res
}

/// The sum of the counters of `caps`; `None` where it exceeds `u64::MAX`.
fn redirect_total_exec(caps: &Vec<Capture>) -> (res: Option<u64>)
    ensures
        match res {
            Some(t) => redirect_total(caps.deep_view()) == t as int,
            None => redirect_total(caps.deep_view()) > u64::MAX,
        },
{
    let ghost all = caps.deep_view();
    let mut total: u64 = 0;
    let mut i: usize = 0;
    while i < caps.len()
        invariant
            i <= caps.len(),
            all == caps.deep_view(),
            total as int == redirect_total(all.take(i as int)),
        decreases caps.len() - i,
    {
        assert(all.take(i + 1).drop_last() =~= all.take(i as int));
        assert(all.take(i + 1).last() == caps[i as int].deep_view());
        let v: u64 = match group_text(&caps[i], 1) {
            Some(t) => match parse_u64(&t) {
                Some(v) => v,
                None => 0,
            },
            None => 0,
        };
        match total.checked_add(v) {
            Some(t) => {
                total = t;
            },
            None => {
                proof {
                    lemma_redirect_total_grow(all, i + 1);
                }
                return None;
            },
        }
        i = i + 1;
    }
    assert(all.take(i as int) =~= all);
    Some(total)
}

/// Receive queue counters, such as `rx_queue_3_packets: 42` (group 1 is the
/// queue, group 2 the counter).
pub const RX_QUEUE_PATTERN: &'static str =
    r"(?i)(?:^|\s)(?:port\.|vport_|rx_)?(?:rx|q|queue)[^\d]*(\d+)[^\s]*?(?:packets|pkts|cnt):\s+(\d+)";

/// Transmit queue counters (group 1 is the queue, group 2 the counter).
pub const TX_QUEUE_PATTERN: &'static str =
    r"(?i)(?:^|\s)(?:port\.|vport_|tx_)?(?:tx|q|queue)[^\d]*(\d+)[^\s]*?(?:packets|pkts|cnt):\s+(\d+)";

/// Counters of packets that XDP programs redirected, transmitted or dropped
/// (group 1 is the counter).
pub const XDP_REDIRECT_PATTERN: &'static str =
    r"(?i)(?:^|\s).*xdp(?:_redirect|_tx|_drop|_packets|_pkts)?.*:\s+(\d+)";

/// Per receive queue XDP counters (group 1 is the queue, group 2 the counter).
pub const RX_XDP_PATTERN: &'static str =
    r"(?i)(?:^|\s)(?:port\.|vport_|rx_)?(?:rx|q|queue)[^\d]*(\d+)[^\s]*xdp[^\s]*:\s+(\d+)";

#[verifier::external_type_specification]
#[verifier::external_body]
pub struct ExRegex(regex::Regex);

/// A compiled regular expression, viewed as the pattern it was compiled from.
pub struct Pattern {
    source: String,
    re: regex::Regex,
}

impl View for Pattern {
    type V = Seq<char>;

    closed spec fn view(&self) -> Seq<char> {
        self.source@
    }
}

/// Whether `regex::Regex::new` accepts a pattern.
pub uninterp spec fn regex_compiles(pattern: Seq<char>) -> bool;

/// What `regex::Regex::captures_iter` yields for the regular expression compiled
/// from `pattern` on `text`: for each successive non-overlapping match, the text
/// of each group (`None` for a group that took no part). The regex crate defines
/// it from the pattern and the text alone.
pub uninterp spec fn regex_captures_of(pattern: Seq<char>, text: Seq<char>) -> Seq<Seq<Option<Seq<char>>>>;

/// `regex::Regex::new`: the compiled pattern, or `None` where the crate refuses it.
#[verifier::external_body]
fn compile(pattern: &str) -> (res: Option<Pattern>)
    ensures
        res is Some == regex_compiles(pattern@),
        res matches Some(p) ==> p@ == pattern@,
{
    regex::Regex::new(pattern).ok().map(|re| Pattern { source: pattern.to_owned(), re })
}

/// `regex::Regex::captures_iter`, with the groups of every match collected.
#[verifier::external_body]
fn captures(p: &Pattern, text: &str) -> (res: Vec<Capture>)
    ensures
        res.deep_view() == regex_captures_of(p@, text@),
{
    let mut all: Vec<Capture> = Vec::new();
    for caps in p.re.captures_iter(text) {
        let mut groups: Capture = Vec::new();
        for m in caps.iter() {
            groups.push(m.map(|m| m.as_str().to_owned()));
        }
        all.push(groups);
    }
    all
}

/// The packet counters of the NIC queues, as the latest `ethtool -S` sample gave
/// them, with the packets each queue handled since the sample before.
pub struct QueueStats {
    pub rx_queue_packets: BTreeMap<usize, u64>,
    pub last_rx_queue_packets: BTreeMap<usize, u64>,
    pub rx_queue_delta: BTreeMap<usize, u64>,
    pub rx_queue_xdp_packets: BTreeMap<usize, u64>,
    pub last_rx_queue_xdp_packets: BTreeMap<usize, u64>,
    pub rx_queue_xdp_delta: BTreeMap<usize, u64>,
    pub tx_queue_packets: BTreeMap<usize, u64>,
    pub last_tx_queue_packets: BTreeMap<usize, u64>,
    pub tx_queue_delta: BTreeMap<usize, u64>,
    pub last_xdp_redirect_packets: u64,
    /// Packets redirected by XDP since the previous sample; `None` where the
    /// latest sample had no earlier positive total to measure against.
    pub xdp_redirect_delta: Option<u64>,
}

pub ghost struct QueueStatsView {
    pub rx_queue_packets: Map<usize, u64>,
    pub last_rx_queue_packets: Map<usize, u64>,
    pub rx_queue_delta: Map<usize, u64>,
    pub rx_queue_xdp_packets: Map<usize, u64>,
    pub last_rx_queue_xdp_packets: Map<usize, u64>,
    pub rx_queue_xdp_delta: Map<usize, u64>,
    pub tx_queue_packets: Map<usize, u64>,
    pub last_tx_queue_packets: Map<usize, u64>,
    pub tx_queue_delta: Map<usize, u64>,
    pub last_xdp_redirect_packets: u64,
    pub xdp_redirect_delta: Option<u64>,
}

impl View for QueueStats {
    type V = QueueStatsView;

    open spec fn view(&self) -> QueueStatsView {
        QueueStatsView {
            rx_queue_packets: self.rx_queue_packets@,
            last_rx_queue_packets: self.last_rx_queue_packets@,
            rx_queue_delta: self.rx_queue_delta@,
            rx_queue_xdp_packets: self.rx_queue_xdp_packets@,
            last_rx_queue_xdp_packets: self.last_rx_queue_xdp_packets@,
            rx_queue_xdp_delta: self.rx_queue_xdp_delta@,
            tx_queue_packets: self.tx_queue_packets@,
            last_tx_queue_packets: self.last_tx_queue_packets@,
            tx_queue_delta: self.tx_queue_delta@,
            last_xdp_redirect_packets: self.last_xdp_redirect_packets,
            xdp_redirect_delta: self.xdp_redirect_delta,
        }
    }
}

/// No counters: the state before the first sample.
pub open spec fn empty_stats() -> QueueStatsView {
    QueueStatsView {
        rx_queue_packets: Map::empty(),
        last_rx_queue_packets: Map::empty(),
        rx_queue_delta: Map::empty(),
        rx_queue_xdp_packets: Map::empty(),
        last_rx_queue_xdp_packets: Map::empty(),
        rx_queue_xdp_delta: Map::empty(),
        tx_queue_packets: Map::empty(),
        last_tx_queue_packets: Map::empty(),
        tx_queue_delta: Map::empty(),
        last_xdp_redirect_packets: 0,
        xdp_redirect_delta: None,
    }
}

/// Whether a sample's sums fit in `u64`: the XDP counters of each receive queue,
/// and all XDP redirect counters.
pub open spec fn sample_fits(
    rx_xdp: Seq<Seq<Option<Seq<char>>>>,
    xdp: Seq<Seq<Option<Seq<char>>>>,
) -> bool {
    sums_fit(xdp_sums(rx_xdp)) && redirect_total(xdp) <= u64::MAX
}

/// The counters after a sample whose matches of the four patterns are `rx`,
/// `rx_xdp`, `tx` and `xdp`. Plain receive counters skip matches that mention
/// "xdp"; transmit counters skip those that mention "xdp" or "rx"; each queue's
/// XDP counters are summed. Every new counter becomes the baseline of the next
/// sample.
pub open spec fn next_stats(
    old: QueueStatsView,
    rx: Seq<Seq<Option<Seq<char>>>>,
    rx_xdp: Seq<Seq<Option<Seq<char>>>>,
    tx: Seq<Seq<Option<Seq<char>>>>,
    xdp: Seq<Seq<Option<Seq<char>>>>,
) -> QueueStatsView {
    let rxs = queue_fold(rx, old.last_rx_queue_packets, false);
    let xs = as_counters(xdp_sums(rx_xdp));
    let txs = queue_fold(tx, old.last_tx_queue_packets, true);
    let total = redirect_total(xdp) as u64;
    QueueStatsView {
        rx_queue_packets: rxs.0,
        last_rx_queue_packets: rxs.0,
        rx_queue_delta: rxs.1,
        rx_queue_xdp_packets: xs,
        last_rx_queue_xdp_packets: xs,
        rx_queue_xdp_delta: deltas(xs, old.last_rx_queue_xdp_packets),
        tx_queue_packets: txs.0,
        last_tx_queue_packets: txs.0,
        tx_queue_delta: txs.1,
        last_xdp_redirect_packets: total,
        xdp_redirect_delta: if old.last_xdp_redirect_packets > 0 {
            Some(sat_sub(total, old.last_xdp_redirect_packets))
        } else {
            None
        },
    }
}

/// The matches of the four patterns in a statistics text, where all compile.
pub open spec fn sample_captures(text: Seq<char>) -> Option<
    (
        Seq<Seq<Option<Seq<char>>>>,
        Seq<Seq<Option<Seq<char>>>>,
        Seq<Seq<Option<Seq<char>>>>,
        Seq<Seq<Option<Seq<char>>>>,
    ),
> {
    if regex_compiles(RX_QUEUE_PATTERN@) && regex_compiles(RX_XDP_PATTERN@) && regex_compiles(
        TX_QUEUE_PATTERN@,
    ) && regex_compiles(XDP_REDIRECT_PATTERN@) {
        Some(
            (
                regex_captures_of(RX_QUEUE_PATTERN@, text),
                regex_captures_of(RX_XDP_PATTERN@, text),
                regex_captures_of(TX_QUEUE_PATTERN@, text),
                regex_captures_of(XDP_REDIRECT_PATTERN@, text),
            ),
        )
    } else {
        None
    }
}

/// Whether sampling statistics `text` takes effect: the patterns compile and
/// the sums fit in `u64`.
pub open spec fn sample_taken(text: Seq<char>) -> bool {
    sample_captures(text) matches Some((rx, rx_xdp, tx, xdp)) && sample_fits(rx_xdp, xdp)
}

/// The counters after sampling statistics `text` on counters `old`: the next
/// counters where the sample takes effect, else `old` unchanged.
pub open spec fn sampled(old: QueueStatsView, text: Seq<char>) -> QueueStatsView {
    match sample_captures(text) {
        Some((rx, rx_xdp, tx, xdp)) => if sample_fits(rx_xdp, xdp) {
            next_stats(old, rx, rx_xdp, tx, xdp)
        } else {
            old
        },
        None => old,
    }
}

impl QueueStats {
    pub fn new() -> (res: QueueStats)
        ensures
            res@ == empty_stats(),
    {
        QueueStats {
            rx_queue_packets: BTreeMap::new(),
            last_rx_queue_packets: BTreeMap::new(),
            rx_queue_delta: BTreeMap::new(),
            rx_queue_xdp_packets: BTreeMap::new(),
            last_rx_queue_xdp_packets: BTreeMap::new(),
            rx_queue_xdp_delta: BTreeMap::new(),
            tx_queue_packets: BTreeMap::new(),
            last_tx_queue_packets: BTreeMap::new(),
            tx_queue_delta: BTreeMap::new(),
            last_xdp_redirect_packets: 0,
            xdp_redirect_delta: None,
        }
    }

    /// Records a sample given by the matches of the four patterns.
    pub fn apply_sample(
        &mut self,
        rx: &Vec<Capture>,
        rx_xdp: &Vec<Capture>,
        tx: &Vec<Capture>,
        xdp: &Vec<Capture>,
    )
        requires
            sample_fits(rx_xdp.deep_view(), xdp.deep_view()),
        ensures
            final(self)@ == next_stats(
                old(self)@,
                rx.deep_view(),
                rx_xdp.deep_view(),
                tx.deep_view(),
                xdp.deep_view(),
            ),
    {
        let (rx_packets, rx_delta) = queue_fold_exec(rx, &self.last_rx_queue_packets, false);
        let (xdp_packets, keys) = xdp_sums_exec(rx_xdp).unwrap();
        let xdp_delta = deltas_exec(&xdp_packets, &keys, &self.last_rx_queue_xdp_packets);
        let (tx_packets, tx_delta) = queue_fold_exec(tx, &self.last_tx_queue_packets, true);
        let total = redirect_total_exec(xdp).unwrap();
        let redirect = if self.last_xdp_redirect_packets > 0 {
            Some(
                if total >= self.last_xdp_redirect_packets {
                    total - self.last_xdp_redirect_packets
                } else {
                    0
                },
            )
        } else {
            None
        };
        self.last_rx_queue_packets = rx_packets.clone();
        self.rx_queue_packets = rx_packets;
        self.rx_queue_delta = rx_delta;
        self.last_rx_queue_xdp_packets = xdp_packets.clone();
        self.rx_queue_xdp_packets = xdp_packets;
        self.rx_queue_xdp_delta = xdp_delta;
        self.last_tx_queue_packets = tx_packets.clone();
        self.tx_queue_packets = tx_packets;
        self.tx_queue_delta = tx_delta;
        self.last_xdp_redirect_packets = total;
        self.xdp_redirect_delta = redirect;
    }

    /// Samples an `ethtool -S` statistics text. Returns `false`, leaving the
    /// counters unchanged, where a pattern does not compile or a sum does not fit
    /// in `u64`.
    pub fn parse_ethtool_output(&mut self, stdout: &str) -> (res: bool)
        ensures
            res == (sample_captures(stdout@) matches Some((rx, rx_xdp, tx, xdp)) && sample_fits(
                rx_xdp,
                xdp,
            )),
            res ==> (sample_captures(stdout@) matches Some((rx, rx_xdp, tx, xdp)) && final(self)@
                == next_stats(old(self)@, rx, rx_xdp, tx, xdp)),
            !res ==> final(self)@ == old(self)@,
            res == sample_taken(stdout@),
            final(self)@ == sampled(old(self)@, stdout@),
    {
        let (rx_re, rx_xdp_re, tx_re, xdp_re) = match (
            compile(RX_QUEUE_PATTERN),
            compile(RX_XDP_PATTERN),
            compile(TX_QUEUE_PATTERN),
            compile(XDP_REDIRECT_PATTERN),
        ) {
            (Some(a), Some(b), Some(c), Some(d)) => (a, b, c, d),
            _ => {
                return false;
            },
        };
        let rx = captures(&rx_re, stdout);
        let rx_xdp = captures(&rx_xdp_re, stdout);
        let tx = captures(&tx_re, stdout);
        let xdp = captures(&xdp_re, stdout);
        if xdp_sums_exec(&rx_xdp).is_none() || redirect_total_exec(&xdp).is_none() {
            return false;
        }
        self.apply_sample(&rx, &rx_xdp, &tx, &xdp);
        true
    }
}

proof fn lemma_queue_fold_deltas(caps: Seq<Seq<Option<Seq<char>>>>, last: Map<usize, u64>, transmit: bool)
    ensures
        queue_fold(caps, last, transmit).1 == deltas(queue_fold(caps, last, transmit).0, last),
    decreases caps.len(),
{
    if caps.len() > 0 {
        lemma_queue_fold_deltas(caps.drop_last(), last, transmit);
        let acc = queue_fold(caps.drop_last(), last, transmit);
        let r = queue_fold(caps, last, transmit);
        assert(r.1 =~= deltas(r.0, last));
    } else {
        assert(deltas(Map::<usize, u64>::empty(), last) =~= Map::<usize, u64>::empty());
    }
}

proof fn lemma_queue_fold_counters(
    caps: Seq<Seq<Option<Seq<char>>>>,
    last1: Map<usize, u64>,
    last2: Map<usize, u64>,
    transmit: bool,
)
    ensures
        queue_fold(caps, last1, transmit).0 == queue_fold(caps, last2, transmit).0,
    decreases caps.len(),
{
    if caps.len() > 0 {
        lemma_queue_fold_counters(caps.drop_last(), last1, last2, transmit);
    }
}

/// Each sample becomes the baseline of the next, and what a queue handled since
/// the previous sample is its counter minus its baseline (zero where the counter
/// went back): the baseline is the counter of the previous sample, or the counter
/// itself for a queue not seen before.
pub proof fn lemma_sample_counts_since_baseline(
    old: QueueStatsView,
    rx: Seq<Seq<Option<Seq<char>>>>,
    rx_xdp: Seq<Seq<Option<Seq<char>>>>,
    tx: Seq<Seq<Option<Seq<char>>>>,
    xdp: Seq<Seq<Option<Seq<char>>>>,
)
    ensures
        ({
            let new = next_stats(old, rx, rx_xdp, tx, xdp);
            &&& new.last_rx_queue_packets == new.rx_queue_packets
            &&& new.last_rx_queue_xdp_packets == new.rx_queue_xdp_packets
            &&& new.last_tx_queue_packets == new.tx_queue_packets
            &&& new.rx_queue_delta == deltas(new.rx_queue_packets, old.last_rx_queue_packets)
            &&& new.rx_queue_xdp_delta == deltas(new.rx_queue_xdp_packets, old.last_rx_queue_xdp_packets)
            &&& new.tx_queue_delta == deltas(new.tx_queue_packets, old.last_tx_queue_packets)
            &&& new.rx_queue_delta.dom() == new.rx_queue_packets.dom()
            &&& new.rx_queue_xdp_delta.dom() == new.rx_queue_xdp_packets.dom()
            &&& new.tx_queue_delta.dom() == new.tx_queue_packets.dom()
        }),
{
    lemma_queue_fold_deltas(rx, old.last_rx_queue_packets, false);
    lemma_queue_fold_deltas(tx, old.last_tx_queue_packets, true);
    let new = next_stats(old, rx, rx_xdp, tx, xdp);
    assert(new.rx_queue_delta.dom() =~= new.rx_queue_packets.dom());
    assert(new.rx_queue_xdp_delta.dom() =~= new.rx_queue_xdp_packets.dom());
    assert(new.tx_queue_delta.dom() =~= new.tx_queue_packets.dom());
}

/// Whether one of the captures `caps` reads as a counter of queue `q`.
pub open spec fn names_queue(caps: Seq<Seq<Option<Seq<char>>>>, q: usize) -> bool {
    exists|i: int| 0 <= i < caps.len() && #[trigger] queue_reading(caps[i]) is Some && queue_reading(caps[i]).unwrap().0 == q
}

proof fn lemma_queue_fold_names(caps: Seq<Seq<Option<Seq<char>>>>, last: Map<usize, u64>, transmit: bool, q: usize)
    ensures
        queue_fold(caps, last, transmit).0.contains_key(q) ==> names_queue(caps, q),
    decreases caps.len(),
{
    if caps.len() > 0 {
        let init = caps.drop_last();
        lemma_queue_fold_names(init, last, transmit, q);
        if queue_fold(init, last, transmit).0.contains_key(q) {
            let i = choose|i: int| 0 <= i < init.len() && #[trigger] queue_reading(init[i]) is Some && queue_reading(init[i]).unwrap().0 == q;
            assert(caps[i] == init[i]);
        }
        assert(queue_reading(caps[caps.len() - 1]) == queue_reading(caps.last()));
    }
}

proof fn lemma_xdp_sums_names(caps: Seq<Seq<Option<Seq<char>>>>, q: usize)
    ensures
        xdp_sums(caps).contains_key(q) ==> names_queue(caps, q),
    decreases caps.len(),
{
    if caps.len() > 0 {
        let init = caps.drop_last();
        lemma_xdp_sums_names(init, q);
        if xdp_sums(init).contains_key(q) {
            let i = choose|i: int| 0 <= i < init.len() && #[trigger] queue_reading(init[i]) is Some && queue_reading(init[i]).unwrap().0 == q;
            assert(caps[i] == init[i]);
        }
        assert(queue_reading(caps[caps.len() - 1]) == queue_reading(caps.last()));
    }
}

/// A sample keeps counters only of the queues its statistics name: a queue
/// that no match of a pattern reads as a counter has no entry among the
/// counters, nor among the packet counts, of that pattern.
pub proof fn lemma_sample_names_only_its_queues(
    old: QueueStatsView,
    rx: Seq<Seq<Option<Seq<char>>>>,
    rx_xdp: Seq<Seq<Option<Seq<char>>>>,
    tx: Seq<Seq<Option<Seq<char>>>>,
    xdp: Seq<Seq<Option<Seq<char>>>>,
    q: usize,
)
    ensures
        ({
            let new = next_stats(old, rx, rx_xdp, tx, xdp);
            &&& !names_queue(rx, q) ==> !new.rx_queue_packets.contains_key(q) && !new.rx_queue_delta.contains_key(q)
            &&& !names_queue(rx_xdp, q) ==> !new.rx_queue_xdp_packets.contains_key(q) && !new.rx_queue_xdp_delta.contains_key(q)
            &&& !names_queue(tx, q) ==> !new.tx_queue_packets.contains_key(q) && !new.tx_queue_delta.contains_key(q)
        }),
{
    lemma_sample_counts_since_baseline(old, rx, rx_xdp, tx, xdp);
    lemma_queue_fold_names(rx, old.last_rx_queue_packets, false, q);
    lemma_queue_fold_names(tx, old.last_tx_queue_packets, true, q);
    lemma_xdp_sums_names(rx_xdp, q);
}

/// Taking the same statistics twice leaves every counter as the first time
/// set it, and counts no packets on any queue, nor any redirected packet, the
/// second time.
pub proof fn lemma_repeated_sample_counts_nothing(
    old: QueueStatsView,
    rx: Seq<Seq<Option<Seq<char>>>>,
    rx_xdp: Seq<Seq<Option<Seq<char>>>>,
    tx: Seq<Seq<Option<Seq<char>>>>,
    xdp: Seq<Seq<Option<Seq<char>>>>,
)
    ensures
        ({
            let once = next_stats(old, rx, rx_xdp, tx, xdp);
            let twice = next_stats(once, rx, rx_xdp, tx, xdp);
            &&& twice.rx_queue_packets == once.rx_queue_packets
            &&& twice.rx_queue_xdp_packets == once.rx_queue_xdp_packets
            &&& twice.tx_queue_packets == once.tx_queue_packets
            &&& twice.last_xdp_redirect_packets == once.last_xdp_redirect_packets
            &&& forall|q: usize| #[trigger] twice.rx_queue_delta.contains_key(q) ==> twice.rx_queue_delta[q] == 0
            &&& forall|q: usize| #[trigger] twice.rx_queue_xdp_delta.contains_key(q) ==> twice.rx_queue_xdp_delta[q] == 0
            &&& forall|q: usize| #[trigger] twice.tx_queue_delta.contains_key(q) ==> twice.tx_queue_delta[q] == 0
            &&& (twice.xdp_redirect_delta matches Some(d) ==> d == 0)
        }),
{
    let once = next_stats(old, rx, rx_xdp, tx, xdp);
    lemma_sample_counts_since_baseline(once, rx, rx_xdp, tx, xdp);
    lemma_queue_fold_counters(rx, old.last_rx_queue_packets, once.last_rx_queue_packets, false);
    lemma_queue_fold_counters(tx, old.last_tx_queue_packets, once.last_tx_queue_packets, true);
}

/// The first sample, taken on fresh counters, counts no packets on any queue and
/// measures no redirected packets: every counter is its own baseline.
pub proof fn lemma_first_sample_counts_nothing(
    rx: Seq<Seq<Option<Seq<char>>>>,
    rx_xdp: Seq<Seq<Option<Seq<char>>>>,
    tx: Seq<Seq<Option<Seq<char>>>>,
    xdp: Seq<Seq<Option<Seq<char>>>>,
)
    ensures
        ({
            let first = next_stats(empty_stats(), rx, rx_xdp, tx, xdp);
            &&& forall|q: usize| #[trigger] first.rx_queue_delta.contains_key(q) ==> first.rx_queue_delta[q] == 0
            &&& forall|q: usize| #[trigger] first.rx_queue_xdp_delta.contains_key(q) ==> first.rx_queue_xdp_delta[q] == 0
            &&& forall|q: usize| #[trigger] first.tx_queue_delta.contains_key(q) ==> first.tx_queue_delta[q] == 0
            &&& first.xdp_redirect_delta is None
        }),
{
    lemma_sample_counts_since_baseline(empty_stats(), rx, rx_xdp, tx, xdp);
}

/// Sampling statistics that take effect leaves each counter map as the
/// baseline of the next sample, counts packets for exactly the queues it keeps
/// counters of, and keeps counters only of the queues the statistics name.
pub proof fn lemma_statistics_sample(old: QueueStatsView, text: Seq<char>, q: usize)
    requires
        sample_taken(text),
    ensures
        ({
            let new = sampled(old, text);
            &&& new.last_rx_queue_packets == new.rx_queue_packets
            &&& new.last_rx_queue_xdp_packets == new.rx_queue_xdp_packets
            &&& new.last_tx_queue_packets == new.tx_queue_packets
            &&& new.rx_queue_delta.dom() == new.rx_queue_packets.dom()
            &&& new.rx_queue_xdp_delta.dom() == new.rx_queue_xdp_packets.dom()
            &&& new.tx_queue_delta.dom() == new.tx_queue_packets.dom()
            &&& sample_captures(text) matches Some((rx, rx_xdp, tx, xdp)) && {
                &&& !names_queue(rx, q) ==> !new.rx_queue_packets.contains_key(q)
                &&& !names_queue(rx_xdp, q) ==> !new.rx_queue_xdp_packets.contains_key(q)
                &&& !names_queue(tx, q) ==> !new.tx_queue_packets.contains_key(q)
            }
        }),
{
    let (rx, rx_xdp, tx, xdp) = sample_captures(text).unwrap();
    lemma_sample_counts_since_baseline(old, rx, rx_xdp, tx, xdp);
    lemma_sample_names_only_its_queues(old, rx, rx_xdp, tx, xdp, q);
}

/// Sampling the same statistics twice in a row leaves every counter as the
/// first sample set it; where the sample takes effect, the second one counts no
/// packets on any queue and no redirected packet.
pub proof fn lemma_statistics_read_twice(old: QueueStatsView, text: Seq<char>)
    ensures
        ({
            let once = sampled(old, text);
            let twice = sampled(once, text);
            &&& twice.rx_queue_packets == once.rx_queue_packets
            &&& twice.rx_queue_xdp_packets == once.rx_queue_xdp_packets
            &&& twice.tx_queue_packets == once.tx_queue_packets
            &&& twice.last_xdp_redirect_packets == once.last_xdp_redirect_packets
            &&& sample_taken(text) ==> {
                &&& forall|q: usize| #[trigger] twice.rx_queue_delta.contains_key(q) ==> twice.rx_queue_delta[q] == 0
                &&& forall|q: usize| #[trigger] twice.rx_queue_xdp_delta.contains_key(q) ==> twice.rx_queue_xdp_delta[q] == 0
                &&& forall|q: usize| #[trigger] twice.tx_queue_delta.contains_key(q) ==> twice.tx_queue_delta[q] == 0
                &&& (twice.xdp_redirect_delta matches Some(d) ==> d == 0)
            }
        }),
{
    if sample_taken(text) {
        let (rx, rx_xdp, tx, xdp) = sample_captures(text).unwrap();
        lemma_repeated_sample_counts_nothing(old, rx, rx_xdp, tx, xdp);
    }
}

} // verus!
