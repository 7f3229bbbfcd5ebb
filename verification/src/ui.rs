//! Screen geometry and the texts and highlights that the terminal interface shows.
use vstd::prelude::*;
use crate::app::{App, Focus, NicInfo};
use crate::text::{
    chars_of, contains, contains_exec, decimal, lemma_decimal_reads_back, parse_unsigned, push_decimal,
    push_str, string_from_chars,
};

verus! {

/// A rectangle of terminal cells: its top left corner and its size.
#[derive(Clone, Copy, PartialEq, Eq, Structural, Debug)]
pub struct Rect {
    pub x: u16,
    pub y: u16,
    pub width: u16,
    pub height: u16,
}

impl Default for Rect {
    fn default() -> (res: Rect)
        ensures
            res == (Rect { x: 0, y: 0, width: 0, height: 0 }),
    {
        Rect { x: 0, y: 0, width: 0, height: 0 }
    }
}

impl Rect {
    /// Whether the right and bottom edges of the rectangle are representable.
    pub open spec fn fits(self) -> bool {
        self.x + self.width <= u16::MAX && self.y + self.height <= u16::MAX
    }
}

/// Whether the cell `pos` (column, row) lies in `rect`.
pub open spec fn inside(pos: (u16, u16), rect: Rect) -> bool {
    &&& rect.x <= pos.0 < rect.x + rect.width
    &&& rect.y <= pos.1 < rect.y + rect.height
}

pub fn is_inside(pos: (u16, u16), rect: Rect) -> (res: bool)
    requires
        rect.fits(),
    ensures
        res == inside(pos, rect),
{
    pos.0 >= rect.x && pos.0 < rect.x + rect.width && pos.1 >= rect.y && pos.1 < rect.y
        + rect.height
}

/// The direction along which an area is split.
pub enum Axis {
    Horizontal,
    Vertical,
}

/// The column just past the right edge of `r` (`Rect::right`, saturating).
pub open spec fn right_edge(r: Rect) -> int {
    if r.x + r.width <= u16::MAX {
        r.x + r.width
    } else {
        u16::MAX as int
    }
}

/// The row just past the bottom edge of `r` (`Rect::bottom`, saturating).
pub open spec fn bottom_edge(r: Rect) -> int {
    if r.y + r.height <= u16::MAX {
        r.y + r.height
    } else {
        u16::MAX as int
    }
}

/// Whether `part` is a part of a split of `area` along `axis`: along the other
/// axis it keeps the position and size of `area`, and along `axis` it lies
/// between the start and the end of `area`.
pub open spec fn part_of(axis: Axis, part: Rect, area: Rect) -> bool {
    match axis {
        Axis::Horizontal => {
            &&& part.y == area.y
            &&& part.height == area.height
            &&& area.x <= part.x
            &&& part.x + part.width <= right_edge(area)
        },
        Axis::Vertical => {
            &&& part.x == area.x
            &&& part.width == area.width
            &&& area.y <= part.y
            &&& part.y + part.height <= bottom_edge(area)
        },
    }
}

/// Where `r` starts along `axis`.
pub open spec fn start_on(axis: Axis, r: Rect) -> int {
    match axis {
        Axis::Horizontal => r.x as int,
        Axis::Vertical => r.y as int,
    }
}

/// How far `r` extends along `axis`.
pub open spec fn size_on(axis: Axis, r: Rect) -> int {
    match axis {
        Axis::Horizontal => r.width as int,
        Axis::Vertical => r.height as int,
    }
}

/// Where `r` ends along `axis`, saturating as `Rect::right` and `Rect::bottom` do.
pub open spec fn end_on(axis: Axis, r: Rect) -> int {
    match axis {
        Axis::Horizontal => right_edge(r),
        Axis::Vertical => bottom_edge(r),
    }
}

/// The sum of `lengths`.
pub open spec fn total_length(lengths: Seq<u16>) -> int
    decreases lengths.len(),
{
    if lengths.len() == 0 {
        0
    } else {
        total_length(lengths.drop_last()) + lengths.last()
    }
}

/// Splits `area` with `ratatui::layout::Layout::split`, with the default flex
/// (`Flex::Start`), no margin and no spacing, into a part of at least `min`
/// cells (`Constraint::Min`) followed by one part of each of `lengths` cells
/// (`Constraint::Length`).
///
/// Ratatui's layout solver keeps every edge between the start and the end of
/// `area` and every part in order as required constraints, and holds the leading
/// spacer and the spacers between parts at size 0 just below required strength,
/// which nothing here competes with: the parts follow one another from the start
/// of `area`. Where the span holds `min` plus all the lengths, each length is met
/// exactly (a strong constraint), the first part grows at medium strength over
/// the trailing spacer's weaker growth, and so takes all the room left: the last
/// part ends at the end of `area`. On a shorter span the solver trades the
/// minimum against the lengths, and the sizes are not stated.
#[verifier::external_body]
fn split_min_then_lengths(axis: Axis, min: u16, lengths: &Vec<u16>, area: Rect) -> (res: Vec<Rect>)
    requires
        lengths.len() < usize::MAX,
    ensures
        res.len() == lengths.len() + 1,
        forall|i: int| 0 <= i < res.len() ==> part_of(axis, #[trigger] res[i], area),
        start_on(axis, res[0]) == start_on(axis, area),
        forall|i: int|
            #![trigger res[i]]
            0 <= i && i + 1 < res.len() ==> start_on(axis, res[i + 1]) == start_on(axis, res[i])
                + size_on(axis, res[i]),
        end_on(axis, area) - start_on(axis, area) >= min + total_length(lengths@) ==> {
            &&& forall|i: int| 1 <= i < res.len() ==> size_on(axis, #[trigger] res[i]) == lengths@[i - 1]
            &&& start_on(axis, res[res.len() - 1]) + size_on(axis, res[res.len() - 1]) == end_on(
                axis,
                area,
            )
        },
{
    let direction = match axis {
        Axis::Horizontal => ratatui::layout::Direction::Horizontal,
        Axis::Vertical => ratatui::layout::Direction::Vertical,
    };
    let mut constraints = vec![ratatui::layout::Constraint::Min(min)];
    constraints.extend(lengths.iter().map(|l| ratatui::layout::Constraint::Length(*l)));
    let area = ratatui::layout::Rect { x: area.x, y: area.y, width: area.width, height: area.height };
    let parts = ratatui::layout::Layout::default().direction(direction).constraints(
        constraints,
    ).split(area);
    parts.iter().map(|r| Rect { x: r.x, y: r.y, width: r.width, height: r.height }).collect()
}

impl App {
    /// Lays out the header row `header`: an information block of at least 25
    /// columns, then the NIC button (18 columns), the throughput button (23),
    /// the about button (11) and the quit button (10), side by side from the
    /// left edge, whose areas clicks are tested against. Returns the information
    /// block. Where the header is at least 87 columns wide the buttons have
    /// these widths, the quit button ends at the right edge and the information
    /// block takes the rest. Every button lies in the header, so its edges are
    /// representable where those of the header are.
    pub fn place_header(&mut self, header: Rect) -> (info: Rect)
        ensures
            part_of(Axis::Horizontal, info, header),
            part_of(Axis::Horizontal, final(self).btn_nic_rect, header),
            part_of(Axis::Horizontal, final(self).btn_toggle_rect, header),
            part_of(Axis::Horizontal, final(self).btn_about_rect, header),
            part_of(Axis::Horizontal, final(self).btn_quit_rect, header),
            info.x == header.x,
            final(self).btn_nic_rect.x == info.x + info.width,
            final(self).btn_toggle_rect.x == final(self).btn_nic_rect.x + final(self).btn_nic_rect.width,
            final(self).btn_about_rect.x == final(self).btn_toggle_rect.x
                + final(self).btn_toggle_rect.width,
            final(self).btn_quit_rect.x == final(self).btn_about_rect.x + final(self).btn_about_rect.width,
            right_edge(header) - header.x >= 87 ==> {
                &&& info.width == right_edge(header) - header.x - 62
                &&& final(self).btn_nic_rect.width == 18
                &&& final(self).btn_toggle_rect.width == 23
                &&& final(self).btn_about_rect.width == 11
                &&& final(self).btn_quit_rect.width == 10
                &&& final(self).btn_quit_rect.x + final(self).btn_quit_rect.width == right_edge(header)
            },
            header.fits() ==> final(self).btn_nic_rect.fits(),
            header.fits() ==> final(self).btn_toggle_rect.fits(),
            header.fits() ==> final(self).btn_about_rect.fits(),
            header.fits() ==> final(self).btn_quit_rect.fits(),
            *final(self) == (App {
                btn_nic_rect: final(self).btn_nic_rect,
                btn_toggle_rect: final(self).btn_toggle_rect,
                btn_about_rect: final(self).btn_about_rect,
                btn_quit_rect: final(self).btn_quit_rect,
                ..*old(self)
            }),
    {
        let lengths = vec![18, 23, 11, 10];
        proof {
            reveal_with_fuel(total_length, 5);
            assert(lengths@.drop_last().drop_last().drop_last().drop_last() =~= Seq::<u16>::empty());
            assert(total_length(lengths@) == 62);
        }
        let parts = split_min_then_lengths(Axis::Horizontal, 25, &lengths, header);
        assert(part_of(Axis::Horizontal, parts[0], header));
        assert(part_of(Axis::Horizontal, parts[1], header));
        assert(part_of(Axis::Horizontal, parts[2], header));
        assert(part_of(Axis::Horizontal, parts[3], header));
        assert(part_of(Axis::Horizontal, parts[4], header));
        assert(start_on(Axis::Horizontal, parts[1]) == start_on(Axis::Horizontal, parts[0])
            + size_on(Axis::Horizontal, parts[0]));
        assert(start_on(Axis::Horizontal, parts[2]) == start_on(Axis::Horizontal, parts[1])
            + size_on(Axis::Horizontal, parts[1]));
        assert(start_on(Axis::Horizontal, parts[3]) == start_on(Axis::Horizontal, parts[2])
            + size_on(Axis::Horizontal, parts[2]));
        assert(start_on(Axis::Horizontal, parts[4]) == start_on(Axis::Horizontal, parts[3])
            + size_on(Axis::Horizontal, parts[3]));
        proof {
            if right_edge(header) - header.x >= 87 {
                assert(size_on(Axis::Horizontal, parts[1]) == lengths@[0]);
                assert(size_on(Axis::Horizontal, parts[2]) == lengths@[1]);
                assert(size_on(Axis::Horizontal, parts[3]) == lengths@[2]);
                assert(size_on(Axis::Horizontal, parts[4]) == lengths@[3]);
            }
        }
        self.btn_nic_rect = parts[1];
        self.btn_toggle_rect = parts[2];
        self.btn_about_rect = parts[3];
        self.btn_quit_rect = parts[4];
        parts[0]
    }
}

/// The percentages that come before part `i`, summed.
pub open spec fn percent_before(p: Seq<u16>, i: int) -> int
    decreases i,
{
    if i <= 0 || p.len() == 0 {
        0
    } else {
        percent_before(p, i - 1) + p[i - 1]
    }
}

/// Whether cell `pos` is a cell nearest to the point `hundredths` hundredths of
/// a cell past `start`: at most half a cell from it.
pub open spec fn nearest_cell(pos: int, start: int, hundredths: int) -> bool {
    -50 <= 100 * (pos - start) - hundredths <= 50
}

/// Splits `area` with `ratatui::layout::Layout::split` into one part per
/// percentage, each sized by a `Constraint::Percentage`, with the default flex
/// (`Flex::Start`), no margin and no spacing.
///
/// Ratatui's layout solver keeps every part within `area` along the axis, and in
/// order, as required constraints; along the other axis each part keeps the
/// position and size of `area`. Where the percentages sum to at most 100, every
/// constraint but the trailing spacer's growth can be met at once: the leading
/// spacer and the spacers between parts are held at size 0 just below required
/// strength, and each part at its percentage of the span (a whole number of
/// hundredths of a cell) at strong strength. Each edge is then rounded to the
/// nearest cell, so the parts follow one another from the start of `area` and
/// every edge lies at a cell nearest to where the percentages before it put it.
/// Which of two equally near cells an edge takes is not stated.
#[verifier::external_body]
fn split_by_percentages(axis: Axis, percentages: &Vec<u16>, area: Rect) -> (res: Vec<Rect>)
    ensures
        res.len() == percentages.len(),
        forall|i: int| 0 <= i < res.len() ==> part_of(axis, #[trigger] res[i], area),
        percent_before(percentages@, percentages@.len() as int) <= 100 ==> forall|i: int|
            #![trigger res[i]]
            0 <= i < res.len() ==> {
                let span = end_on(axis, area) - start_on(axis, area);
                &&& nearest_cell(
                    start_on(axis, res[i]),
                    start_on(axis, area),
                    percent_before(percentages@, i) * span,
                )
                &&& nearest_cell(
                    start_on(axis, res[i]) + size_on(axis, res[i]),
                    start_on(axis, area),
                    percent_before(percentages@, i + 1) * span,
                )
                &&& i == 0 ==> start_on(axis, res[i]) == start_on(axis, area)
                &&& i + 1 < res.len() ==> start_on(axis, res[i + 1]) == start_on(axis, res[i])
                    + size_on(axis, res[i])
            },
{
    let direction = match axis {
        Axis::Horizontal => ratatui::layout::Direction::Horizontal,
        Axis::Vertical => ratatui::layout::Direction::Vertical,
    };
    let constraints: Vec<ratatui::layout::Constraint> = percentages.iter().map(
        |p| ratatui::layout::Constraint::Percentage(*p),
    ).collect();
    let area = ratatui::layout::Rect { x: area.x, y: area.y, width: area.width, height: area.height };
    let parts = ratatui::layout::Layout::default().direction(direction).constraints(
        constraints,
    ).split(area);
    parts.iter().map(|r| Rect { x: r.x, y: r.y, width: r.width, height: r.height }).collect()
}

/// With an even percentage, the part after the middle one is as large as the
/// part before it: the two margins of a centred popup are equal in hundredths.
proof fn lemma_margins_balance(percent: int, span: int)
    requires
        0 <= percent <= 100,
    ensures
        percent % 2 == 0 ==> 100 * span - ((100 - percent) / 2 + percent) * span == ((100
            - percent) / 2) * span,
{
    if percent % 2 == 0 {
        let m = (100 - percent) / 2;
        assert(2 * m + percent == 100);
        assert(100 * span - (m + percent) * span == m * span) by (nonlinear_arith)
            requires
                2 * m + percent == 100,
        ;
    }
}

/// A popup area in the middle of `r`, `percent_x` percent of its width and
/// `percent_y` percent of its height, with equal margins: the middle part of a
/// vertical split of `r` into margin, popup and margin, split again
/// horizontally.
///
/// Each edge of the popup lies at a cell nearest to where the percentages put it
/// (see `split_by_percentages`): the left edge `(100 - percent_x) / 2` percent
/// into the width, the right edge `percent_x` percent further, and likewise for
/// the top and bottom edges. With an even percentage the two margins along that
/// axis differ by at most one cell.
pub fn centered_rect(percent_x: u16, percent_y: u16, r: Rect) -> (res: Rect)
    requires
        percent_x <= 100,
        percent_y <= 100,
    ensures
        r.x <= res.x,
        res.x + res.width <= right_edge(r),
        r.y <= res.y,
        res.y + res.height <= bottom_edge(r),
        nearest_cell(res.x as int, r.x as int, ((100 - percent_x) / 2) * (right_edge(r) - r.x)),
        nearest_cell(
            res.x + res.width,
            r.x as int,
            ((100 - percent_x) / 2 + percent_x) * (right_edge(r) - r.x),
        ),
        nearest_cell(res.y as int, r.y as int, ((100 - percent_y) / 2) * (bottom_edge(r) - r.y)),
        nearest_cell(
            res.y + res.height,
            r.y as int,
            ((100 - percent_y) / 2 + percent_y) * (bottom_edge(r) - r.y),
        ),
        percent_x % 2 == 0 ==> -1 <= (res.x - r.x) - (right_edge(r) - (res.x + res.width)) <= 1,
        percent_y % 2 == 0 ==> -1 <= (res.y - r.y) - (bottom_edge(r) - (res.y + res.height)) <= 1,
{
    let margin_y = (100 - percent_y) / 2;
    let ys = vec![margin_y, percent_y, margin_y];
    proof {
        reveal_with_fuel(percent_before, 4);
        assert(percent_before(ys@, 1) == margin_y);
        assert(percent_before(ys@, 2) == margin_y + percent_y);
        assert(percent_before(ys@, 3) == 2 * margin_y + percent_y);
    }
    let rows = split_by_percentages(Axis::Vertical, &ys, r);
    let margin_x = (100 - percent_x) / 2;
    let xs = vec![margin_x, percent_x, margin_x];
    proof {
        reveal_with_fuel(percent_before, 4);
        assert(percent_before(xs@, 1) == margin_x);
        assert(percent_before(xs@, 2) == margin_x + percent_x);
        assert(percent_before(xs@, 3) == 2 * margin_x + percent_x);
    }
    let cols = split_by_percentages(Axis::Horizontal, &xs, rows[1]);
    assert(right_edge(rows[1]) == right_edge(r));
    proof {
        lemma_margins_balance(percent_x as int, right_edge(r) - r.x);
        lemma_margins_balance(percent_y as int, bottom_edge(r) - r.y);
    }
    cols[1]
}

/// The terminal height from which the throughput histories fit on screen.
pub const MIN_ROWS_FOR_THROUGHPUT: u16 = 30;

/// Whether the throughput histories are drawn: they are wanted and there is room.
pub fn shows_throughput(show_throughput: bool, term_height: u16) -> (res: bool)
    ensures
        res == (show_throughput && term_height >= MIN_ROWS_FOR_THROUGHPUT),
{
    show_throughput && term_height >= MIN_ROWS_FOR_THROUGHPUT
}

pub open spec fn toggle_text(show_throughput: bool, term_height: u16) -> Seq<char> {
    if show_throughput && term_height < MIN_ROWS_FOR_THROUGHPUT {
        " [ Hidden (Size) ] "@
    } else if show_throughput {
        " [ Hide Throughput ] "@
    } else {
        " [ Show Throughput ] "@
    }
}

/// The label of the throughput button.
pub fn toggle_label(show_throughput: bool, term_height: u16) -> (res: &'static str)
    ensures
        res@ == toggle_text(show_throughput, term_height),
{
    if !shows_throughput(show_throughput, term_height) && show_throughput {
        " [ Hidden (Size) ] "
    } else if show_throughput {
        " [ Hide Throughput ] "
    } else {
        " [ Show Throughput ] "
    }
}

/// Whether a button is drawn highlighted: it has the focus or the pointer is on it.
pub fn highlighted(focus: Option<Focus>, button: Focus, mouse: (u16, u16), rect: Rect) -> (res: bool)
    requires
        rect.fits(),
    ensures
        res == (focus == Some(button) || inside(mouse, rect)),
{
    let focused = match focus {
        Some(f) => f == button,
        None => false,
    };
    focused || is_inside(mouse, rect)
}

pub open spec fn menu_entry_text(index: usize, selected: usize, name: Seq<char>, zero_copy: bool) -> Seq<char> {
    (if index == selected {
        "[*]"@
    } else {
        "[ ]"@
    }) + " "@ + name + if zero_copy {
        " [Zerocopy capable]"@
    } else {
        ""@
    }
}

/// The NIC menu entry of NIC `index`: a mark for the selected NIC, its name, and
/// a note where its driver supports zero-copy XDP.
pub fn nic_menu_label(index: usize, selected: usize, name: &str, zero_copy: bool) -> (res: String)
    ensures
        res@ == menu_entry_text(index, selected, name@, zero_copy),
{
    let mut v: Vec<char> = Vec::new();
    push_str(&mut v, if index == selected {
        "[*]"
    } else {
        "[ ]"
    });
    push_str(&mut v, " ");
    push_str(&mut v, name);
    push_str(&mut v, if zero_copy {
        " [Zerocopy capable]"
    } else {
        ""
    });
    assert(v@ =~= menu_entry_text(index, selected, name@, zero_copy));
    string_from_chars(&v)
}

/// How an XDP attachment state is drawn: native XDP as good, generic XDP as
/// bad, anything else as neutral.
#[derive(PartialEq, Eq, Structural, Clone, Copy, Debug)]
pub enum StateTone {
    Native,
    Generic,
    Neutral,
}

pub open spec fn tone_of(state: Seq<char>) -> StateTone {
    if contains(state, "NATIVE"@) {
        StateTone::Native
    } else if contains(state, "GENERIC"@) {
        StateTone::Generic
    } else {
        StateTone::Neutral
    }
}

pub fn xdp_state_tone(state: &str) -> (res: StateTone)
    ensures
        res == tone_of(state@),
{
    let t = chars_of(state);
    if contains_exec(&t, &chars_of("NATIVE")) {
        StateTone::Native
    } else if contains_exec(&t, &chars_of("GENERIC")) {
        StateTone::Generic
    } else {
        StateTone::Neutral
    }
}

pub open spec fn channels_summary(current: usize, max: usize, fallback: usize) -> Seq<char> {
    if current > 0 {
        decimal(current as nat) + " active channels (Max Supported: "@ + decimal(max as nat) + ")"@
    } else {
        decimal(fallback as nat) + " active queues (Fallback detection)"@
    }
}

/// The channel line of a NIC: the active and maximal channel counts where
/// `ethtool -l` gave them, else the number of queues found in its queue directory.
pub fn channels_text(info: &NicInfo) -> (res: String)
    ensures
        res@ == channels_summary(info.current_channels, info.max_channels, info.fallback_queues),
{
    let mut v: Vec<char> = Vec::new();
    if info.current_channels > 0 {
        push_decimal(&mut v, info.current_channels);
        push_str(&mut v, " active channels (Max Supported: ");
        push_decimal(&mut v, info.max_channels);
        push_str(&mut v, ")");
    } else {
        push_decimal(&mut v, info.fallback_queues);
        push_str(&mut v, " active queues (Fallback detection)");
    }
    assert(v@ =~= channels_summary(info.current_channels, info.max_channels, info.fallback_queues));
    string_from_chars(&v)
}

pub open spec fn rss_summary(active_queues: usize, cores: usize) -> Seq<char> {
    if active_queues == 0 {
        "No queue stats"@
    } else if active_queues <= cores {
        "RSS: Optimal ("@ + decimal(active_queues as nat) + " Qs / "@ + decimal(cores as nat)
            + " Cores)"@
    } else {
        "RSS: Suboptimal ("@ + decimal(active_queues as nat) + " Qs > "@ + decimal(cores as nat)
            + " Cores)"@
    }
}

/// How receive side scaling spreads the traffic: optimal while no more queues
/// carry traffic than there are cores.
pub fn rss_status(active_queues: usize, cores: usize) -> (res: String)
    ensures
        res@ == rss_summary(active_queues, cores),
{
    let mut v: Vec<char> = Vec::new();
    if active_queues == 0 {
        push_str(&mut v, "No queue stats");
    } else if active_queues <= cores {
        push_str(&mut v, "RSS: Optimal (");
        push_decimal(&mut v, active_queues);
        push_str(&mut v, " Qs / ");
        push_decimal(&mut v, cores);
        push_str(&mut v, " Cores)");
    } else {
        push_str(&mut v, "RSS: Suboptimal (");
        push_decimal(&mut v, active_queues);
        push_str(&mut v, " Qs > ");
        push_decimal(&mut v, cores);
        push_str(&mut v, " Cores)");
    }
    assert(v@ =~= rss_summary(active_queues, cores));
    string_from_chars(&v)
}

/// The RSS verdict names the two counts in their places: with no active queue
/// it says so; otherwise the number read before " Qs" is the active queue count
/// and the number read before " Cores" is the core count, joined by " / " when
/// the queues do not outnumber the cores (optimal) and by " > " when they do.
pub proof fn lemma_rss_verdict_names_its_counts(active_queues: usize, cores: usize)
    ensures
        active_queues == 0 ==> rss_summary(active_queues, cores) == "No queue stats"@,
        0 < active_queues <= cores ==> exists|a: Seq<char>, b: Seq<char>|
            #![trigger parse_unsigned(a, usize::MAX as nat), parse_unsigned(b, usize::MAX as nat)]
            {
                &&& rss_summary(active_queues, cores) == "RSS: Optimal ("@ + a + " Qs / "@ + b
                    + " Cores)"@
                &&& parse_unsigned(a, usize::MAX as nat) == Some(active_queues as nat)
                &&& parse_unsigned(b, usize::MAX as nat) == Some(cores as nat)
            },
        active_queues > cores ==> exists|a: Seq<char>, b: Seq<char>|
            #![trigger parse_unsigned(a, usize::MAX as nat), parse_unsigned(b, usize::MAX as nat)]
            {
                &&& rss_summary(active_queues, cores) == "RSS: Suboptimal ("@ + a + " Qs > "@ + b
                    + " Cores)"@
                &&& parse_unsigned(a, usize::MAX as nat) == Some(active_queues as nat)
                &&& parse_unsigned(b, usize::MAX as nat) == Some(cores as nat)
            },
{
    lemma_decimal_reads_back(active_queues as nat);
    lemma_decimal_reads_back(cores as nat);
    let a = decimal(active_queues as nat);
    let b = decimal(cores as nat);
    assert(parse_unsigned(a, usize::MAX as nat) == Some(active_queues as nat));
    assert(parse_unsigned(b, usize::MAX as nat) == Some(cores as nat));
}

} // verus!
