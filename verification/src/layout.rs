use vstd::prelude::*;
use ratatui::layout::{Constraint, Direction, Layout, Rect};
use crate::cache::BANNER_HEIGHT;

verus! {

/// A rectangle of terminal cells.
#[derive(Clone, Copy, Debug, PartialEq, Eq)]
pub struct Area {
    pub x: u16,
    pub y: u16,
    pub width: u16,
    pub height: u16,
}

/// The direction in which an area is cut.
#[derive(Clone, Copy, Debug, PartialEq, Eq)]
pub enum Axis {
    /// Into rows, top to bottom.
    Vertical,
    /// Into columns, left to right.
    Horizontal,
}

/// How much of the cut direction one part asks for.
#[derive(Clone, Copy, Debug, PartialEq, Eq)]
pub enum Portion {
    /// Exactly this many cells.
    Length(u16),
    /// This percentage of the area.
    Percentage(u16),
    /// At least this many cells.
    Min(u16),
}


/// The right edge of `a`, as far as `u16` reaches.
pub open spec fn right_edge(a: Area) -> int {
    if a.x + a.width > u16::MAX {
        u16::MAX as int
    } else {
        a.x + a.width
    }
}

/// The bottom edge of `a`, as far as `u16` reaches.
pub open spec fn bottom_edge(a: Area) -> int {
    if a.y + a.height > u16::MAX {
        u16::MAX as int
    } else {
        a.y + a.height
    }
}

/// `a` lies within `b`.
pub open spec fn inside(a: Area, b: Area) -> bool {
    &&& b.x <= a.x
    &&& right_edge(a) <= right_edge(b)
    &&& b.y <= a.y
    &&& bottom_edge(a) <= bottom_edge(b)
}

/// `part` is one of the pieces of `area` cut along `axis`: across the cut it
/// keeps the area's position and extent, along the cut it lies within the area.
pub open spec fn is_part_of(part: Area, area: Area, axis: Axis) -> bool {
    match axis {
        Axis::Vertical => {
            &&& part.x == area.x
            &&& part.width == area.width
            &&& area.y <= part.y
            &&& part.y + part.height <= bottom_edge(area)
        },
        Axis::Horizontal => {
            &&& part.y == area.y
            &&& part.height == area.height
            &&& area.x <= part.x
            &&& part.x + part.width <= right_edge(area)
        },
    }
}

/// Each of `parts` is a piece of `area` cut along `axis`.
pub open spec fn are_parts_of(parts: Seq<Area>, area: Area, axis: Axis) -> bool {
    forall|i: int| 0 <= i < parts.len() ==> is_part_of(#[trigger] parts[i], area, axis)
}

/// A piece of an area lies within it.
pub proof fn lemma_part_inside(part: Area, area: Area, axis: Axis)
    requires
        is_part_of(part, area, axis),
    ensures
        inside(part, area),
{
}

/// Lying within is transitive.
pub proof fn lemma_inside_transitive(a: Area, b: Area, c: Area)
    requires
        inside(a, b),
        inside(b, c),
    ensures
        inside(a, c),
{
}

/// Whether `parts` is an outcome that ratatui's `Layout::split` can give for
/// cutting `area` along `axis` with `portions`. It relates the call's
/// arguments to its result without claiming that the same arguments always
/// give the same parts: the solver's choices follow a hash-map order seeded
/// per process.
pub uninterp spec fn split_outcome(
    area: Area,
    axis: Axis,
    portions: Seq<Portion>,
    parts: Seq<Area>,
) -> bool;

/// Cuts `area` along `axis` with ratatui's `Layout::split`. Claimed, for
/// every outcome: it is an outcome of the call with these arguments
/// (`split_outcome`); one part per portion; across the cut each part keeps the
/// area's position and extent (`changes_to_rects` copies them); along the cut
/// each part starts no earlier than the area and ends no later than its
/// (saturated) edge, since the solver's required constraints keep every
/// segment boundary inside the area and each segment's start before its end,
/// and rounding keeps that order. Unsaid: how long each part is and how the
/// parts are ordered, which the solver decides with constraints that are not
/// required (the gaps between parts, the first gap included, are held only
/// below required strength) and with a hash-map order seeded per process.
#[verifier::external_body]
fn split_area(area: Area, axis: Axis, portions: &Vec<Portion>) -> (r: Vec<Area>)
    ensures
        split_outcome(area, axis, portions@, r@),
        r@.len() == portions@.len(),
        are_parts_of(r@, area, axis),
{
    let direction = match axis {
        Axis::Vertical => Direction::Vertical,
        Axis::Horizontal => Direction::Horizontal,
    };
    let constraints = portions.iter().map(|p| match *p {
        Portion::Length(n) => Constraint::Length(n),
        Portion::Percentage(n) => Constraint::Percentage(n),
        Portion::Min(n) => Constraint::Min(n),
    });
    let rect = Rect { x: area.x, y: area.y, width: area.width, height: area.height };
    let parts = Layout::default().direction(direction).constraints(constraints).split(rect);
    parts.iter().map(|p| Area { x: p.x, y: p.y, width: p.width, height: p.height }).collect()
}

/// Two portions of the given percentages.
fn halves(a: u16, b: u16) -> (r: Vec<Portion>)
    ensures
        r@ == seq![Portion::Percentage(a), Portion::Percentage(b)],
{
    let mut v = Vec::new();
    v.push(Portion::Percentage(a));
    v.push(Portion::Percentage(b));
    v
}

/// How the four gauge slots sit in `area`: all within it; from 80 cells wide
/// four full-height columns, narrower two rows of two slots each.
pub open spec fn slots_fit(slots: Seq<Area>, area: Area) -> bool {
    &&& slots.len() == 4
    &&& forall|i: int| 0 <= i < 4 ==> inside(#[trigger] slots[i], area)
    &&& area.width >= 80 ==> are_parts_of(slots, area, Axis::Horizontal)
    &&& area.width < 80 ==> {
        &&& slots[0].y == slots[1].y && slots[0].height == slots[1].height
        &&& slots[2].y == slots[3].y && slots[2].height == slots[3].height
    }
}

/// Two portions of half each.
pub open spec fn half_portions() -> Seq<Portion> {
    seq![Portion::Percentage(50), Portion::Percentage(50)]
}

/// Four portions of a quarter each.
pub open spec fn quarter_portions() -> Seq<Portion> {
    seq![
        Portion::Percentage(25),
        Portion::Percentage(25),
        Portion::Percentage(25),
        Portion::Percentage(25),
    ]
}

/// The slots of a 2x2 grid: the two halves of the top row, then the two
/// halves of the bottom row.
pub fn grid_slots(top: &Vec<Area>, bottom: &Vec<Area>) -> (r: [Area; 4])
    requires
        top@.len() == 2,
        bottom@.len() == 2,
    ensures
        r@ == seq![top@[0], top@[1], bottom@[0], bottom@[1]],
{
    let r = [top[0], top[1], bottom[0], bottom[1]];
    assert(r@ =~= seq![top@[0], top@[1], bottom@[0], bottom@[1]]);
    r
}

/// The slots of four columns, in the order of the cut.
pub fn column_slots(cols: &Vec<Area>) -> (r: [Area; 4])
    requires
        cols@.len() == 4,
    ensures
        r@ == cols@,
{
    let r = [cols[0], cols[1], cols[2], cols[3]];
    assert(r@ =~= cols@);
    r
}

/// Whether `slots` are the gauge slots cut from `area`: narrower than 80
/// cells, the area cut into two rows of half each and each row into two
/// halves, slots taken row by row; otherwise four columns of a quarter each,
/// in the order of the cut.
pub open spec fn is_gauge_layout(area: Area, slots: Seq<Area>) -> bool {
    if area.width < 80 {
        exists|rows: Seq<Area>, top: Seq<Area>, bottom: Seq<Area>|
            #![trigger split_outcome(area, Axis::Vertical, half_portions(), rows), split_outcome(rows[0], Axis::Horizontal, half_portions(), top), split_outcome(rows[1], Axis::Horizontal, half_portions(), bottom)]
            rows.len() == 2 && top.len() == 2 && bottom.len() == 2 && split_outcome(
                area,
                Axis::Vertical,
                half_portions(),
                rows,
            ) && split_outcome(rows[0], Axis::Horizontal, half_portions(), top) && split_outcome(
                rows[1],
                Axis::Horizontal,
                half_portions(),
                bottom,
            ) && slots == seq![top[0], top[1], bottom[0], bottom[1]]
    } else {
        exists|cols: Seq<Area>|
            #![trigger split_outcome(area, Axis::Horizontal, quarter_portions(), cols)]
            cols.len() == 4 && split_outcome(area, Axis::Horizontal, quarter_portions(), cols)
                && slots == cols
    }
}

/// The slots of the CPU, RAM and two GPU gauges: a grid of halves when the
/// area is narrower than 80 cells, otherwise four columns of a quarter each.
pub fn gauge_slots(area: Area) -> (r: [Area; 4])
    ensures
        is_gauge_layout(area, r@),
        slots_fit(r@, area),
{
    if area.width < 80 {
        let half = halves(50, 50);
        let rows = split_area(area, Axis::Vertical, &half);
        let top = split_area(rows[0], Axis::Horizontal, &half);
        let bottom = split_area(rows[1], Axis::Horizontal, &half);
        let r = grid_slots(&top, &bottom);
        proof {
            assert(is_part_of(rows@[0], area, Axis::Vertical));
            assert(is_part_of(rows@[1], area, Axis::Vertical));
            assert(is_part_of(top@[0], rows@[0], Axis::Horizontal));
            assert(is_part_of(top@[1], rows@[0], Axis::Horizontal));
            assert(is_part_of(bottom@[0], rows@[1], Axis::Horizontal));
            assert(is_part_of(bottom@[1], rows@[1], Axis::Horizontal));
            assert(half@ == half_portions());
            assert(split_outcome(area, Axis::Vertical, half_portions(), rows@));
            assert(split_outcome(rows@[0], Axis::Horizontal, half_portions(), top@));
            assert(split_outcome(rows@[1], Axis::Horizontal, half_portions(), bottom@));
        }
        r
    } else {
        let mut quarters = Vec::new();
        quarters.push(Portion::Percentage(25));
        quarters.push(Portion::Percentage(25));
        quarters.push(Portion::Percentage(25));
        quarters.push(Portion::Percentage(25));
        assert(quarters@ =~= quarter_portions());
        let cols = split_area(area, Axis::Horizontal, &quarters);
        let r = column_slots(&cols);
        proof {
            assert(forall|i: int| 0 <= i < 4 ==> is_part_of(#[trigger] cols@[i], area, Axis::Horizontal));
            assert(split_outcome(area, Axis::Horizontal, quarter_portions(), cols@));
        }
        r
    }
}

/// The row of the process table that shows entry `selected`: inside the
/// border, one row below the header. `None` when the table has no room for a
/// data row, nothing is selected, or the entry lies below the visible rows.
pub open spec fn selected_row_of(table: Area, selected: Option<usize>) -> Option<Area> {
    let inner_x = table.x + 1;
    let inner_y = table.y + 1;
    let inner_width = if table.width >= 2 { table.width - 2 } else { 0 };
    let inner_height = if table.height >= 2 { table.height - 2 } else { 0 };
    if inner_height <= 1 {
        None
    } else {
        match selected {
            None => None,
            Some(i) => {
                let row_y = inner_y + 1 + (i as u16);
                if row_y >= inner_y + inner_height {
                    None
                } else {
                    Some(
                        Area {
                            x: inner_x as u16,
                            y: row_y as u16,
                            width: inner_width as u16,
                            height: 1,
                        },
                    )
                }
            },
        }
    }
}

/// The coordinates that locating the row adds up stay within `u16`.
pub open spec fn row_sums_fit(table: Area, selected: Option<usize>) -> bool {
    &&& table.x < u16::MAX
    &&& table.y < u16::MAX
    &&& (table.height >= 4 && selected is Some) ==> {
        &&& table.y + 2 + (selected->Some_0 as u16) <= u16::MAX
        &&& table.y + 1 + (table.height - 2) <= u16::MAX
    }
}

/// Whether locating the row for `selected` in `table_area` stays within `u16`.
pub fn fits_row_sums(table_area: Area, selected: Option<usize>) -> (r: bool)
    ensures
        r == row_sums_fit(table_area, selected),
{
    if table_area.x == u16::MAX || table_area.y == u16::MAX {
        return false;
    }
    if table_area.height >= 4 {
        if let Some(i) = selected {
            let y = table_area.y as u32;
            if y + 2 + (i as u16) as u32 > 65535 || y + 1 + (table_area.height - 2) as u32 > 65535 {
                return false;
            }
        }
    }
    true
}

/// Locates the highlighted row of the process table.
pub fn selected_row_rect(table_area: Area, selected: Option<usize>) -> (r: Option<Area>)
    requires
        row_sums_fit(table_area, selected),
    ensures
        r == selected_row_of(table_area, selected),
{
    let inner = Area {
        x: table_area.x + 1,
        y: table_area.y + 1,
        width: table_area.width.saturating_sub(2),
        height: table_area.height.saturating_sub(2),
    };
    if inner.height <= 1 {
        return None;
    }
    let idx = match selected {
        Some(i) => i as u16,
        None => {
            return None;
        },
    };
    let row_y = inner.y + 1 + idx;
    if row_y >= inner.y + inner.height {
        None
    } else {
        Some(Area { x: inner.x, y: row_y, width: inner.width, height: 1 })
    }
}


/// Every panel of the screen, with the two bands that hold several panels.
#[derive(Clone, Copy, Debug, PartialEq, Eq)]
pub struct ScreenAreas {
    pub banner: Area,
    pub summary: Area,
    pub middle: Area,
    pub bottom: Area,
    pub gauges_area: Area,
    pub sparklines_area: Area,
    pub gauges: [Area; 4],
    pub cpu_history: Area,
    pub ram_history: Area,
    pub table: Area,
    pub side: Area,
    pub per_core: Area,
    pub disk_net: Area,
    pub disk: Area,
    pub network: Area,
    pub connectivity: Area,
}

/// The pieces of each cut made while dividing the screen.
#[derive(Clone, Debug)]
pub struct ScreenParts {
    /// Banner, summary, middle band and bottom band, cut from the screen.
    pub bands: Vec<Area>,
    /// Gauges and sparklines, cut from the middle band.
    pub middle: Vec<Area>,
    /// CPU and RAM sparklines, cut from the sparklines part.
    pub sparks: Vec<Area>,
    /// The gauge slots within the gauges part.
    pub gauges: [Area; 4],
    /// Process table and side panels, cut from the bottom band.
    pub bottom: Vec<Area>,
    /// Per-core, disk and network, and connectivity panels, cut from the side part.
    pub sides: Vec<Area>,
    /// Disk gauge and network panel, cut from the disk and network part.
    pub disk_net: Vec<Area>,
}

/// The direction in which the bottom band is cut: the table over the side
/// panels when it is narrower than 80 cells, otherwise beside them.
pub open spec fn bottom_axis(bottom: Area) -> Axis {
    if bottom.width < 80 {
        Axis::Vertical
    } else {
        Axis::Horizontal
    }
}

/// Each cut of `p` has its number of pieces and each piece lies in the part
/// it was cut from.
pub open spec fn parts_fit(p: ScreenParts, area: Area) -> bool {
    &&& split_outcome(area, Axis::Vertical, band_portions(), p.bands@)
    &&& split_outcome(
        p.bands@[2],
        Axis::Horizontal,
        seq![Portion::Percentage(55), Portion::Percentage(45)],
        p.middle@,
    )
    &&& split_outcome(p.middle@[1], Axis::Vertical, half_portions(), p.sparks@)
    &&& is_gauge_layout(p.middle@[0], p.gauges@)
    &&& split_outcome(p.bands@[3], bottom_axis(p.bands@[3]), bottom_portions(p.bands@[3]), p.bottom@)
    &&& split_outcome(
        p.bottom@[1],
        Axis::Vertical,
        seq![Portion::Percentage(45), Portion::Percentage(30), Portion::Percentage(25)],
        p.sides@,
    )
    &&& split_outcome(
        p.sides@[1],
        Axis::Vertical,
        seq![Portion::Length(3), Portion::Min(0)],
        p.disk_net@,
    )
    &&& p.bands@.len() == 4 && are_parts_of(p.bands@, area, Axis::Vertical)
    &&& p.middle@.len() == 2 && are_parts_of(p.middle@, p.bands@[2], Axis::Horizontal)
    &&& p.sparks@.len() == 2 && are_parts_of(p.sparks@, p.middle@[1], Axis::Vertical)
    &&& slots_fit(p.gauges@, p.middle@[0])
    &&& p.bottom@.len() == 2 && are_parts_of(
        p.bottom@,
        p.bands@[3],
        bottom_axis(p.bands@[3]),
    )
    &&& p.sides@.len() == 3 && are_parts_of(p.sides@, p.bottom@[1], Axis::Vertical)
    &&& p.disk_net@.len() == 2 && are_parts_of(p.disk_net@, p.sides@[1], Axis::Vertical)
}

/// Top to bottom: banner, summary line, the gauges-and-sparklines band, and
/// the rest.
pub open spec fn band_portions() -> Seq<Portion> {
    seq![
        Portion::Length(BANNER_HEIGHT),
        Portion::Length(2),
        Portion::Length(7),
        Portion::Min(0),
    ]
}

/// How the bottom band is shared between the table and the side panels:
/// 60/40 when stacked, 68/32 side by side.
pub open spec fn bottom_portions(bottom: Area) -> Seq<Portion> {
    if bottom.width < 80 {
        seq![Portion::Percentage(60), Portion::Percentage(40)]
    } else {
        seq![Portion::Percentage(68), Portion::Percentage(32)]
    }
}

/// Which piece of which cut in `p` each panel of `s` is.
pub open spec fn panels_of(p: ScreenParts, s: ScreenAreas) -> bool {
    &&& s.banner == p.bands@[0]
    &&& s.summary == p.bands@[1]
    &&& s.middle == p.bands@[2]
    &&& s.bottom == p.bands@[3]
    &&& s.gauges_area == p.middle@[0]
    &&& s.sparklines_area == p.middle@[1]
    &&& s.gauges == p.gauges
    &&& s.cpu_history == p.sparks@[0]
    &&& s.ram_history == p.sparks@[1]
    &&& s.table == p.bottom@[0]
    &&& s.side == p.bottom@[1]
    &&& s.per_core == p.sides@[0]
    &&& s.disk_net == p.sides@[1]
    &&& s.connectivity == p.sides@[2]
    &&& s.disk == p.disk_net@[0]
    &&& s.network == p.disk_net@[1]
}

/// Each panel of `s` lies in the band or panel it was cut from.
pub open spec fn screen_fits(s: ScreenAreas, area: Area) -> bool {
    &&& is_part_of(s.banner, area, Axis::Vertical)
    &&& is_part_of(s.summary, area, Axis::Vertical)
    &&& is_part_of(s.middle, area, Axis::Vertical)
    &&& is_part_of(s.bottom, area, Axis::Vertical)
    &&& is_part_of(s.gauges_area, s.middle, Axis::Horizontal)
    &&& is_part_of(s.sparklines_area, s.middle, Axis::Horizontal)
    &&& slots_fit(s.gauges@, s.gauges_area)
    &&& is_part_of(s.cpu_history, s.sparklines_area, Axis::Vertical)
    &&& is_part_of(s.ram_history, s.sparklines_area, Axis::Vertical)
    &&& is_part_of(s.table, s.bottom, bottom_axis(s.bottom))
    &&& is_part_of(s.side, s.bottom, bottom_axis(s.bottom))
    &&& is_part_of(s.per_core, s.side, Axis::Vertical)
    &&& is_part_of(s.disk_net, s.side, Axis::Vertical)
    &&& is_part_of(s.connectivity, s.side, Axis::Vertical)
    &&& is_part_of(s.disk, s.disk_net, Axis::Vertical)
    &&& is_part_of(s.network, s.disk_net, Axis::Vertical)
}

/// Cuts the screen: top to bottom the banner (as high as the banner), a
/// two-row summary, a seven-row band of gauges (55%) beside sparklines (45%,
/// halved into CPU and RAM), and the rest for the process table and the side
/// panels (60/40 stacked when narrower than 80 cells, otherwise 68/32 side by
/// side); the side panels take 45/30/25% for per-core, disk and network, and
/// connectivity, and the disk gauge takes three rows above the network panel.
pub fn screen_parts(area: Area) -> (r: ScreenParts)
    ensures
        parts_fit(r, area),
        split_outcome(
            area,
            Axis::Vertical,
            seq![Portion::Length(5), Portion::Length(2), Portion::Length(7), Portion::Min(0)],
            r.bands@,
        ),
        r.bands@[3].width >= 80 ==> split_outcome(
            r.bands@[3],
            Axis::Horizontal,
            seq![Portion::Percentage(68), Portion::Percentage(32)],
            r.bottom@,
        ),
        r.bands@[3].width < 80 ==> split_outcome(
            r.bands@[3],
            Axis::Vertical,
            seq![Portion::Percentage(60), Portion::Percentage(40)],
            r.bottom@,
        ),
        split_outcome(
            r.middle@[1],
            Axis::Vertical,
            seq![Portion::Percentage(50), Portion::Percentage(50)],
            r.sparks@,
        ),
        split_outcome(
            r.bands@[2],
            Axis::Horizontal,
            seq![Portion::Percentage(55), Portion::Percentage(45)],
            r.middle@,
        ),
        split_outcome(
            r.bottom@[1],
            Axis::Vertical,
            seq![Portion::Percentage(45), Portion::Percentage(30), Portion::Percentage(25)],
            r.sides@,
        ),
        split_outcome(
            r.sides@[1],
            Axis::Vertical,
            seq![Portion::Length(3), Portion::Min(0)],
            r.disk_net@,
        ),
        is_gauge_layout(r.middle@[0], r.gauges@),
{
    let mut bands_portions = Vec::new();
    bands_portions.push(Portion::Length(BANNER_HEIGHT));
    bands_portions.push(Portion::Length(2));
    bands_portions.push(Portion::Length(7));
    bands_portions.push(Portion::Min(0));
    assert(bands_portions@ =~= band_portions());
    let bands = split_area(area, Axis::Vertical, &bands_portions);
    let middle = split_area(bands[2], Axis::Horizontal, &halves(55, 45));
    let half = halves(50, 50);
    assert(half@ == half_portions());
    let sparks = split_area(middle[1], Axis::Vertical, &half);
    let gauges = gauge_slots(middle[0]);
    let bottom_area = bands[3];
    let bottom = if bottom_area.width < 80 {
        split_area(bottom_area, Axis::Vertical, &halves(60, 40))
    } else {
        split_area(bottom_area, Axis::Horizontal, &halves(68, 32))
    };
    assert(split_outcome(bottom_area, bottom_axis(bottom_area), bottom_portions(bottom_area), bottom@));
    let mut side_portions = Vec::new();
    side_portions.push(Portion::Percentage(45));
    side_portions.push(Portion::Percentage(30));
    side_portions.push(Portion::Percentage(25));
    assert(side_portions@ =~= seq![
        Portion::Percentage(45),
        Portion::Percentage(30),
        Portion::Percentage(25),
    ]);
    let sides = split_area(bottom[1], Axis::Vertical, &side_portions);
    let mut disk_net_portions = Vec::new();
    disk_net_portions.push(Portion::Length(3));
    disk_net_portions.push(Portion::Min(0));
    assert(disk_net_portions@ =~= seq![Portion::Length(3), Portion::Min(0)]);
    let disk_net = split_area(sides[1], Axis::Vertical, &disk_net_portions);
    proof {
        lemma_portions();
    }
    ScreenParts { bands, middle, sparks, gauges, bottom, sides, disk_net }
}

/// The portions of each cut, spelled out: the bands are 5, 2 and 7 rows and
/// the rest; the bottom band gives the table 68% beside the side panels'
/// 32% from 80 cells wide, otherwise 60% above their 40%; halves are 50/50
/// and quarters 25% each.
pub proof fn lemma_portions()
    ensures
        band_portions() == seq![
            Portion::Length(5),
            Portion::Length(2),
            Portion::Length(7),
            Portion::Min(0),
        ],
        forall|b: Area|
            #![trigger bottom_portions(b)]
            b.width >= 80 ==> bottom_axis(b) == Axis::Horizontal && bottom_portions(b) == seq![
                Portion::Percentage(68),
                Portion::Percentage(32),
            ],
        forall|b: Area|
            #![trigger bottom_portions(b)]
            b.width < 80 ==> bottom_axis(b) == Axis::Vertical && bottom_portions(b) == seq![
                Portion::Percentage(60),
                Portion::Percentage(40),
            ],
        half_portions() == seq![Portion::Percentage(50), Portion::Percentage(50)],
        quarter_portions() == seq![
            Portion::Percentage(25),
            Portion::Percentage(25),
            Portion::Percentage(25),
            Portion::Percentage(25),
        ],
{
}

impl ScreenParts {
    /// Names the pieces: which piece of which cut becomes which panel.
    pub fn panels(&self) -> (r: ScreenAreas)
        requires
            self.bands@.len() == 4,
            self.middle@.len() == 2,
            self.sparks@.len() == 2,
            self.bottom@.len() == 2,
            self.sides@.len() == 3,
            self.disk_net@.len() == 2,
        ensures
            r.banner == self.bands@[0],
            r.summary == self.bands@[1],
            r.middle == self.bands@[2],
            r.bottom == self.bands@[3],
            r.gauges_area == self.middle@[0],
            r.sparklines_area == self.middle@[1],
            r.gauges == self.gauges,
            r.cpu_history == self.sparks@[0],
            r.ram_history == self.sparks@[1],
            r.table == self.bottom@[0],
            r.side == self.bottom@[1],
            r.per_core == self.sides@[0],
            r.disk_net == self.sides@[1],
            r.connectivity == self.sides@[2],
            r.disk == self.disk_net@[0],
            r.network == self.disk_net@[1],
    {
        ScreenAreas {
            banner: self.bands[0],
            summary: self.bands[1],
            middle: self.bands[2],
            bottom: self.bands[3],
            gauges_area: self.middle[0],
            sparklines_area: self.middle[1],
            gauges: self.gauges,
            cpu_history: self.sparks[0],
            ram_history: self.sparks[1],
            table: self.bottom[0],
            side: self.bottom[1],
            per_core: self.sides[0],
            disk_net: self.sides[1],
            connectivity: self.sides[2],
            disk: self.disk_net[0],
            network: self.disk_net[1],
        }
    }
}

/// Divides the screen into its panels.
pub fn screen_areas(area: Area) -> (r: ScreenAreas)
    ensures
        exists|p: ScreenParts| parts_fit(p, area) && #[trigger] panels_of(p, r),
        screen_fits(r, area),
{
    let parts = screen_parts(area);
    let r = parts.panels();
    proof {
        assert(is_part_of(parts.bands@[0], area, Axis::Vertical));
        assert(is_part_of(parts.bands@[1], area, Axis::Vertical));
        assert(is_part_of(parts.bands@[2], area, Axis::Vertical));
        assert(is_part_of(parts.bands@[3], area, Axis::Vertical));
        assert(is_part_of(parts.middle@[0], parts.bands@[2], Axis::Horizontal));
        assert(is_part_of(parts.middle@[1], parts.bands@[2], Axis::Horizontal));
        assert(is_part_of(parts.sparks@[0], parts.middle@[1], Axis::Vertical));
        assert(is_part_of(parts.sparks@[1], parts.middle@[1], Axis::Vertical));
        assert(is_part_of(parts.bottom@[0], parts.bands@[3], bottom_axis(parts.bands@[3])));
        assert(is_part_of(parts.bottom@[1], parts.bands@[3], bottom_axis(parts.bands@[3])));
        assert(is_part_of(parts.sides@[0], parts.bottom@[1], Axis::Vertical));
        assert(is_part_of(parts.sides@[1], parts.bottom@[1], Axis::Vertical));
        assert(is_part_of(parts.sides@[2], parts.bottom@[1], Axis::Vertical));
        assert(is_part_of(parts.disk_net@[0], parts.sides@[1], Axis::Vertical));
        assert(is_part_of(parts.disk_net@[1], parts.sides@[1], Axis::Vertical));
        assert(panels_of(parts, r));
    }
    r
}

/// Every panel of a divided screen lies on the screen.
pub proof fn lemma_screen_inside(s: ScreenAreas, area: Area)
    requires
        screen_fits(s, area),
    ensures
        inside(s.banner, area),
        inside(s.summary, area),
        inside(s.gauges_area, area),
        inside(s.sparklines_area, area),
        forall|i: int| 0 <= i < 4 ==> inside(#[trigger] s.gauges@[i], area),
        inside(s.cpu_history, area),
        inside(s.ram_history, area),
        inside(s.table, area),
        inside(s.side, area),
        inside(s.per_core, area),
        inside(s.connectivity, area),
        inside(s.disk, area),
        inside(s.network, area),
{
    assert forall|i: int| 0 <= i < 4 implies inside(#[trigger] s.gauges@[i], area) by {
        lemma_inside_transitive(s.gauges@[i], s.gauges_area, s.middle);
        lemma_inside_transitive(s.gauges@[i], s.middle, area);
    }
}

/// The areas the effects run over, and the highlighted table row.
#[derive(Clone, Copy, Debug, PartialEq, Eq)]
pub struct UiLayout {
    pub banner: Area,
    pub summary: Area,
    pub gauges_area: Area,
    pub sparklines_area: Area,
    pub table: Area,
    pub side: Area,
    pub selected_row: Option<Area>,
}


/// The effect areas of a drawn screen, with the highlighted row of the
/// process table in navigation mode.
pub fn ui_layout(screen: &ScreenAreas, nav_mode: bool, selected: Option<usize>) -> (r: UiLayout)
    requires
        nav_mode ==> row_sums_fit(screen.table, selected),
    ensures
        r.banner == screen.banner,
        r.summary == screen.summary,
        r.gauges_area == screen.gauges_area,
        r.sparklines_area == screen.sparklines_area,
        r.table == screen.table,
        r.side == screen.side,
        r.selected_row == if nav_mode {
            selected_row_of(screen.table, selected)
        } else {
            None
        },
{
    let selected_row = if nav_mode {
        selected_row_rect(screen.table, selected)
    } else {
        None
    };
    UiLayout {
        banner: screen.banner,
        summary: screen.summary,
        gauges_area: screen.gauges_area,
        sparklines_area: screen.sparklines_area,
        table: screen.table,
        side: screen.side,
        selected_row,
    }
}

/// A located row lies inside the table's border, below the header row, one
/// cell high and as wide as the inside of the table (none when narrower than the border).
/// Entry `i` (taken as `u16`) is located exactly when the table is at least
/// four rows high and `i + 3` is below its height, on row `i` after the
/// border and the header.
pub proof fn lemma_selected_row_inside(table: Area, selected: Option<usize>)
    requires
        row_sums_fit(table, selected),
    ensures
        selected matches Some(i) ==> (selected_row_of(table, selected) is Some <==> (table.height
            >= 4 && (i as u16) + 3 < table.height)),
        selected matches Some(i) ==> (selected_row_of(table, selected) matches Some(row) ==> row.y
            == table.y + 2 + (i as u16)),
        selected_row_of(table, selected) matches Some(row) ==> {
            &&& row.x == table.x + 1
            &&& row.width == if table.width >= 2 { table.width - 2 } else { 0 }
            &&& row.height == 1
            &&& table.y + 2 <= row.y
            &&& row.y + 1 < table.y + table.height
        },
        selected is None ==> selected_row_of(table, selected) is None,
{
}

/// The gauge slots spelled out (the halves and quarters are those of
/// `lemma_portions`): narrower than 80 cells, two 50/50 rows each
/// cut 50/50 into columns, slots taken row by row (top left, top right,
/// bottom left, bottom right); otherwise four 25% columns in the order of
/// the cut.
pub proof fn lemma_gauge_layout(area: Area, slots: Seq<Area>)
    ensures
        area.width < 80 ==> (is_gauge_layout(area, slots) <==> exists|
            rows: Seq<Area>,
            top: Seq<Area>,
            bottom: Seq<Area>,
        |
            #![trigger split_outcome(area, Axis::Vertical, half_portions(), rows), split_outcome(rows[0], Axis::Horizontal, half_portions(), top), split_outcome(rows[1], Axis::Horizontal, half_portions(), bottom)]
            rows.len() == 2 && top.len() == 2 && bottom.len() == 2 && split_outcome(
                area,
                Axis::Vertical,
                half_portions(),
                rows,
            ) && split_outcome(
                rows[0],
                Axis::Horizontal,
                half_portions(),
                top,
            ) && split_outcome(
                rows[1],
                Axis::Horizontal,
                half_portions(),
                bottom,
            ) && slots.len() == 4 && slots[0] == top[0] && slots[1] == top[1] && slots[2]
                == bottom[0] && slots[3] == bottom[1]),
        area.width >= 80 ==> (is_gauge_layout(area, slots) <==> exists|cols: Seq<Area>|
            #![trigger split_outcome(area, Axis::Horizontal, quarter_portions(), cols)]
            cols.len() == 4 && split_outcome(
                area,
                Axis::Horizontal,
                quarter_portions(),
                cols,
            ) && slots.len() == 4 && slots[0] == cols[0] && slots[1] == cols[1] && slots[2]
                == cols[2] && slots[3] == cols[3]),
{
    lemma_portions();
    if area.width < 80 {
        if is_gauge_layout(area, slots) {
            let (rows, top, bottom) = choose|rows: Seq<Area>, top: Seq<Area>, bottom: Seq<Area>|
                rows.len() == 2 && top.len() == 2 && bottom.len() == 2 && split_outcome(
                    area,
                    Axis::Vertical,
                    half_portions(),
                    rows,
                ) && split_outcome(rows[0], Axis::Horizontal, half_portions(), top)
                    && split_outcome(rows[1], Axis::Horizontal, half_portions(), bottom) && slots
                    == seq![top[0], top[1], bottom[0], bottom[1]];
            assert(slots[0] == top[0] && slots[1] == top[1] && slots[2] == bottom[0] && slots[3] == bottom[1]);
        }
        assert forall|rows: Seq<Area>, top: Seq<Area>, bottom: Seq<Area>|
            rows.len() == 2 && top.len() == 2 && bottom.len() == 2 && split_outcome(
                area,
                Axis::Vertical,
                half_portions(),
                rows,
            ) && split_outcome(rows[0], Axis::Horizontal, half_portions(), top) && split_outcome(
                rows[1],
                Axis::Horizontal,
                half_portions(),
                bottom,
            ) && slots.len() == 4 && slots[0] == top[0] && slots[1] == top[1] && slots[2]
                == bottom[0] && slots[3] == bottom[1] implies is_gauge_layout(area, slots) by {
            assert(slots =~= seq![top[0], top[1], bottom[0], bottom[1]]);
        }
    } else {
        if is_gauge_layout(area, slots) {
            let cols = choose|cols: Seq<Area>|
                cols.len() == 4 && split_outcome(area, Axis::Horizontal, quarter_portions(), cols)
                    && slots == cols;
            assert(slots[0] == cols[0] && slots[3] == cols[3]);
        }
        assert forall|cols: Seq<Area>|
            cols.len() == 4 && split_outcome(area, Axis::Horizontal, quarter_portions(), cols)
                && slots.len() == 4 && slots[0] == cols[0] && slots[1] == cols[1] && slots[2]
                == cols[2] && slots[3] == cols[3] implies is_gauge_layout(area, slots) by {
            assert(slots =~= cols);
        }
    }
}

} // verus!
