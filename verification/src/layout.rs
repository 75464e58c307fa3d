//! Where the parts of the screen go: the table, the input bars, the filter
//! popup, the status bar, the help and the palette.

use vstd::prelude::*;

verus! {

/// A part of the screen.
#[derive(PartialEq, Eq, Structural, Clone, Copy, Debug)]
pub enum Part {
    Help,
    Table,
    Edit,
    Command,
    Search,
    Replace,
    Filter,
    Status,
    Palette,
}

/// A rectangle of the screen given to a part.
#[derive(PartialEq, Eq, Structural, Clone, Copy, Debug)]
pub struct Area {
    pub part: Part,
    pub x: u16,
    pub y: u16,
    pub width: u16,
    pub height: u16,
}

/// The height of the status bar and of each input bar.
pub const BAR_HEIGHT: u16 = 3;

/// The height of the help overlay's area.
pub const HELP_HEIGHT: u16 = 30;

/// The height of the filter popup.
pub const FILTER_HEIGHT: u16 = 15;

/// Which bars and overlays are open.
#[derive(PartialEq, Eq, Structural, Clone, Copy, Debug)]
pub struct Open {
    pub help: bool,
    pub search: bool,
    pub edit: bool,
    pub command: bool,
    pub replace: bool,
    pub filter: bool,
}

/// The height the open input bars and the filter popup take together.
pub open spec fn inputs_height(o: Open) -> int {
    (if o.search {
        BAR_HEIGHT as int
    } else {
        0
    }) + (if o.edit {
        BAR_HEIGHT as int
    } else {
        0
    }) + (if o.command {
        BAR_HEIGHT as int
    } else {
        0
    }) + (if o.replace {
        BAR_HEIGHT as int
    } else {
        0
    }) + (if o.filter {
        FILTER_HEIGHT as int
    } else {
        0
    })
}

/// `area` if the part is open, nothing otherwise.
pub open spec fn if_open(open: bool, a: Area) -> Seq<Area> {
    if open {
        seq![a]
    } else {
        seq![]
    }
}

/// The screen's parts, top to bottom, on a screen of `width` by `height`:
/// with the help open, the help alone; otherwise the table, as tall as
/// what the bars leave (or nothing), then the edit, command, search and
/// replace bars and the filter popup that are open, each under the one
/// before, and the status bar at the bottom.
pub open spec fn screen_parts(width: u16, height: u16, o: Open) -> Seq<Area> {
    if o.help {
        seq![Area { part: Part::Help, x: 0, y: 0, width, height: HELP_HEIGHT }]
    } else {
        let t = if height >= BAR_HEIGHT + inputs_height(o) {
            height - BAR_HEIGHT - inputs_height(o)
        } else {
            0
        };
        let e = t + if o.edit {
            BAR_HEIGHT as int
        } else {
            0
        };
        let c = e + if o.command {
            BAR_HEIGHT as int
        } else {
            0
        };
        let s = c + if o.search {
            BAR_HEIGHT as int
        } else {
            0
        };
        let r = s + if o.replace {
            BAR_HEIGHT as int
        } else {
            0
        };
        seq![Area { part: Part::Table, x: 0, y: 0, width, height: t as u16 }] + if_open(
            o.edit,
            Area { part: Part::Edit, x: 0, y: t as u16, width, height: BAR_HEIGHT },
        ) + if_open(o.command, Area { part: Part::Command, x: 0, y: e as u16, width, height: BAR_HEIGHT })
            + if_open(o.search, Area { part: Part::Search, x: 0, y: c as u16, width, height: BAR_HEIGHT })
            + if_open(o.replace, Area { part: Part::Replace, x: 0, y: s as u16, width, height: BAR_HEIGHT })
            + if_open(o.filter, Area { part: Part::Filter, x: 0, y: r as u16, width, height: FILTER_HEIGHT })
            + seq![Area { part: Part::Status, x: 0, y: (height - BAR_HEIGHT) as u16, width, height: BAR_HEIGHT }]
    }
}

fn push_if(v: &mut Vec<Area>, open: bool, a: Area)
    ensures
        final(v)@ == old(v)@ + if_open(open, a),
{
    if open {
        v.push(a);
    } else {
        assert(old(v)@ + if_open(open, a) =~= old(v)@);
    }
}

/// Lays out the screen (see `screen_parts`); the status bar needs a screen
/// at least as tall as itself where the help is closed.
pub fn screen_layout(width: u16, height: u16, o: Open) -> (areas: Vec<Area>)
    requires
        o.help || height >= BAR_HEIGHT,
    ensures
        areas@ == screen_parts(width, height, o),
{
    let mut areas: Vec<Area> = Vec::new();
    if o.help {
        areas.push(Area { part: Part::Help, x: 0, y: 0, width, height: HELP_HEIGHT });
        assert(areas@ =~= screen_parts(width, height, o));
        return areas;
    }
    let total: u16 = (if o.search {
        BAR_HEIGHT
    } else {
        0
    }) + (if o.edit {
        BAR_HEIGHT
    } else {
        0
    }) + (if o.command {
        BAR_HEIGHT
    } else {
        0
    }) + (if o.replace {
        BAR_HEIGHT
    } else {
        0
    }) + (if o.filter {
        FILTER_HEIGHT
    } else {
        0
    });
    let t: u16 = if height >= BAR_HEIGHT + total {
        height - (BAR_HEIGHT + total)
    } else {
        0
    };
    areas.push(Area { part: Part::Table, x: 0, y: 0, width, height: t });
    let mut y: u16 = t;
    push_if(&mut areas, o.edit, Area { part: Part::Edit, x: 0, y, width, height: BAR_HEIGHT });
    if o.edit {
        y = y + BAR_HEIGHT;
    }
    push_if(&mut areas, o.command, Area { part: Part::Command, x: 0, y, width, height: BAR_HEIGHT });
    if o.command {
        y = y + BAR_HEIGHT;
    }
    push_if(&mut areas, o.search, Area { part: Part::Search, x: 0, y, width, height: BAR_HEIGHT });
    if o.search {
        y = y + BAR_HEIGHT;
    }
    push_if(&mut areas, o.replace, Area { part: Part::Replace, x: 0, y, width, height: BAR_HEIGHT });
    if o.replace {
        y = y + BAR_HEIGHT;
    }
    push_if(&mut areas, o.filter, Area { part: Part::Filter, x: 0, y, width, height: FILTER_HEIGHT });
    areas.push(Area { part: Part::Status, x: 0, y: height - BAR_HEIGHT, width, height: BAR_HEIGHT });
    assert(areas@ =~= screen_parts(width, height, o));
    areas
}

/// The palette's area: 50 columns wide, four rows taller than its
/// commands (15 at most), in the middle of the screen.
pub open spec fn palette_place(width: u16, height: u16, commands: nat) -> Area {
    let h: int = if commands + 4 < 15 {
        commands + 4int
    } else {
        15
    };
    Area {
        part: Part::Palette,
        x: ((width - 50) / 2) as u16,
        y: ((height - h) / 2) as u16,
        width: 50,
        height: h as u16,
    }
}

/// Places the palette (see `palette_place`) for `commands` listed
/// commands; the screen has to hold it.
pub fn palette_area(width: u16, height: u16, commands: usize) -> (a: Area)
    requires
        commands + 4 <= u16::MAX,
        width >= 50,
        height >= (if commands + 4 < 15 {
            commands + 4
        } else {
            15
        }),
    ensures
        a == palette_place(width, height, commands as nat),
{
    let n = commands as u16;
    let h: u16 = if n + 4 < 15 {
        n + 4
    } else {
        15
    };
    Area { part: Part::Palette, x: (width - 50) / 2, y: (height - h) / 2, width: 50, height: h }
}

/// How many table rows to draw in a table area `area_height` tall, from
/// display row `scroll` of `rows` rows: as many as fit below the header
/// and the borders and are left, and at least one.
pub open spec fn shown_rows(area_height: u16, rows: nat, scroll: nat) -> nat {
    let room: nat = if area_height >= 3 {
        (area_height - 3) as nat
    } else {
        0
    };
    let left: nat = if rows >= scroll {
        (rows - scroll) as nat
    } else {
        0
    };
    let n = if room <= left {
        room
    } else {
        left
    };
    if n >= 1 {
        n
    } else {
        1
    }
}

/// The number of table rows to draw (see `shown_rows`).
pub fn visible_row_count(area_height: u16, rows: usize, scroll: usize) -> (n: usize)
    ensures
        n == shown_rows(area_height, rows as nat, scroll as nat),
{
    let room: usize = if area_height >= 3 {
        (area_height - 3) as usize
    } else {
        0
    };
    let left: usize = if rows >= scroll {
        rows - scroll
    } else {
        0
    };
    let n = if room <= left {
        room
    } else {
        left
    };
    if n >= 1 {
        n
    } else {
        1
    }
}

/// The width a column is drawn at: its widest cell (with room around it)
/// or its header, whichever is wider, and 30 at most.
pub open spec fn drawn_width(cell_width: nat, header_width: nat) -> nat {
    let w = if cell_width >= header_width {
        cell_width
    } else {
        header_width
    };
    if w <= 30 {
        w
    } else {
        30
    }
}

/// The width a column is drawn at (see `drawn_width`).
pub fn column_draw_width(cell_width: usize, header_width: usize) -> (w: u16)
    ensures
        w == drawn_width(cell_width as nat, header_width as nat),
{
    let w = if cell_width >= header_width {
        cell_width
    } else {
        header_width
    };
    if w <= 30 {
        w as u16
    } else {
        30
    }
}

/// The filter values the popup shows in an area `area_height` tall: those
/// from `start` up to (not including) `end`, where as many rows as fit
/// inside the borders, title and footer are centred on the cursor as far as
/// the list lets them.
pub open spec fn filter_rows(area_height: u16, cursor: nat, count: nat) -> (nat, nat) {
    let room: nat = if area_height >= 4 {
        (area_height - 4) as nat
    } else {
        0
    };
    let start: nat = if cursor >= room / 2 {
        (cursor - room / 2) as nat
    } else {
        0
    };
    let end: nat = if start + room <= count {
        start + room
    } else {
        count
    };
    (start, end)
}

/// The filter values to show (see `filter_rows`).
pub fn filter_window(area_height: u16, cursor: usize, count: usize) -> (w: (usize, usize))
    requires
        cursor + area_height <= usize::MAX,
    ensures
        (w.0 as nat, w.1 as nat) == filter_rows(area_height, cursor as nat, count as nat),
{
    let room: usize = if area_height >= 4 {
        (area_height - 4) as usize
    } else {
        0
    };
    let start: usize = if cursor >= room / 2 {
        cursor - room / 2
    } else {
        0
    };
    let end: usize = if start + room <= count {
        start + room
    } else {
        count
    };
    (start, end)
}

/// Whether display row `row` is in one of the duplicate groups, and so is
/// drawn highlighted.
pub open spec fn marked_duplicate(groups: Seq<(usize, Vec<usize>)>, row: usize) -> bool {
    exists|i: int, j: int|
        0 <= i < groups.len() && 0 <= j < groups[i].1@.len() && #[trigger] groups[i].1@[j] == row
}

/// Whether display row `row` is in one of the duplicate groups.
pub fn is_marked_duplicate(groups: &[(usize, Vec<usize>)], row: usize) -> (b: bool)
    ensures
        b == marked_duplicate(groups@, row),
{
    let mut i: usize = 0;
    while i < groups.len()
        invariant
            i <= groups@.len(),
            forall|a: int, k: int|
                0 <= a < i && 0 <= k < groups@[a].1@.len() ==> #[trigger] groups@[a].1@[k] != row,
        decreases groups@.len() - i,
    {
        let members = &groups[i].1;
        let mut j: usize = 0;
        while j < members.len()
            invariant
                i < groups@.len(),
                *members == groups@[i as int].1,
                j <= members@.len(),
                forall|k: int| 0 <= k < j ==> #[trigger] members@[k] != row,
            decreases members@.len() - j,
        {
            if members[j] == row {
                assert(groups@[i as int].1@[j as int] == row);
                return true;
            }
            j = j + 1;
        }
        i = i + 1;
    }
    false
}

/// The help box's area: 64 columns wide, two rows taller than its `lines`
/// of text, in the middle of the screen.
pub open spec fn help_place(width: u16, height: u16, lines: nat) -> Area {
    Area {
        part: Part::Help,
        x: ((width - 64) / 2) as u16,
        y: ((height - (lines + 2)) / 2) as u16,
        width: 64,
        height: (lines + 2) as u16,
    }
}

/// Places the help box (see `help_place`); the screen has to hold it.
pub fn help_area(width: u16, height: u16, lines: usize) -> (a: Area)
    requires
        width >= 64,
        lines + 2 <= height,
    ensures
        a == help_place(width, height, lines as nat),
{
    let h = lines as u16 + 2;
    Area { part: Part::Help, x: (width - 64) / 2, y: (height - h) / 2, width: 64, height: h }
}

} // verus!
