use sheetview::layout::{
    column_draw_width, filter_window, is_marked_duplicate, palette_area, screen_layout, visible_row_count, Area, Open, Part,
    BAR_HEIGHT,
};

fn closed() -> Open {
    Open { help: false, search: false, edit: false, command: false, replace: false, filter: false }
}

#[test]
fn layout_table_and_status_only() {
    let areas = screen_layout(80, 24, closed());
    assert_eq!(
        areas,
        vec![
            Area { part: Part::Table, x: 0, y: 0, width: 80, height: 21 },
            Area { part: Part::Status, x: 0, y: 21, width: 80, height: BAR_HEIGHT },
        ]
    );
}

#[test]
fn layout_bars_stack_under_the_table() {
    let mut open = closed();
    open.search = true;
    open.edit = true;
    open.filter = true;
    let areas = screen_layout(80, 40, open);
    assert_eq!(
        areas,
        vec![
            Area { part: Part::Table, x: 0, y: 0, width: 80, height: 16 },
            Area { part: Part::Edit, x: 0, y: 16, width: 80, height: 3 },
            Area { part: Part::Search, x: 0, y: 19, width: 80, height: 3 },
            Area { part: Part::Filter, x: 0, y: 22, width: 80, height: 15 },
            Area { part: Part::Status, x: 0, y: 37, width: 80, height: 3 },
        ]
    );
}

#[test]
fn layout_short_screen_gives_the_table_nothing() {
    let mut open = closed();
    open.command = true;
    let areas = screen_layout(80, 4, open);
    assert_eq!(areas[0], Area { part: Part::Table, x: 0, y: 0, width: 80, height: 0 });
    assert_eq!(areas[1], Area { part: Part::Command, x: 0, y: 0, width: 80, height: 3 });
    assert_eq!(areas[2], Area { part: Part::Status, x: 0, y: 1, width: 80, height: 3 });
}

#[test]
fn layout_help_covers_the_screen() {
    let mut open = closed();
    open.help = true;
    open.search = true;
    let areas = screen_layout(100, 2, open);
    assert_eq!(areas, vec![Area { part: Part::Help, x: 0, y: 0, width: 100, height: 30 }]);
}

#[test]
fn palette_sits_in_the_middle() {
    let a = palette_area(100, 40, 5);
    assert_eq!((a.x, a.y, a.width, a.height), (25, 15, 50, 9));
    let b = palette_area(50, 15, 13);
    assert_eq!((b.x, b.y, b.width, b.height), (0, 0, 50, 15));
}

#[test]
fn visible_rows_fit_the_area() {
    assert_eq!(visible_row_count(10, 100, 0), 7);
    assert_eq!(visible_row_count(2, 100, 0), 1);
    assert_eq!(visible_row_count(20, 5, 3), 2);
    assert_eq!(visible_row_count(20, 5, 9), 1);
}

#[test]
fn drawn_column_width_is_capped() {
    assert_eq!(column_draw_width(40, 3), 30);
    assert_eq!(column_draw_width(5, 8), 8);
    assert_eq!(column_draw_width(12, 4), 12);
}

#[test]
fn filter_popup_centres_the_cursor() {
    assert_eq!(filter_window(15, 0, 40), (0, 11));
    assert_eq!(filter_window(15, 20, 40), (15, 26));
    assert_eq!(filter_window(15, 38, 40), (33, 40));
    assert_eq!(filter_window(3, 5, 40), (5, 5));
}

#[test]
fn duplicate_rows_are_marked() {
    let groups = vec![(1usize, vec![1usize, 4]), (2, vec![2, 3, 7])];
    assert!(is_marked_duplicate(&groups, 4));
    assert!(is_marked_duplicate(&groups, 7));
    assert!(!is_marked_duplicate(&groups, 5));
    assert!(!is_marked_duplicate(&[], 0));
}

#[test]
fn help_box_sits_in_the_middle() {
    let a = sheetview::layout::help_area(100, 40, 28);
    assert_eq!((a.x, a.y, a.width, a.height), (18, 5, 64, 30));
}
