use sheetview::app::{calculate_column_width, parse_command, App, Command, Effect, KeyCode, KeyEvent};
use sheetview::data::{file_kind, open_file, DataSourceType, FileContents, FileKind};
use sheetview::matching::{cell_matches, replacement_text};

fn sheet(csv: &str) -> DataSourceType {
    open_file(
        "people.csv".to_string(),
        Some("people.csv".to_string()),
        None,
        FileContents::Text(csv.as_bytes().to_vec()),
    )
    .expect("the sheet opens")
}

fn viewer(csv: &str) -> App {
    App::new(sheet(csv))
}

fn key(app: &mut App, code: KeyCode) -> Effect {
    app.handle_key_checked(KeyEvent { code, ctrl: false, press: true }, 0).expect("the key is handled")
}

fn ctrl(app: &mut App, c: char) -> Effect {
    app.handle_key_checked(KeyEvent { code: KeyCode::Char(c), ctrl: true, press: true }, 0)
        .expect("the key is handled")
}

fn typed(app: &mut App, text: &str) {
    for c in text.chars() {
        key(app, KeyCode::Char(c));
    }
}

fn command(app: &mut App, line: &str) -> Effect {
    key(app, KeyCode::Char(':'));
    typed(app, line);
    key(app, KeyCode::Enter)
}

fn message(app: &App) -> String {
    app.message().cloned().unwrap_or_default()
}

fn column(app: &App, col: usize) -> Vec<String> {
    (0..app.row_count()).map(|d| app.get_display_cell(d, col).unwrap_or_default()).collect()
}

const PEOPLE: &str = "name,age\nbob,3\nal,1\ncy,2\n";

#[test]
fn opens_a_csv_sheet() {
    let app = viewer(PEOPLE);
    assert_eq!(app.row_count(), 3);
    assert_eq!(app.data().headers(), &["name".to_string(), "age".to_string()][..]);
    assert_eq!(column(&app, 0), vec!["bob", "al", "cy"]);
    assert_eq!(app.get_display_row(1), Some(vec!["al".to_string(), "1".to_string()]));
    assert_eq!(app.get_display_row(3), None);
    assert_eq!(app.message(), None);
}

#[test]
fn opens_with_a_delimiter() {
    let data = open_file(
        "t.tsv".to_string(),
        None,
        Some(';'),
        FileContents::Text(b"a;b\n1;2\n".to_vec()),
    )
    .unwrap();
    assert_eq!(data.headers(), &["a".to_string(), "b".to_string()][..]);
    assert_eq!(data.get_cell(0, 1), Some("2".to_string()));
    assert_eq!(data.file_name(), "unknown");
}

#[test]
fn workbook_without_sheets_is_refused() {
    let r = open_file(
        "b.xlsx".to_string(),
        None,
        None,
        FileContents::Workbook { sheet_names: vec![], first_sheet: vec![] },
    );
    assert_eq!(r.err(), Some("No sheets found".to_string()));
}

#[test]
fn file_kinds() {
    assert_eq!(file_kind(Some("XLSX")), FileKind::Excel);
    assert_eq!(file_kind(Some("xls")), FileKind::Excel);
    assert_eq!(file_kind(Some("xlsm")), FileKind::Excel);
    assert_eq!(file_kind(Some("csv")), FileKind::Csv);
    assert_eq!(file_kind(None), FileKind::Csv);
}

#[test]
fn sorts_by_the_selected_column_and_back() {
    let mut app = viewer(PEOPLE);
    key(&mut app, KeyCode::Char('s'));
    assert_eq!(column(&app, 0), vec!["al", "bob", "cy"]);
    assert_eq!(message(&app), "Sorted by [1:asc]");
    key(&mut app, KeyCode::Char('s'));
    assert_eq!(column(&app, 0), vec!["cy", "bob", "al"]);
    assert_eq!(message(&app), "Sorted by [1:desc]");
    key(&mut app, KeyCode::Char('R'));
    assert_eq!(column(&app, 0), vec!["bob", "al", "cy"]);
    assert_eq!(message(&app), "Sort cleared");
}

#[test]
fn sort_is_stable_and_multi_column() {
    let mut app = viewer("k,v\nb,2\na,2\nb,1\na,1\n");
    key(&mut app, KeyCode::Char('l'));
    key(&mut app, KeyCode::Char('s'));
    assert_eq!(column(&app, 0), vec!["b", "a", "b", "a"]);
    assert_eq!(column(&app, 1), vec!["1", "1", "2", "2"]);
    key(&mut app, KeyCode::Char('h'));
    key(&mut app, KeyCode::Char('s'));
    assert_eq!(message(&app), "Sorted by [2:asc, 1:asc]");
    assert_eq!(column(&app, 0), vec!["a", "b", "a", "b"]);
    assert_eq!(column(&app, 1), vec!["1", "1", "2", "2"]);
}

#[test]
fn searches_and_steps_through_results() {
    let mut app = viewer("a,b\nxx,1\nyy,x\nzz,2\n");
    key(&mut app, KeyCode::Char('/'));
    assert!(app.search_active());
    typed(&mut app, "X");
    assert_eq!(app.search_query(), "X");
    key(&mut app, KeyCode::Enter);
    assert!(!app.search_active());
    assert_eq!(message(&app), "[1/2] Found 2 matches");
    assert_eq!((app.selected_row(), app.selected_col()), (0, 0));
    key(&mut app, KeyCode::Char('n'));
    assert_eq!(message(&app), "[2/2]");
    assert_eq!((app.selected_row(), app.selected_col()), (1, 1));
    key(&mut app, KeyCode::Char('n'));
    assert_eq!(message(&app), "[1/2]");
    key(&mut app, KeyCode::Char('N'));
    assert_eq!(message(&app), "[2/2]");
}

#[test]
fn case_sensitive_search_finds_nothing() {
    let mut app = viewer("a\nHello\n");
    ctrl(&mut app, 'c');
    key(&mut app, KeyCode::Char('/'));
    typed(&mut app, "hello");
    key(&mut app, KeyCode::Enter);
    assert_eq!(message(&app), "No matches found");
    ctrl(&mut app, 'c');
    assert_eq!(message(&app), "[1/1] Found 1 matches");
}

#[test]
fn regex_search() {
    let mut app = viewer("a\nbob\nrob\nbill\n");
    key(&mut app, KeyCode::Char('/'));
    key(&mut app, KeyCode::Char('R'));
    assert_eq!(message(&app), "Regex mode: ON");
    typed(&mut app, "^b.*b$");
    key(&mut app, KeyCode::Enter);
    assert_eq!(message(&app), "[1/1] Found 1 matches");
    assert_eq!(app.selected_row(), 0);
}

#[test]
fn search_in_one_column() {
    let mut app = viewer("a,b\nq,x\nx,q\n");
    key(&mut app, KeyCode::Char('/'));
    key(&mut app, KeyCode::Char('f'));
    assert_eq!(message(&app), "Searching column 1 only");
    typed(&mut app, "x");
    key(&mut app, KeyCode::Enter);
    assert_eq!(message(&app), "[1/1] Found 1 matches");
    assert_eq!(app.selected_row(), 1);
}

#[test]
fn c_scopes_the_search_to_the_column() {
    let mut app = viewer("a,b\nq,x\nx,q\n");
    key(&mut app, KeyCode::Char('l'));
    key(&mut app, KeyCode::Char('/'));
    typed(&mut app, "q");
    key(&mut app, KeyCode::Char('c'));
    assert_eq!(message(&app), "Searching column 2 only");
    assert_eq!(app.search_query(), "q");
    key(&mut app, KeyCode::Enter);
    assert_eq!(message(&app), "[1/1] Found 1 matches");
    assert_eq!(app.selected_row(), 1);
    key(&mut app, KeyCode::Char('/'));
    key(&mut app, KeyCode::Char('c'));
    assert_eq!(message(&app), "Searching column 2 only");
    key(&mut app, KeyCode::Char('c'));
    assert_eq!(message(&app), "Searching all columns");
    assert_eq!(app.search_query(), "");
}

#[test]
fn search_backspace_and_escape() {
    let mut app = viewer(PEOPLE);
    key(&mut app, KeyCode::Char('/'));
    typed(&mut app, "ab");
    key(&mut app, KeyCode::Backspace);
    assert_eq!(app.search_query(), "a");
    key(&mut app, KeyCode::Esc);
    assert!(!app.search_active());
    assert_eq!(app.search_query(), "");
}

#[test]
fn edits_a_cell_then_undoes_and_redoes() {
    let mut app = viewer(PEOPLE);
    key(&mut app, KeyCode::Enter);
    assert!(app.edit_mode());
    assert_eq!(app.edit_buffer(), "bob");
    key(&mut app, KeyCode::Backspace);
    typed(&mut app, "x");
    assert_eq!(app.edit_buffer(), "box");
    key(&mut app, KeyCode::Enter);
    assert!(!app.edit_mode());
    assert_eq!(message(&app), "Edited: box");
    assert_eq!(app.get_display_cell(0, 0), Some("box".to_string()));
    key(&mut app, KeyCode::Char('u'));
    assert_eq!(app.get_display_cell(0, 0), Some("bob".to_string()));
    assert_eq!(message(&app), "Undo: cell changed to 'bob'");
    key(&mut app, KeyCode::Char('r'));
    assert_eq!(app.get_display_cell(0, 0), Some("box".to_string()));
    assert_eq!(message(&app), "Redo: cell changed to 'box'");
    key(&mut app, KeyCode::Char('r'));
    assert_eq!(message(&app), "Nothing to redo");
}

#[test]
fn nothing_to_undo() {
    let mut app = viewer(PEOPLE);
    key(&mut app, KeyCode::Char('u'));
    assert_eq!(message(&app), "Nothing to undo");
}

#[test]
fn unchanged_edit_records_nothing() {
    let mut app = viewer(PEOPLE);
    key(&mut app, KeyCode::Char('i'));
    key(&mut app, KeyCode::Enter);
    assert_eq!(app.message(), None);
    key(&mut app, KeyCode::Char('u'));
    assert_eq!(message(&app), "Nothing to undo");
}

#[test]
fn deletes_and_restores_a_row() {
    let mut app = viewer(PEOPLE);
    key(&mut app, KeyCode::Char('j'));
    key(&mut app, KeyCode::Char('x'));
    assert_eq!(message(&app), "Deleted row 2");
    assert_eq!(column(&app, 0), vec!["bob", "cy"]);
    key(&mut app, KeyCode::Char('u'));
    assert_eq!(message(&app), "Undo: restored row 2");
    assert_eq!(column(&app, 0), vec!["bob", "al", "cy"]);
    assert_eq!(app.get_display_row(1), Some(vec!["al".to_string(), "1".to_string()]));
    key(&mut app, KeyCode::Char('r'));
    assert_eq!(message(&app), "Redo: deleted row 2");
    assert_eq!(column(&app, 0), vec!["bob", "cy"]);
}

#[test]
fn inserts_rows_below_and_above() {
    let mut app = viewer(PEOPLE);
    key(&mut app, KeyCode::Char('o'));
    assert_eq!(message(&app), "Inserted row below 2");
    assert_eq!(column(&app, 0), vec!["bob", "", "al", "cy"]);
    key(&mut app, KeyCode::Char('u'));
    assert_eq!(message(&app), "Undo: deleted inserted row 2");
    assert_eq!(column(&app, 0), vec!["bob", "al", "cy"]);
    key(&mut app, KeyCode::Char('O'));
    assert_eq!(message(&app), "Inserted row above 1");
    assert_eq!(column(&app, 0), vec!["", "bob", "al", "cy"]);
}

#[test]
fn copies_cuts_and_pastes_cells() {
    let mut app = viewer(PEOPLE);
    key(&mut app, KeyCode::Char('p'));
    assert_eq!(message(&app), "Clipboard empty");
    let e = key(&mut app, KeyCode::Char('y'));
    assert!(matches!(e, Effect::Clipboard { ref text } if text == "bob"));
    assert_eq!(message(&app), "Copied: bob");
    key(&mut app, KeyCode::Char('p'));
    assert_eq!(message(&app), "No change to paste");
    key(&mut app, KeyCode::Char('j'));
    key(&mut app, KeyCode::Char('p'));
    assert_eq!(message(&app), "Pasted: bob");
    assert_eq!(column(&app, 0), vec!["bob", "bob", "cy"]);
    let e = key(&mut app, KeyCode::Char('d'));
    assert!(matches!(e, Effect::Clipboard { ref text } if text == "bob"));
    assert_eq!(message(&app), "Cut: bob");
    assert_eq!(column(&app, 0), vec!["bob", "", "cy"]);
    key(&mut app, KeyCode::Char('u'));
    assert_eq!(column(&app, 0), vec!["bob", "bob", "cy"]);
}

#[test]
fn copies_and_pastes_rows() {
    let mut app = viewer(PEOPLE);
    key(&mut app, KeyCode::Char('P'));
    assert_eq!(message(&app), "No row in clipboard");
    let e = key(&mut app, KeyCode::Char('Y'));
    assert!(matches!(e, Effect::Clipboard { ref text } if text == "bob\t3"));
    assert_eq!(message(&app), "Copied row 1: bob, 3");
    key(&mut app, KeyCode::Char('G'));
    key(&mut app, KeyCode::Char('P'));
    assert_eq!(message(&app), "Pasted row: bob, 3");
    assert_eq!(column(&app, 0), vec!["bob", "al", "cy", "bob"]);
    key(&mut app, KeyCode::Char('u'));
    assert_eq!(message(&app), "Undo: deleted inserted row 4");
    assert_eq!(column(&app, 0), vec!["bob", "al", "cy"]);
    key(&mut app, KeyCode::Char('r'));
    assert_eq!(message(&app), "Redo: inserted row 4");
    assert_eq!(column(&app, 0), vec!["bob", "al", "cy", "bob"]);
    assert_eq!(app.get_display_row(3), Some(vec!["bob".to_string(), "3".to_string()]));
}

#[test]
fn redo_inserts_the_blank_row_again() {
    let mut app = viewer(PEOPLE);
    key(&mut app, KeyCode::Char('j'));
    key(&mut app, KeyCode::Char('o'));
    assert_eq!(column(&app, 0), vec!["bob", "al", "", "cy"]);
    key(&mut app, KeyCode::Char('u'));
    assert_eq!(column(&app, 0), vec!["bob", "al", "cy"]);
    key(&mut app, KeyCode::Char('r'));
    assert_eq!(message(&app), "Redo: inserted row 3");
    assert_eq!(column(&app, 0), vec!["bob", "al", "", "cy"]);
    assert_eq!(app.get_display_row(2), Some(vec![String::new(), String::new()]));
}

#[test]
fn inserts_below_the_selected_sheet_row_after_a_sort() {
    let mut app = viewer(PEOPLE);
    key(&mut app, KeyCode::Char('s'));
    assert_eq!(column(&app, 0), vec!["al", "bob", "cy"]);
    key(&mut app, KeyCode::Char('o'));
    assert_eq!(message(&app), "Inserted row below 3");
    assert_eq!(column(&app, 0), vec!["bob", "al", "", "cy"]);
}

#[test]
fn moves_with_counts_and_jumps() {
    let csv: String = std::iter::once("n".to_string())
        .chain((0..50).map(|i| i.to_string()))
        .collect::<Vec<_>>()
        .join("\n");
    let mut app = viewer(&csv);
    typed(&mut app, "25j");
    assert_eq!(app.selected_row(), 25);
    assert_eq!(app.scroll_offset(), 6);
    typed(&mut app, "5k");
    assert_eq!(app.selected_row(), 20);
    typed(&mut app, "G");
    assert_eq!(app.selected_row(), 49);
    typed(&mut app, "10G");
    assert_eq!(app.selected_row(), 9);
    ctrl(&mut app, 'f');
    assert_eq!(app.selected_row(), 29);
    ctrl(&mut app, 'b');
    assert_eq!(app.selected_row(), 9);
    ctrl(&mut app, 'g');
    assert_eq!((app.selected_row(), app.scroll_offset()), (0, 0));
    typed(&mut app, "k");
    assert_eq!(app.selected_row(), 0);
}

#[test]
fn double_g_within_half_a_second() {
    let mut app = viewer(PEOPLE);
    typed(&mut app, "2j");
    let g = KeyEvent { code: KeyCode::Char('g'), ctrl: false, press: true };
    app.handle_key_checked(g, 1000).unwrap();
    app.handle_key_checked(g, 1700).unwrap();
    assert_eq!(app.selected_row(), 2);
    app.handle_key_checked(g, 1900).unwrap();
    assert_eq!(app.selected_row(), 0);
}

#[test]
fn moves_between_columns() {
    let mut app = viewer("a,b,c\n1,2,3\n");
    typed(&mut app, "$");
    assert_eq!(app.selected_col(), 2);
    typed(&mut app, "0");
    assert_eq!(app.selected_col(), 0);
    typed(&mut app, "9l");
    assert_eq!(app.selected_col(), 2);
    typed(&mut app, "h");
    assert_eq!(app.selected_col(), 1);
    key(&mut app, KeyCode::Right);
    key(&mut app, KeyCode::Left);
    assert_eq!(app.selected_col(), 1);
}

#[test]
fn releases_are_ignored() {
    let mut app = viewer(PEOPLE);
    let e = app
        .handle_key_checked(KeyEvent { code: KeyCode::Char('j'), ctrl: false, press: false }, 0)
        .unwrap();
    assert!(matches!(e, Effect::Nothing));
    assert_eq!(app.selected_row(), 0);
}

#[test]
fn help_toggles() {
    let mut app = viewer(PEOPLE);
    key(&mut app, KeyCode::Char('?'));
    assert!(app.show_help());
    key(&mut app, KeyCode::Char('j'));
    assert_eq!(app.selected_row(), 0);
    key(&mut app, KeyCode::Esc);
    assert!(!app.show_help());
}

#[test]
fn quits_and_warns_of_unsaved_edits() {
    let mut app = viewer(PEOPLE);
    key(&mut app, KeyCode::Char('q'));
    assert!(app.confirm_quit());

    let mut app = viewer(PEOPLE);
    key(&mut app, KeyCode::Char('x'));
    key(&mut app, KeyCode::Char('q'));
    assert!(!app.confirm_quit());
    command(&mut app, "q");
    assert!(!app.confirm_quit());
    assert_eq!(message(&app), "Warning: Unsaved changes. Use :q! to force quit.");
    command(&mut app, "q!");
    assert!(app.confirm_quit());
}

#[test]
fn saves_through_the_caller() {
    let mut app = viewer(PEOPLE);
    command(&mut app, "w");
    assert_eq!(message(&app), "File saved successfully");
    key(&mut app, KeyCode::Char('x'));
    let e = command(&mut app, "w");
    assert!(matches!(e, Effect::Save));
    app.finish_save(Err("disk full".to_string()));
    assert_eq!(message(&app), "Error saving: disk full");
    let e = ctrl(&mut app, 's');
    assert!(matches!(e, Effect::Save));
    app.finish_save(Ok(()));
    assert_eq!(message(&app), "File saved successfully");
    key(&mut app, KeyCode::Char('u'));
    assert_eq!(message(&app), "Nothing to undo");
    command(&mut app, "wq");
    assert!(app.confirm_quit());
}

#[test]
fn workbooks_are_not_saved() {
    let data = open_file(
        "b.xlsx".to_string(),
        Some("b.xlsx".to_string()),
        None,
        FileContents::Workbook {
            sheet_names: vec!["One".to_string(), "Two".to_string()],
            first_sheet: vec![vec!["h".to_string()], vec!["v".to_string()]],
        },
    )
    .unwrap();
    let mut app = App::new(data);
    let e = command(&mut app, "w");
    assert!(matches!(e, Effect::Nothing));
    assert_eq!(message(&app), "Error saving: Excel saving not supported yet");
}

#[test]
fn switches_sheets_of_a_workbook() {
    let data = open_file(
        "b.xlsx".to_string(),
        None,
        None,
        FileContents::Workbook {
            sheet_names: vec!["One".to_string(), "Two".to_string()],
            first_sheet: vec![vec!["h".to_string()], vec!["v".to_string()]],
        },
    )
    .unwrap();
    let mut app = App::new(data);
    assert_eq!(app.sheet_info(), (0, 2, vec!["One".to_string(), "Two".to_string()]));
    ctrl(&mut app, 'p');
    typed(&mut app, "sheet n");
    let e = key(&mut app, KeyCode::Enter);
    assert!(matches!(e, Effect::LoadSheet { index: 1 }));
    app.finish_sheet_switch(
        1,
        Ok(vec![
            vec!["x".to_string(), "y".to_string()],
            vec!["1".to_string(), "2".to_string()],
            vec!["3".to_string(), "4".to_string()],
        ]),
    );
    assert_eq!(app.sheet_info().0, 1);
    assert_eq!(app.row_count(), 2);
    assert_eq!(app.get_display_cell(1, 1), Some("4".to_string()));
    app.finish_sheet_switch(0, Err("cannot read".to_string()));
    assert_eq!(message(&app), "Error: cannot read");
    app.finish_sheet_switch(5, Ok(vec![]));
    assert_eq!(message(&app), "Error: Sheet index out of bounds");
    ctrl(&mut app, 'p');
    typed(&mut app, "sheet p");
    let e = key(&mut app, KeyCode::Enter);
    assert!(matches!(e, Effect::LoadSheet { index: 1 }));
}

#[test]
fn text_files_have_one_sheet() {
    let mut app = viewer(PEOPLE);
    ctrl(&mut app, 'p');
    typed(&mut app, "sheet n");
    let e = key(&mut app, KeyCode::Enter);
    assert!(matches!(e, Effect::Nothing));
    app.finish_sheet_switch(1, Ok(vec![]));
    assert_eq!(message(&app), "Error: CSV has only one sheet");
}

#[test]
fn exports_through_the_caller() {
    let mut app = viewer(PEOPLE);
    let e = command(&mut app, "export  Out.XLSX ");
    assert!(matches!(e, Effect::Export { ref path, excel: true } if path == "Out.XLSX"));
    let e = command(&mut app, "export out.csv");
    assert!(matches!(e, Effect::Export { ref path, excel: false } if path == "out.csv"));
    let (headers, rows) = app.export_table();
    assert_eq!(headers, vec!["name".to_string(), "age".to_string()]);
    assert_eq!(rows.len(), 3);
    app.finish_export("out.csv", Ok(()));
    assert_eq!(message(&app), "Exported 3 rows to out.csv");
    app.finish_export("out.csv", Err("Error creating file: denied".to_string()));
    assert_eq!(message(&app), "Error creating file: denied");
}

#[test]
fn reports_usage_and_unknown_commands() {
    let mut app = viewer(PEOPLE);
    command(&mut app, "zz top");
    assert_eq!(message(&app), "Unknown command: zz top");
    command(&mut app, "replace   ");
    assert_eq!(message(&app), "Unknown command: replace");
    assert!(!app.command_mode());
    key(&mut app, KeyCode::Char(':'));
    typed(&mut app, "ab");
    key(&mut app, KeyCode::Backspace);
    assert_eq!(app.command_buffer(), "a");
    key(&mut app, KeyCode::Esc);
    assert!(!app.command_mode());
    assert_eq!(app.command_buffer(), "");
}

#[test]
fn parses_commands() {
    assert!(matches!(parse_command(" q! "), Command::ForceQuit));
    assert!(matches!(parse_command("q"), Command::Quit));
    assert!(matches!(parse_command("w"), Command::Write));
    assert!(matches!(parse_command("wq"), Command::WriteQuit));
    assert!(matches!(parse_command("f"), Command::Filter));
    assert!(matches!(parse_command("replace a b"), Command::Replace { ref query, all: false } if query == "a b"));
    assert!(matches!(parse_command("replaceall x"), Command::Replace { ref query, all: true } if query == "x"));
    assert!(matches!(parse_command("export x"), Command::Export { ref path } if path == "x"));
    assert!(matches!(parse_command("nope"), Command::Report { ref text } if text == "Unknown command: nope"));
}

#[test]
fn replaces_the_current_match() {
    let mut app = viewer(PEOPLE);
    command(&mut app, "replace BOB");
    assert!(app.replace_active());
    assert_eq!(app.replace_query(), "BOB");
    assert!(!app.replace_all_mode());
    assert_eq!(message(&app), "Found 1 matches for 'BOB'. Press n/N to navigate, Enter to replace.");
    key(&mut app, KeyCode::Enter);
    assert_eq!(message(&app), "Enter replacement text first");
    typed(&mut app, "rob");
    assert_eq!(app.replace_with(), "rob");
    key(&mut app, KeyCode::Enter);
    assert!(!app.replace_active());
    assert_eq!(message(&app), "Replaced: 'bob' with 'rob'");
    assert_eq!(column(&app, 0), vec!["rob", "al", "cy"]);
    key(&mut app, KeyCode::Char('u'));
    assert_eq!(column(&app, 0), vec!["bob", "al", "cy"]);
}

#[test]
fn replaces_all_matches() {
    let mut app = viewer("a,b\nHello hello,x\ny,HELLO\n");
    command(&mut app, "replaceall hello");
    assert_eq!(message(&app), "Found 2 matches for 'hello'. Enter to replace all.");
    typed(&mut app, "hi");
    key(&mut app, KeyCode::Enter);
    assert_eq!(message(&app), "Replaced 2 occurrences");
    assert_eq!(app.get_display_cell(0, 0), Some("hi hi".to_string()));
    assert_eq!(app.get_display_cell(1, 1), Some("hi".to_string()));
    key(&mut app, KeyCode::Char('u'));
    assert_eq!(app.get_display_cell(1, 1), Some("HELLO".to_string()));
    key(&mut app, KeyCode::Char('u'));
    assert_eq!(app.get_display_cell(0, 0), Some("Hello hello".to_string()));
}

#[test]
fn replace_prompt_editing() {
    let mut app = viewer(PEOPLE);
    command(&mut app, "replace b");
    key(&mut app, KeyCode::Tab);
    typed(&mut app, "o");
    assert_eq!(app.replace_query(), "bo");
    assert_eq!(message(&app), "Found 1 matches");
    key(&mut app, KeyCode::Backspace);
    assert_eq!(app.replace_query(), "b");
    key(&mut app, KeyCode::Tab);
    typed(&mut app, "nN");
    assert_eq!(app.replace_with(), "nN");
    key(&mut app, KeyCode::Esc);
    assert!(!app.replace_active());
    assert_eq!(app.replace_query(), "");
}

#[test]
fn replacement_texts() {
    assert_eq!(replacement_text("Hello HELLO", "hello", "x", false, false), Some("x x".to_string()));
    assert_eq!(replacement_text("aXa", "X", "-", true, false), Some("a-a".to_string()));
    assert_eq!(replacement_text("a1b22", "[0-9]+", "#", true, true), Some("a#b#".to_string()));
    assert_eq!(replacement_text("abc", "(", "z", true, true), Some("z".to_string()));
    assert_eq!(replacement_text("\u{130}x", "x", "y", false, false), Some("\u{130}y".to_string()));
    assert_eq!(replacement_text("\u{130}ab", "a", "X", false, false), Some("\u{130}Xb".to_string()));
    assert_eq!(replacement_text("x\u{130}", "\u{130}", "-", false, false), Some("x-".to_string()));
    assert_eq!(replacement_text("aAa", "aa", "b", false, false), Some("ba".to_string()));
    assert!(cell_matches("Hello", "hell", false, false));
    assert!(!cell_matches("Hello", "hell", true, false));
    assert!(!cell_matches("Hello", "(", false, true));
}

#[test]
fn filters_by_column_values() {
    let mut app = viewer("k,v\nb,1\na,2\nb,3\n,4\n");
    command(&mut app, "f");
    let (active, open, col, values, ticks, cursor) = app.filter_info();
    assert!(!active && open);
    assert_eq!(col, Some(0));
    assert_eq!(values, &vec!["a".to_string(), "b".to_string()]);
    assert_eq!(ticks, &vec![true, true]);
    assert_eq!(cursor, 0);
    key(&mut app, KeyCode::Char(' '));
    key(&mut app, KeyCode::Enter);
    assert_eq!(message(&app), "Filter applied: 2 rows");
    assert_eq!(column(&app, 1), vec!["1", "3"]);
    assert!(app.filter_info().0);
    command(&mut app, "f");
    assert!(app.filter_info().1);
    key(&mut app, KeyCode::Char('c'));
    assert_eq!(message(&app), "Column filter cleared");
    assert_eq!(app.row_count(), 4);
}

#[test]
fn filter_popup_keys() {
    let mut app = viewer("k\nx\ny\n");
    command(&mut app, "f");
    key(&mut app, KeyCode::Char('j'));
    key(&mut app, KeyCode::Char('j'));
    assert_eq!(app.filter_info().5, 1);
    key(&mut app, KeyCode::Char('n'));
    assert_eq!(message(&app), "All values deselected");
    assert_eq!(app.filter_info().4, &vec![false, false]);
    key(&mut app, KeyCode::Char('a'));
    assert_eq!(message(&app), "All values selected");
    key(&mut app, KeyCode::Esc);
    assert_eq!(message(&app), "Filter cancelled");
}

#[test]
fn empty_column_offers_no_filter() {
    let mut app = viewer("k,v\n,1\n");
    command(&mut app, "f");
    assert_eq!(message(&app), "No filter values in column");
    assert!(!app.filter_info().1);
}

#[test]
fn finds_duplicate_rows() {
    let mut app = viewer("a,b\n1,x\n2,y\n1,x\n1,x\n2,y\n3,z\n");
    let groups = app.find_duplicate_rows();
    assert_eq!(groups, vec![(0, vec![0, 2, 3]), (1, vec![1, 4])]);
    let tabbed = viewer("a,b\n\"x\ty\"\nx,y\n");
    assert_eq!(tabbed.find_duplicate_rows(), vec![]);
    ctrl(&mut app, 'p');
    typed(&mut app, "dup");
    key(&mut app, KeyCode::Enter);
    assert!(app.highlight_duplicates());
    assert_eq!(message(&app), "Found 3 duplicate rows");
    assert_eq!(app.duplicate_rows().len(), 2);
    ctrl(&mut app, 'p');
    typed(&mut app, "dup");
    key(&mut app, KeyCode::Enter);
    assert!(!app.highlight_duplicates());
    assert_eq!(message(&app), "Duplicate highlight cleared");
}

#[test]
fn palette_lists_and_filters_commands() {
    let mut app = viewer(PEOPLE);
    ctrl(&mut app, 'p');
    let (open, query, cursor, cmds) = app.command_palette_info();
    assert!(open);
    assert_eq!(query, "");
    assert_eq!(cursor, 0);
    assert_eq!(cmds.len(), 13);
    assert_eq!(cmds[0], "save (Ctrl+S)");
    typed(&mut app, "SORT");
    let cmds = app.command_palette_info().3;
    assert_eq!(cmds, vec!["sort (s)".to_string(), "clear sort (R)".to_string()]);
    key(&mut app, KeyCode::Down);
    assert_eq!(app.command_palette_info().2, 1);
    key(&mut app, KeyCode::Down);
    assert_eq!(app.command_palette_info().2, 1);
    key(&mut app, KeyCode::Up);
    key(&mut app, KeyCode::Enter);
    assert_eq!(message(&app), "Sorted by [1:asc]");
    assert!(!app.command_palette_info().0);
}

#[test]
fn palette_reports_replace_and_help() {
    let mut app = viewer(PEOPLE);
    ctrl(&mut app, 'p');
    typed(&mut app, "replace all");
    key(&mut app, KeyCode::Enter);
    assert_eq!(message(&app), "Executing: replace all (:replaceall)");
    ctrl(&mut app, 'p');
    typed(&mut app, "expo");
    key(&mut app, KeyCode::Enter);
    assert_eq!(message(&app), "Usage: :export <filepath>");
    ctrl(&mut app, 'p');
    typed(&mut app, "help");
    key(&mut app, KeyCode::Enter);
    assert!(app.show_help());
}

#[test]
fn palette_down_with_no_command_would_panic() {
    let mut app = viewer(PEOPLE);
    ctrl(&mut app, 'p');
    typed(&mut app, "zzz");
    let down = KeyEvent { code: KeyCode::Down, ctrl: false, press: true };
    assert!(!app.can_handle(down));
    assert!(app.handle_key_checked(down, 0).is_none());
}

#[test]
fn editing_an_empty_sheet_is_refused() {
    let mut app = viewer("a,b\n");
    assert_eq!(app.row_count(), 0);
    let enter = KeyEvent { code: KeyCode::Enter, ctrl: false, press: true };
    assert!(!app.can_handle(enter));
    assert!(app.handle_key_checked(enter, 0).is_none());
    assert!(!app.edit_mode());
}

#[test]
fn replace_all_after_a_widening_lower_case() {
    let mut app = viewer("a\n\u{130}x\n");
    command(&mut app, "replaceall x");
    typed(&mut app, "y");
    let enter = KeyEvent { code: KeyCode::Enter, ctrl: false, press: true };
    assert!(app.can_handle(enter));
    key(&mut app, KeyCode::Enter);
    assert_eq!(app.get_display_cell(0, 0), Some("\u{130}y".to_string()));
}

#[test]
fn column_widths() {
    let app = viewer("a,b\nabc,1\nxy,12345\n\u{e9}\u{e9},2\n");
    assert_eq!(calculate_column_width(&app, 0, 0, 3), 6);
    assert_eq!(calculate_column_width(&app, 1, 0, 2), 7);
    assert_eq!(calculate_column_width(&app, 1, 5, 2), 2);
    assert_eq!(calculate_column_width(&app, 0, 2, 1), 6);
}

#[test]
fn effective_row_count_follows_the_filter() {
    let mut app = viewer("k\nx\ny\nx\n");
    assert_eq!(app.effective_row_count(), 3);
    command(&mut app, "f");
    key(&mut app, KeyCode::Char(' '));
    key(&mut app, KeyCode::Enter);
    assert_eq!(app.effective_row_count(), 1);
}

#[test]
fn csv_with_bad_text_is_refused() {
    let r = open_file("bad.csv".to_string(), None, None, FileContents::Text(vec![0xff, b'\n', b'a']));
    assert!(r.is_err());
}

#[test]
fn column_filter_law_on_values() {
    let mut app = viewer("k,v\nx,1\ny,2\nx,3\nz,4\n");
    command(&mut app, "f");
    key(&mut app, KeyCode::Char('j'));
    key(&mut app, KeyCode::Char(' '));
    key(&mut app, KeyCode::Enter);
    assert_eq!(column(&app, 0), vec!["x", "x", "z"]);
    assert_eq!(column(&app, 1), vec!["1", "3", "4"]);
}

#[test]
fn sorted_rows_keep_their_set() {
    let mut app = viewer("a\n3\n1\n2\n1\n");
    key(&mut app, KeyCode::Char('s'));
    let mut got = column(&app, 0);
    assert_eq!(got, vec!["1", "1", "2", "3"]);
    got.sort();
    let mut before = vec!["3", "1", "2", "1"];
    before.sort();
    assert_eq!(got, before);
}

#[test]
fn selection_stays_in_view() {
    let csv: String = std::iter::once("n".to_string())
        .chain((0..100).map(|i| i.to_string()))
        .collect::<Vec<_>>()
        .join("\n");
    let mut app = viewer(&csv);
    for _ in 0..70 {
        key(&mut app, KeyCode::Down);
        assert!(app.scroll_offset() <= app.selected_row());
        assert!(app.selected_row() < app.scroll_offset() + 20);
    }
    for _ in 0..50 {
        key(&mut app, KeyCode::Up);
        assert!(app.scroll_offset() <= app.selected_row());
        assert!(app.selected_row() < app.scroll_offset() + 20);
    }
}

#[test]
fn sheet_and_duplicate_keys() {
    let mut app = viewer("a,b\n1,x\n1,x\n2,y\n");
    key(&mut app, KeyCode::Char('U'));
    assert!(app.highlight_duplicates());
    assert_eq!(message(&app), "Found 1 duplicate rows");
    key(&mut app, KeyCode::Char('U'));
    assert!(!app.highlight_duplicates());
    assert!(matches!(key(&mut app, KeyCode::Char('t')), Effect::Nothing));
    assert!(matches!(key(&mut app, KeyCode::Char('T')), Effect::Nothing));
}

#[test]
fn detects_the_delimiter() {
    let tsv = viewer("a\tb\n1\t2\n");
    assert_eq!(tsv.data().headers(), &["a".to_string(), "b".to_string()][..]);
    assert_eq!(tsv.get_display_row(0), Some(vec!["1".to_string(), "2".to_string()]));
    let semi = viewer("a;b,c;d\n1;2,3;4\n");
    assert_eq!(semi.data().column_count(), 3);
    let plain = viewer("a\n1\n");
    assert_eq!(plain.data().column_count(), 1);
}

#[test]
fn t_and_shift_t_step_through_sheets() {
    let data = open_file(
        "c.xlsx".to_string(),
        None,
        None,
        FileContents::Workbook {
            sheet_names: vec!["One".to_string(), "Two".to_string(), "Three".to_string()],
            first_sheet: vec![vec!["h".to_string()], vec!["v".to_string()]],
        },
    )
    .unwrap();
    let mut app = App::new(data);
    assert!(matches!(key(&mut app, KeyCode::Char('t')), Effect::LoadSheet { index: 1 }));
    assert!(matches!(key(&mut app, KeyCode::Char('T')), Effect::LoadSheet { index: 2 }));
}
