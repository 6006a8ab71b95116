use prickly::confirm::{Confirm, ConfirmResponse};
use prickly::engine::{App, AppResponse};
use prickly::explorer::{Explorer, ExplorerEntry, ExplorerMode, ExplorerResponse};
use prickly::input::{Event, KeyCode, KeyEvent, KeyModifiers};
use prickly::node::{node_eq, ParamNode, ParamParent};
use prickly::rows::TreeData;
use prickly::tree::Tree;

fn key(code: KeyCode) -> Event {
    Event::Key(KeyEvent { code, modifiers: KeyModifiers::none() })
}

fn shift(code: KeyCode) -> Event {
    Event::Key(KeyEvent { code, modifiers: KeyModifiers { shift: true, control: false } })
}

fn ctrl(c: char) -> Event {
    Event::Key(KeyEvent {
        code: KeyCode::Char(c),
        modifiers: KeyModifiers { shift: false, control: true },
    })
}

fn h40(s: &str) -> u64 {
    prc::hash40::hash40(s).0
}

fn sample_doc() -> ParamNode {
    ParamNode::Struct(vec![
        (h40("size"), ParamNode::U32(10)),
        (
            h40("items"),
            ParamNode::List(vec![ParamNode::Bool(true), ParamNode::Bool(false)]),
        ),
    ])
}

fn type_text(app: &mut App, s: &str) {
    for c in s.chars() {
        app.handle_event(key(KeyCode::Char(c)));
    }
}

fn clear_edit_buffer(app: &mut App, len: usize) {
    for _ in 0..len {
        app.handle_event(key(KeyCode::Backspace));
    }
}

#[test]
fn document_scenario_edit_nested_list() {
    // enter `items`, edit row 0 to false, exit twice: the list reads
    // [false, false] and everything else is untouched
    let entries = vec![
        (h40("size"), String::from("size")),
        (h40("items"), String::from("items")),
    ];
    let corpus = prickly::corpus::LabelCorpus::from_entries(&entries);
    let mut app = App::new(sample_doc(), Some(corpus));
    app.handle_event(key(KeyCode::Down));
    let r = app.handle_event(key(KeyCode::Enter));
    assert!(matches!(r, AppResponse::Handled));
    {
        let lv = app.current_level();
        assert_eq!(lv.tree.data.rows.len(), 2);
        assert_eq!(lv.tree.data.rows[0].value, "true");
        assert_eq!(lv.tree.data.rows[1].value, "false");
        assert_eq!(lv.name, "items");
    }
    app.handle_event(key(KeyCode::Enter));
    clear_edit_buffer(&mut app, 4);
    type_text(&mut app, "false");
    let r = app.handle_event(key(KeyCode::Enter));
    assert!(matches!(r, AppResponse::DocumentEdited));
    assert!(app.unsaved());
    app.handle_event(key(KeyCode::Backspace));
    app.handle_event(key(KeyCode::Backspace));
    let expected = ParamNode::Struct(vec![
        (h40("size"), ParamNode::U32(10)),
        (
            h40("items"),
            ParamNode::List(vec![ParamNode::Bool(false), ParamNode::Bool(false)]),
        ),
    ]);
    assert!(node_eq(&app.current_document(), &expected));
}

#[test]
fn navigation_restores_selection_and_content() {
    // enter(i) then exit() restores the prior selection, and the
    // document is untouched
    let mut app = App::new(sample_doc(), None);
    app.handle_event(key(KeyCode::Down));
    assert_eq!(app.current_level().tree.selected, 1);
    app.handle_event(key(KeyCode::Enter));
    assert_eq!(app.depth(), 2);
    app.handle_event(key(KeyCode::Backspace));
    assert_eq!(app.depth(), 1);
    assert_eq!(app.current_level().tree.selected, 1);
    assert!(!app.unsaved());
    assert!(node_eq(&app.current_document(), &sample_doc()));
}

#[test]
fn exit_at_root_is_a_no_op() {
    let mut app = App::new(sample_doc(), None);
    app.handle_event(key(KeyCode::Backspace));
    assert_eq!(app.depth(), 1);
    assert!(node_eq(&app.current_document(), &sample_doc()));
}

#[test]
fn take_replace_keeps_siblings() {
    // entering a list of 3, editing element 1, leaves [orig0, edited, orig2]
    let root = ParamNode::Struct(vec![(
        h40("xs"),
        ParamNode::List(vec![ParamNode::U8(1), ParamNode::U8(2), ParamNode::U8(3)]),
    )]);
    let mut app = App::new(root, None);
    app.handle_event(key(KeyCode::Enter));
    app.handle_event(key(KeyCode::Down));
    app.handle_event(key(KeyCode::Enter));
    clear_edit_buffer(&mut app, 1);
    type_text(&mut app, "99");
    assert!(matches!(app.handle_event(key(KeyCode::Enter)), AppResponse::DocumentEdited));
    app.handle_event(key(KeyCode::Backspace));
    let expected = ParamNode::Struct(vec![(
        h40("xs"),
        ParamNode::List(vec![ParamNode::U8(1), ParamNode::U8(99), ParamNode::U8(3)]),
    )]);
    assert!(node_eq(&app.current_document(), &expected));
}

#[test]
fn selection_wraps_both_ways() {
    // 3 rows, selection on the last: down wraps to 0, up wraps back
    let root = ParamNode::List(vec![
        ParamNode::U8(1),
        ParamNode::U8(2),
        ParamNode::U8(3),
    ]);
    let mut app = App::new(root, None);
    app.handle_event(key(KeyCode::Down));
    app.handle_event(key(KeyCode::Down));
    assert_eq!(app.current_level().tree.selected, 2);
    app.handle_event(key(KeyCode::Down));
    assert_eq!(app.current_level().tree.selected, 0);
    app.handle_event(key(KeyCode::Up));
    assert_eq!(app.current_level().tree.selected, 2);
}

#[test]
fn filtering_keeps_source_indexes() {
    // children [A,B,C,D] with only B and D kept: rows report 1 and 3
    let parent = ParamParent::List(vec![
        ParamNode::U8(0),
        ParamNode::U8(1),
        ParamNode::U8(2),
        ParamNode::U8(3),
    ]);
    let data = TreeData::new(&parent, None);
    let keep = vec![false, true, false, true];
    let filtered = data.apply_filter(&keep);
    assert_eq!(filtered.rows.len(), 2);
    assert_eq!(filtered.rows[0].index, 1);
    assert_eq!(filtered.rows[1].index, 3);
}

#[test]
fn filtering_twice_is_filtering_once() {
    let parent = ParamParent::List(vec![
        ParamNode::U8(0),
        ParamNode::U8(1),
        ParamNode::U8(2),
    ]);
    let keep = vec![true, false, true];
    let once = TreeData::new(&parent, None).apply_filter(&keep);
    let indexes: Vec<usize> = once.rows.iter().map(|r| r.index).collect();
    let twice = once.apply_filter(&keep);
    let indexes2: Vec<usize> = twice.rows.iter().map(|r| r.index).collect();
    assert_eq!(indexes, indexes2);
    assert_eq!(indexes, vec![0, 2]);
}

#[test]
fn empty_composite_has_no_rows() {
    let root = ParamNode::Struct(vec![(h40("xs"), ParamNode::List(vec![]))]);
    let mut app = App::new(root, None);
    app.handle_event(key(KeyCode::Enter));
    assert_eq!(app.current_level().tree.data.rows.len(), 0);
    // moves on an empty view are consumed without effect
    app.handle_event(key(KeyCode::Down));
    assert_eq!(app.current_level().tree.selected, 0);
}

#[test]
fn parse_error_leaves_node_unchanged() {
    let root = ParamNode::List(vec![ParamNode::U8(7)]);
    let mut app = App::new(root, None);
    app.handle_event(key(KeyCode::Enter));
    clear_edit_buffer(&mut app, 1);
    type_text(&mut app, "999");
    let r = app.handle_event(key(KeyCode::Enter));
    assert!(matches!(r, AppResponse::Handled));
    assert!(!app.unsaved());
    assert!(node_eq(
        &app.current_document(),
        &ParamNode::List(vec![ParamNode::U8(7)]),
    ));
    // cancelling afterwards keeps the stored value on show
    app.handle_event(key(KeyCode::Esc));
    assert_eq!(app.current_level().tree.data.rows[0].value, "7");
}

#[test]
fn edit_cancel_keeps_value() {
    let root = ParamNode::List(vec![ParamNode::Str(String::from("abc"))]);
    let mut app = App::new(root, None);
    app.handle_event(key(KeyCode::Enter));
    type_text(&mut app, "xyz");
    app.handle_event(key(KeyCode::Esc));
    assert!(node_eq(
        &app.current_document(),
        &ParamNode::List(vec![ParamNode::Str(String::from("abc"))]),
    ));
}

#[test]
fn increment_shortcut_cycles_bool() {
    let root = ParamNode::List(vec![ParamNode::Bool(false)]);
    let mut app = App::new(root, None);
    let r = app.handle_event(shift(KeyCode::Up));
    assert!(matches!(r, AppResponse::DocumentEdited));
    assert!(node_eq(
        &app.current_document(),
        &ParamNode::List(vec![ParamNode::Bool(true)]),
    ));
    assert_eq!(app.current_level().tree.data.rows[0].value, "true");
}

#[test]
fn float_edit_goes_through_the_host() {
    let root = ParamNode::List(vec![ParamNode::Float(0)]);
    let mut app = App::new(root, None);
    app.handle_event(key(KeyCode::Enter));
    type_text(&mut app, "1.5");
    let r = app.handle_event(key(KeyCode::Enter));
    let textual = match r {
        AppResponse::FloatEdit(t) => t,
        _ => panic!("expected a float parse request"),
    };
    assert_eq!(textual, "1.5");
    let bits = textual.parse::<f32>().ok().map(|f| f.to_bits());
    let r = app.submit_float(bits);
    assert!(matches!(r, AppResponse::DocumentEdited));
    assert!(node_eq(
        &app.current_document(),
        &ParamNode::List(vec![ParamNode::Float(1.5f32.to_bits())]),
    ));
}

#[test]
fn float_parse_failure_keeps_editing() {
    let root = ParamNode::List(vec![ParamNode::Float(77)]);
    let mut app = App::new(root, None);
    app.handle_event(key(KeyCode::Enter));
    type_text(&mut app, "abc");
    let r = app.handle_event(key(KeyCode::Enter));
    assert!(matches!(r, AppResponse::FloatEdit(_)));
    let r = app.submit_float(None);
    assert!(matches!(r, AppResponse::Handled));
    assert!(node_eq(
        &app.current_document(),
        &ParamNode::List(vec![ParamNode::Float(77)]),
    ));
}

#[test]
fn hash_value_edit_resolves_label() {
    let entries = vec![(h40("alpha"), String::from("alpha"))];
    let corpus = prickly::corpus::LabelCorpus::from_entries(&entries);
    let root = ParamNode::List(vec![ParamNode::Hash(0x1)]);
    let mut app = App::new(root, Some(corpus));
    app.handle_event(key(KeyCode::Enter));
    // the editor is seeded with the literal form of 0x1; replace it
    clear_edit_buffer(&mut app, 12);
    type_text(&mut app, "alpha");
    let r = app.handle_event(key(KeyCode::Enter));
    assert!(matches!(r, AppResponse::DocumentEdited));
    assert!(node_eq(
        &app.current_document(),
        &ParamNode::List(vec![ParamNode::Hash(h40("alpha"))]),
    ));
}

#[test]
fn unsaved_changes_guard_exit_and_open() {
    let mut app = App::new(sample_doc(), None);
    assert!(matches!(app.handle_event(key(KeyCode::Esc)), AppResponse::Exit));
    assert!(matches!(app.handle_event(ctrl('o')), AppResponse::OpenRequest));
    assert!(matches!(app.handle_event(ctrl('s')), AppResponse::SaveRequest));
    // after an edit, leaving asks first
    app.handle_event(shift(KeyCode::Down));
    assert!(app.unsaved());
    assert!(matches!(app.handle_event(key(KeyCode::Esc)), AppResponse::Handled));
    // answer yes
    app.handle_event(key(KeyCode::Left));
    assert!(matches!(app.handle_event(key(KeyCode::Enter)), AppResponse::Exit));
}

#[test]
fn mark_saved_clears_the_flag() {
    let mut app = App::new(sample_doc(), None);
    app.handle_event(shift(KeyCode::Down));
    assert!(app.unsaved());
    app.mark_saved();
    assert!(!app.unsaved());
    assert!(matches!(app.handle_event(key(KeyCode::Esc)), AppResponse::Exit));
}

#[test]
fn confirm_prompt_choices() {
    let mut c = Confirm::new(String::from("Sure?"));
    assert_eq!(c.handle_event(key(KeyCode::Enter)), ConfirmResponse::Confirm(false));
    c.handle_event(key(KeyCode::Left));
    assert_eq!(c.handle_event(key(KeyCode::Enter)), ConfirmResponse::Confirm(true));
    c.handle_event(key(KeyCode::Right));
    assert_eq!(c.handle_event(key(KeyCode::Enter)), ConfirmResponse::Confirm(false));
    assert_eq!(c.handle_event(key(KeyCode::Esc)), ConfirmResponse::Confirm(false));
}

#[test]
fn explorer_selection_and_descend() {
    let entries = vec![
        ExplorerEntry { name: String::from("dir"), is_dir: true },
        ExplorerEntry { name: String::from("file.prc"), is_dir: false },
    ];
    let mut ex = Explorer::new(Some(entries), ExplorerMode::Open);
    match ex.handle_event(key(KeyCode::Enter)) {
        ExplorerResponse::Descend(name) => assert_eq!(name, "dir"),
        _ => panic!("expected to descend"),
    }
    ex.handle_event(key(KeyCode::Down));
    match ex.handle_event(key(KeyCode::Enter)) {
        ExplorerResponse::Open(name) => assert_eq!(name, "file.prc"),
        _ => panic!("expected to open"),
    }
    assert!(matches!(ex.handle_event(key(KeyCode::Backspace)), ExplorerResponse::Ascend));
    assert!(matches!(ex.handle_event(key(KeyCode::Esc)), ExplorerResponse::Cancel));
}

#[test]
fn explorer_save_asks_before_overwriting() {
    let entries = vec![ExplorerEntry { name: String::from("file.prc"), is_dir: false }];
    let mut ex = Explorer::new(Some(entries), ExplorerMode::Save);
    assert!(matches!(ex.handle_event(key(KeyCode::Enter)), ExplorerResponse::Handled));
    // highlight yes, then confirm
    ex.handle_event(key(KeyCode::Left));
    match ex.handle_event(key(KeyCode::Enter)) {
        ExplorerResponse::Save(name) => assert_eq!(name, "file.prc"),
        _ => panic!("expected a save"),
    }
}

#[test]
fn explorer_typed_name_jumps_selection() {
    let entries = vec![
        ExplorerEntry { name: String::from("Alpha"), is_dir: false },
        ExplorerEntry { name: String::from("beta"), is_dir: false },
    ];
    let mut ex = Explorer::new(Some(entries), ExplorerMode::Open);
    ex.handle_event(key(KeyCode::Char('/')));
    ex.handle_event(key(KeyCode::Char('b')));
    assert_eq!(ex.selected, 1);
    ex.handle_event(key(KeyCode::Backspace));
    ex.handle_event(key(KeyCode::Char('a')));
    assert_eq!(ex.selected, 0);
}

#[test]
fn regex_filter_narrows_rows_and_restores() {
    let entries = vec![
        (h40("alpha"), String::from("alpha")),
        (h40("beta"), String::from("beta")),
    ];
    let corpus = prickly::corpus::LabelCorpus::from_entries(&entries);
    let root = ParamNode::Struct(vec![
        (h40("alpha"), ParamNode::U8(1)),
        (h40("beta"), ParamNode::U8(2)),
    ]);
    let mut app = App::new(root, Some(corpus));
    assert_eq!(app.current_level().tree.data.rows.len(), 2);
    app.handle_event(key(KeyCode::Char('/')));
    type_text(&mut app, "^b");
    app.handle_event(key(KeyCode::Enter));
    {
        let rows = &app.current_level().tree.data.rows;
        assert_eq!(rows.len(), 1);
        assert_eq!(rows[0].name, "beta");
        assert_eq!(rows[0].index, 1);
    }
    // clearing the pattern restores every row
    app.handle_event(key(KeyCode::Char('/')));
    clear_edit_buffer(&mut app, 2);
    app.handle_event(key(KeyCode::Enter));
    assert_eq!(app.current_level().tree.data.rows.len(), 2);
}

#[test]
fn row_projection_shows_tags_and_summaries() {
    let corpus = prickly::corpus::LabelCorpus::from_entries(&vec![(
        h40("size"),
        String::from("size"),
    )]);
    let root = ParamNode::Struct(vec![
        (h40("size"), ParamNode::U32(10)),
        (h40("items"), ParamNode::List(vec![ParamNode::Bool(true)])),
    ]);
    let app = App::new(root, Some(corpus));
    let rows = &app.current_level().tree.data.rows;
    assert_eq!(rows[0].name, "size");
    assert_eq!(rows[0].kind.as_str(), "u32");
    assert_eq!(rows[0].value, "10");
    assert!(!rows[0].is_parent);
    // an unknown key shows as its literal
    assert_eq!(rows[1].name, format!("0x{:010x}", h40("items")));
    assert_eq!(rows[1].kind.as_str(), "list");
    assert_eq!(rows[1].value, "(1 children)");
    assert!(rows[1].is_parent);
}

#[test]
fn tree_selects_by_source_index() {
    let parent = ParamParent::List(vec![
        ParamNode::U8(0),
        ParamNode::U8(1),
        ParamNode::U8(2),
    ]);
    let data = TreeData::new(&parent, None).apply_filter(&vec![true, false, true]);
    let mut tree = Tree::new(data);
    tree.select_param_index(2);
    assert_eq!(tree.selected, 1);
    // a filtered-out child falls back to the first row
    tree.select_param_index(1);
    assert_eq!(tree.selected, 0);
}

#[test]
fn invalid_filter_submit_clears_the_active_filter() {
    let entries = vec![
        (h40("alpha"), String::from("alpha")),
        (h40("beta"), String::from("beta")),
    ];
    let corpus = prickly::corpus::LabelCorpus::from_entries(&entries);
    let root = ParamNode::Struct(vec![
        (h40("alpha"), ParamNode::U8(1)),
        (h40("beta"), ParamNode::U8(2)),
    ]);
    let mut app = App::new(root, Some(corpus));
    // install a working filter first
    app.handle_event(key(KeyCode::Char('/')));
    type_text(&mut app, "^b");
    app.handle_event(key(KeyCode::Enter));
    assert_eq!(app.current_level().tree.data.rows.len(), 1);
    // a bad pattern replaces it: no filter is active afterwards
    app.handle_event(key(KeyCode::Char('/')));
    type_text(&mut app, "(");
    app.handle_event(key(KeyCode::Enter));
    assert!(app.filter.input.error.is_some());
    app.handle_event(key(KeyCode::Esc));
    assert_eq!(app.current_level().tree.data.rows.len(), 2);
}

#[test]
fn submit_float_without_a_float_edit_is_ignored() {
    let mut app = App::new(sample_doc(), None);
    assert!(matches!(app.submit_float(Some(0)), AppResponse::Unhandled));
    // an open non-float edit is not a float edit either
    app.handle_event(key(KeyCode::Enter));
    assert!(matches!(app.submit_float(Some(0)), AppResponse::Unhandled));
    app.handle_event(key(KeyCode::Esc));
    assert!(node_eq(&app.current_document(), &sample_doc()));
}

#[test]
fn unlisted_keys_pass_through_the_view() {
    let mut app = App::new(sample_doc(), None);
    assert!(matches!(app.handle_event(key(KeyCode::Tab)), AppResponse::Unhandled));
    assert!(matches!(app.handle_event(key(KeyCode::Left)), AppResponse::Unhandled));
    assert!(matches!(
        app.handle_event(key(KeyCode::Char('o'))),
        AppResponse::Unhandled
    ));
    assert_eq!(app.depth(), 1);
    assert!(node_eq(&app.current_document(), &sample_doc()));
}

#[test]
fn explorer_typed_name_cancel_and_open_submit() {
    let entries = vec![ExplorerEntry { name: String::from("file.prc"), is_dir: false }];
    let mut ex = Explorer::new(Some(entries), ExplorerMode::Open);
    ex.handle_event(key(KeyCode::Char('/')));
    ex.handle_event(key(KeyCode::Char('f')));
    // cancelling only closes the typing line
    assert!(matches!(ex.handle_event(key(KeyCode::Esc)), ExplorerResponse::Handled));
    assert!(!ex.input_active);
    // in open mode a submitted name also only closes the line
    ex.handle_event(key(KeyCode::Char('/')));
    assert!(matches!(ex.handle_event(key(KeyCode::Enter)), ExplorerResponse::Handled));
    assert!(!ex.input_active);
}

#[test]
fn explorer_typed_fresh_name_saves_directly() {
    let entries = vec![ExplorerEntry { name: String::from("old.prc"), is_dir: false }];
    let mut ex = Explorer::new(Some(entries), ExplorerMode::Save);
    ex.handle_event(key(KeyCode::Char('/')));
    for c in "new.prc".chars() {
        ex.handle_event(key(KeyCode::Char(c)));
    }
    match ex.handle_event(key(KeyCode::Enter)) {
        ExplorerResponse::Save(name) => assert_eq!(name, "new.prc"),
        _ => panic!("expected a direct save of a fresh name"),
    }
}
