use cred::tui::{
    detail_lines, modal_area, table_row, Area, InputField, TuiAction, TuiApp, TuiKey, TuiMode,
};
use cred::types::{Secret, SecretValue};

fn s(t: &str) -> String {
    t.to_string()
}

fn note(service: &str, key: &str) -> Secret {
    Secret::new(service, key, SecretValue::Note { content: s("hush") })
}

fn app() -> TuiApp {
    let mut app = TuiApp::new();
    app.refresh(Ok(vec![note("GitHub", "token"), note("aws", "Root"), note("mail", "pw")]));
    app
}

fn press(app: &mut TuiApp, keys: &str) -> TuiAction {
    let mut last = TuiAction::Stay;
    for c in keys.chars() {
        last = app.handle_key(match c {
            '\n' => TuiKey::Enter,
            '\u{1b}' => TuiKey::Esc,
            '\u{8}' => TuiKey::Backspace,
            '↑' => TuiKey::Up,
            '↓' => TuiKey::Down,
            c => TuiKey::Char(c, false),
        });
    }
    last
}

#[test]
fn a_new_interface_is_empty() {
    let app = TuiApp::new();
    assert_eq!(app.mode, TuiMode::Normal);
    assert_eq!(app.selected, None);
    assert_eq!(app.table_title(), " secrets (0) ");
    assert_eq!(app.status_line(), "");
    assert!(app.selected_secret().is_none());
}

#[test]
fn moving_wraps_around() {
    let mut app = app();
    assert_eq!(app.selected, Some(0));
    press(&mut app, "j");
    assert_eq!(app.selected, Some(1));
    press(&mut app, "↓j");
    assert_eq!(app.selected, Some(0));
    press(&mut app, "k");
    assert_eq!(app.selected, Some(2));
    press(&mut app, "↑");
    assert_eq!(app.selected, Some(1));
    app.select(None);
    press(&mut app, "k");
    assert_eq!(app.selected, Some(0));
    app.select(Some(usize::MAX));
    press(&mut app, "j");
    assert_eq!(app.selected, Some((usize::MAX % 3 + 1) % 3));
}

#[test]
fn moving_in_an_empty_listing() {
    let mut app = TuiApp::new();
    press(&mut app, "jk");
    assert_eq!(app.selected, None);
}

#[test]
fn leaving() {
    assert!(matches!(press(&mut app(), "q"), TuiAction::Quit));
    assert!(matches!(press(&mut app(), "\u{1b}"), TuiAction::Quit));
    assert!(matches!(app().handle_key(TuiKey::Char('c', true)), TuiAction::Quit));
    assert!(matches!(app().handle_key(TuiKey::Char('c', false)), TuiAction::Stay));
    assert!(matches!(app().handle_key(TuiKey::Other), TuiAction::Stay));
}

#[test]
fn adding_a_secret() {
    let mut app = app();
    press(&mut app, "a");
    assert_eq!((app.mode, app.input_field), (TuiMode::Adding, InputField::Service));
    assert_eq!(app.status_msg, "enter service name");
    press(&mut app, "\n");
    assert_eq!(app.status_msg, "service name cannot be empty");
    press(&mut app, "gixt\u{8}\u{8}t");
    assert_eq!(app.status_line(), "[add] service: git|");
    press(&mut app, "\n");
    assert_eq!(app.status_msg, "enter key name");
    press(&mut app, "\n");
    assert_eq!(app.status_msg, "key name cannot be empty");
    press(&mut app, "api\n");
    assert_eq!(app.status_msg, "enter api-key value");
    press(&mut app, "\n");
    assert_eq!(app.status_msg, "value cannot be empty");
    press(&mut app, "pé");
    assert_eq!(app.status_line(), "[add] value: ***|");
    match press(&mut app, "\n") {
        TuiAction::Store(secret) => {
            assert_eq!((secret.service.as_str(), secret.key.as_str()), ("git", "api"));
            assert_eq!(secret.value.kind(), "api-key");
            assert_eq!(secret.value.get_field("key"), Some(s("pé")));
            assert_eq!(secret.value.field_names(), ["key"]);
        }
        _ => panic!("nothing to store"),
    }
    assert_eq!(app.input_buf, "");
    assert!(matches!(app.stored(Ok(9)), TuiAction::Reload));
    assert_eq!(app.status_line(), "stored git/api (id=9)");
    assert_eq!((app.add_service.as_str(), app.add_key.as_str()), ("", ""));
    assert_eq!(app.mode, TuiMode::Normal);
}

#[test]
fn improper_names_are_not_taken() {
    let mut app = app();
    press(&mut app, "abad name!\n");
    assert_eq!(app.input_field, InputField::Service);
    assert_eq!(
        app.status_msg,
        "service name may only contain alphanumeric characters, hyphens, underscores and dots"
    );
    assert_eq!(app.input_buf, "bad name!");
    press(&mut app, "\u{8}\u{8}\u{8}\u{8}\u{8}\u{8}\n");
    assert_eq!((app.input_field, app.add_service.as_str()), (InputField::Key, "bad"));
    press(&mut app, &format!("{}\n", "k".repeat(129)));
    assert_eq!(app.input_field, InputField::Key);
    assert_eq!(app.status_msg, "key name too long (max 128 characters)");
    press(&mut app, "\u{8}\n");
    assert_eq!(app.input_field, InputField::Value);
}

#[test]
fn a_secret_that_cannot_be_stored() {
    let mut app = app();
    press(&mut app, "agit\napi\nvalue\n");
    assert!(matches!(app.stored(Err(s("disk full"))), TuiAction::Stay));
    assert_eq!(app.status_line(), "error: disk full");
    assert_eq!(app.add_service, "");
}

#[test]
fn leaving_a_form_wipes_it() {
    let mut app = app();
    press(&mut app, "agit\napi\nval\u{1b}");
    assert_eq!(app.mode, TuiMode::Normal);
    assert_eq!(app.input_buf, "");
    assert_eq!(app.add_service, "");
    assert_eq!(app.add_key, "");
    assert_eq!(app.status_line(), "");
}

#[test]
fn deleting_asks_first() {
    let mut app = app();
    press(&mut app, "jd");
    assert_eq!(app.mode, TuiMode::Confirm);
    assert_eq!(app.status_line(), "delete? (y/n)");
    assert!(matches!(press(&mut app, "n"), TuiAction::Stay));
    assert_eq!(app.status_line(), "cancelled");
    assert_eq!(app.mode, TuiMode::Normal);
    press(&mut app, "d");
    match press(&mut app, "y") {
        TuiAction::Delete(service, key) => {
            assert_eq!((service.as_str(), key.as_str()), ("aws", "Root"));
            assert!(matches!(app.deleted(&service, &key, Ok(())), TuiAction::Reload));
        }
        _ => panic!("nothing to delete"),
    }
    assert_eq!(app.status_line(), "deleted aws/Root");
    assert_eq!(app.mode, TuiMode::Normal);
    press(&mut app, "dy");
    assert!(matches!(app.deleted("a", "b", Err(s("gone"))), TuiAction::Stay));
    assert_eq!(app.status_line(), "error: gone");
}

#[test]
fn nothing_selected_nothing_deleted() {
    let mut app = app();
    app.select(None);
    press(&mut app, "d");
    assert_eq!(app.mode, TuiMode::Normal);
    press(&mut app, "\n");
    assert_eq!(app.mode, TuiMode::Normal);
    app.select(Some(0));
    press(&mut app, "d");
    app.select(Some(99));
    assert!(matches!(press(&mut app, "y"), TuiAction::Stay));
    assert_eq!(app.mode, TuiMode::Normal);
}

#[test]
fn filtering_ignores_case() {
    let mut app = app();
    press(&mut app, "/ro");
    assert_eq!(app.status_line(), "/ro");
    press(&mut app, "\n");
    assert_eq!(app.filtered_secrets().len(), 1);
    assert_eq!(app.selected_secret().unwrap().key, "Root");
    assert_eq!(app.status_line(), "filter: ro");
    assert_eq!(app.table_title(), " secrets (1/3) [ro] ");
    press(&mut app, "/");
    assert_eq!(app.input_buf, "ro");
    press(&mut app, "\u{8}\u{8}HUB\n");
    assert_eq!(app.selected_secret().unwrap().service, "GitHub");
    press(&mut app, "/zzz\n");
    assert_eq!(app.selected, None);
    assert_eq!(app.table_rows().len(), 0);
    press(&mut app, "/\u{1b}");
    assert_eq!(app.filtered_secrets().len(), 3);
    assert_eq!(app.selected, Some(0));
    assert_eq!(app.status_line(), "");
    press(&mut app, "/\n");
    assert_eq!(app.status_line(), "");
}

#[test]
fn showing_values_shows_previews() {
    let mut app = app();
    assert_eq!(app.table_rows()[0].preview, "note");
    press(&mut app, "v");
    assert_eq!(app.status_line(), "values visible");
    assert_eq!(app.table_rows()[0].preview, "content=****");
    assert_eq!(table_row(&note("a", "b"), false).kind, "note");
    press(&mut app, "v");
    assert_eq!(app.status_line(), "values hidden");
}

#[test]
fn details_open_and_close() {
    let mut app = app();
    press(&mut app, "\n");
    assert_eq!(app.mode, TuiMode::Detail);
    press(&mut app, "x");
    assert_eq!(app.mode, TuiMode::Detail);
    for close in ["q", "\n", "\u{1b}"] {
        press(&mut app, close);
        assert_eq!(app.mode, TuiMode::Normal);
        press(&mut app, "\n");
    }
}

#[test]
fn lines_of_details() {
    let mut secret = note("mail", "pw");
    let want = [
        ("Service: ", "mail"),
        ("Key:     ", "pw"),
        ("Type:    ", "note"),
        ("Fields:  ", "content"),
        ("Preview: ", "[hidden - press v to show]"),
        ("Engram:  ", "-"),
    ];
    let lines = detail_lines(&secret, false);
    assert_eq!(lines.len(), want.len());
    for ((label, text), (l, t)) in lines.iter().zip(want) {
        assert_eq!((label.as_str(), text.as_str()), (l, t));
    }
    secret.engram_id = Some(12);
    let lines = detail_lines(&secret, true);
    assert_eq!(lines[4].1, "content=****");
    assert_eq!(lines[5].1, "#12");
}

#[test]
fn refreshing() {
    let mut app = app();
    assert!(matches!(press(&mut app, "r"), TuiAction::Refresh));
    app.refreshed(Ok(vec![]));
    assert_eq!(app.status_line(), "refreshed");
    assert_eq!(app.selected, None);
    app.refreshed(Err(s("down")));
    assert_eq!(app.status_line(), "refreshed");
    app.refresh(Err(s("down")));
    assert_eq!(app.status_line(), "error: down");
    app.refresh(Ok(vec![note("a", "b")]));
    assert_eq!(app.selected, Some(0));
}

#[test]
fn the_window_stands_in_the_middle() {
    assert_eq!(modal_area(80, 24), Area { x: 10, y: 7, width: 60, height: 10 });
    assert_eq!(modal_area(50, 12), Area { x: 2, y: 2, width: 46, height: 8 });
    assert_eq!(modal_area(4, 4), Area { x: 2, y: 2, width: 0, height: 0 });
}
