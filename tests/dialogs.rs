use loom_core::dialog::{
    expand_tilde_with, Action, ActiveField, Key, Phase, ProfileExportDialog, ProfileImportDialog,
};
use loom_core::layout_bar::{ActiveLayout, LayoutBar};

fn strings(items: &[&str]) -> Vec<String> {
    items.iter().map(|s| s.to_string()).collect()
}

#[test]
fn export_dialog_selects_and_submits() {
    let mut d = ProfileExportDialog::new();
    assert!(!d.visible);
    d.show(&strings(&["one", "two", "three"]));
    assert!(d.visible);
    assert_eq!(d.filename, "profiles.toml");
    assert!(matches!(d.handle_key_event(Key::Down, 3), Action::NoOp));
    assert_eq!(d.cursor, 1);
    d.handle_key_event(Key::Char(' '), 3);
    assert!(!d.profiles[1].1);
    match d.handle_key_event(Key::Enter, 3) {
        Action::ExportProfiles { indices, path } => {
            assert_eq!(indices, vec![0, 2]);
            assert_eq!(path, "profiles.toml");
        }
        other => panic!("unexpected {:?}", other),
    }
    assert!(!d.visible);
}

#[test]
fn export_dialog_select_all_toggles() {
    let mut d = ProfileExportDialog::new();
    d.show(&strings(&["one", "two"]));
    d.handle_key_event(Key::Char('a'), 2);
    assert!(d.profiles.iter().all(|p| !p.1));
    match d.handle_key_event(Key::Enter, 2) {
        Action::ErrorMessage(m) => assert_eq!(m, "No profiles selected"),
        other => panic!("unexpected {:?}", other),
    }
    assert!(d.visible);
    d.handle_key_event(Key::Char('a'), 2);
    assert!(d.profiles.iter().all(|p| p.1));
}

#[test]
fn export_dialog_needs_a_filename() {
    let mut d = ProfileExportDialog::new();
    d.show(&strings(&["one"]));
    d.handle_key_event(Key::Tab, 1);
    assert_eq!(d.active_field, ActiveField::Filename);
    for _ in 0.."profiles.toml".len() {
        d.handle_key_event(Key::Backspace, 1);
    }
    d.handle_key_event(Key::Char(' '), 1);
    assert_eq!(d.filename, " ");
    match d.handle_key_event(Key::Enter, 1) {
        Action::ErrorMessage(m) => assert_eq!(m, "Filename is required"),
        other => panic!("unexpected {:?}", other),
    }
    assert!(matches!(d.handle_key_event(Key::Esc, 1), Action::ClosePopup));
    assert!(!d.visible);
}

#[test]
fn import_dialog_flow() {
    let mut d = ProfileImportDialog::new();
    d.show();
    assert_eq!(d.phase, Phase::FilePath);
    match d.handle_key_event(Key::Enter) {
        Action::OpenFile(p) => assert_eq!(p, "profiles.toml"),
        other => panic!("unexpected {:?}", other),
    }
    d.load_profiles(&strings(&["p1 (h:389)", "p2 (h:636)"]));
    assert_eq!(d.phase, Phase::SelectProfiles);
    d.handle_key_event(Key::Char(' '));
    assert!(!d.parsed_profiles[0].1);
    d.handle_key_event(Key::Char('a'));
    assert!(d.parsed_profiles.iter().all(|p| p.1));
    match d.handle_key_event(Key::Enter) {
        Action::ImportProfiles(ix) => assert_eq!(ix, vec![0, 1]),
        other => panic!("unexpected {:?}", other),
    }
    assert!(!d.visible);
}

#[test]
fn import_dialog_escape_goes_back_then_closes() {
    let mut d = ProfileImportDialog::new();
    d.show();
    d.load_profiles(&strings(&["p1"]));
    assert!(matches!(d.handle_key_event(Key::Esc), Action::NoOp));
    assert_eq!(d.phase, Phase::FilePath);
    assert!(d.parsed_profiles.is_empty());
    assert!(d.visible);
    assert!(matches!(d.handle_key_event(Key::Esc), Action::ClosePopup));
    assert!(!d.visible);
}

#[test]
fn tilde_expansion() {
    let home = Some("/home/u".to_string());
    assert_eq!(expand_tilde_with("~/p.toml", &home), "/home/u/p.toml");
    assert_eq!(expand_tilde_with("~/p.toml", &None), "~/p.toml");
    assert_eq!(expand_tilde_with("/tmp/p.toml", &home), "/tmp/p.toml");
    assert_eq!(expand_tilde_with("~p.toml", &home), "~p.toml");
}

#[test]
fn layout_bar_marks_the_active_layout() {
    let mut bar = LayoutBar::new();
    assert_eq!(bar.active, ActiveLayout::Browser);
    let s = bar.segments(30);
    assert_eq!(s, strings(&[" ", "[Browser]", "  ", " Connections ", "     "]));
    bar.active = ActiveLayout::Connections;
    let s = bar.segments(10);
    assert_eq!(s, strings(&[" ", " Browser ", "  ", "[Connections]", ""]));
}
