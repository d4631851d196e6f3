use gruth::dir_picker::{picker_action, DirEntry, DirListing, DirPicker, PickerAction, RawDirEntry, MAX_ENTRIES};
use gruth::keys::{Key, KeyCode};

fn raw(name: &str, git: bool) -> RawDirEntry {
    RawDirEntry {
        name: name.to_string(),
        path: format!("/home/u/{}", name),
        is_symlink: false,
        is_dir: true,
        readable: true,
        has_git: git,
        item_count: Some(1),
    }
}

fn names(p: &DirPicker) -> Vec<String> {
    p.entries.iter().map(|e| e.name.clone()).collect()
}

#[test]
fn picker_lists_git_first_then_by_name() {
    let listing = DirListing::Read(vec![raw("zed", false), raw("beta", true), raw("alpha", false), raw("alpha2", true)]);
    let p = DirPicker::new("/home/u".to_string(), None, listing);
    assert_eq!(names(&p), vec!["alpha2", "beta", "alpha", "zed"]);
    assert_eq!(p.selected, 0);
    assert!(!p.show_hidden);
    assert_eq!(p.current_dir, "/home/u");
}

#[test]
fn picker_unreadable_entry_is_not_git() {
    let mut locked = raw("locked", true);
    locked.readable = false;
    locked.item_count = None;
    let p = DirPicker::new("/home/u".to_string(), None, DirListing::Read(vec![locked, raw("b", false)]));
    assert_eq!(names(&p), vec!["b", "locked"]);
    assert!(!p.entries[1].is_git);
}

#[test]
fn picker_skips_hidden_symlinks_files() {
    let mut link = raw("link", true);
    link.is_symlink = true;
    let mut file = raw("file.txt", false);
    file.is_dir = false;
    let listing = DirListing::Read(vec![raw(".hidden", false), link, file, raw("dir", false)]);
    let p = DirPicker::new("/home/u".to_string(), Some("/real/home/u".to_string()), listing);
    assert_eq!(names(&p), vec!["dir"]);
    assert_eq!(p.current_dir, "/real/home/u");
}

#[test]
fn picker_show_hidden_toggle() {
    let mut p = DirPicker::new("/home/u".to_string(), None, DirListing::Read(vec![raw(".cfg", false), raw("b", false)]));
    assert_eq!(names(&p), vec!["b"]);
    p.toggle_hidden(None, DirListing::Read(vec![raw(".cfg", false), raw("b", false)]));
    assert!(p.show_hidden);
    assert_eq!(names(&p), vec![".cfg", "b"]);
    assert_eq!(p.selected, 1);
}

#[test]
fn picker_restores_selection_by_name() {
    let mut p = DirPicker::new("/home/u".to_string(), None, DirListing::Read(vec![raw("a", false), raw("b", false), raw("c", false)]));
    p.select_next();
    p.select_next();
    assert_eq!(p.selected_path(), Some(&"/home/u/c".to_string()));
    p.refresh(None, DirListing::Read(vec![raw("c", false), raw("0", false), raw("a", false), raw("b", false)]));
    assert_eq!(names(&p), vec!["0", "a", "b", "c"]);
    assert_eq!(p.selected, 3);
    p.refresh(None, DirListing::Read(vec![raw("x", false)]));
    assert_eq!(p.selected, 0);
    let mut q = DirPicker::new("/home/u".to_string(), None, DirListing::Read(vec![raw("a", false), raw("b", false), raw("c", false)]));
    q.select_next();
    q.refresh(None, DirListing::Read(vec![raw("a", false), raw("z", false), raw("y", false)]));
    assert_eq!(q.selected, 1);
}

#[test]
fn picker_unreadable_goes_to_parent() {
    let mut p = DirPicker::new("/home/u".to_string(), None, DirListing::Read(vec![raw("a", false)]));
    p.enter("/home/u/a".to_string(), None, DirListing::Unreadable { parent: Some("/home/u".to_string()) });
    assert_eq!(p.current_dir, "/home/u");
    assert!(p.entries.is_empty());
    assert!(p.selected_path().is_none());
    let q = DirPicker::new("/".to_string(), None, DirListing::Unreadable { parent: None });
    assert_eq!(q.current_dir, "/");
}

#[test]
fn picker_caps_at_max_entries() {
    let mut raws = Vec::new();
    for i in 0..(MAX_ENTRIES + 10) {
        raws.push(raw(&format!("d{:04}", i), false));
    }
    let p = DirPicker::new("/home/u".to_string(), None, DirListing::Read(raws));
    assert_eq!(p.entries.len(), MAX_ENTRIES);
    assert_eq!(p.entries.last().unwrap().name, format!("d{:04}", MAX_ENTRIES - 1));
}

#[test]
fn picker_select_bounds() {
    let mut p = DirPicker::new("/home/u".to_string(), None, DirListing::Read(vec![raw("a", false), raw("b", false)]));
    p.select_prev();
    assert_eq!(p.selected, 0);
    p.select_next();
    p.select_next();
    assert_eq!(p.selected, 1);
    let mut e = DirPicker::new("/home/u".to_string(), None, DirListing::Read(vec![]));
    e.select_next();
    assert_eq!(e.selected, 0);
}

#[test]
fn picker_display_path_home() {
    let p = DirPicker::new("/home/u/projects".to_string(), None, DirListing::Read(vec![]));
    assert_eq!(p.display_path(Some("/home/u")), "~/projects");
    assert_eq!(p.display_path(Some("/home/other")), "/home/u/projects");
    assert_eq!(p.display_path(None), "/home/u/projects");
    assert_eq!(p.display_path(Some("/home/u/projects")), "~");
}

#[test]
fn picker_count_and_info_text() {
    let mk = |readable: bool, is_git: bool, count: Option<usize>| DirEntry {
        name: "n".to_string(),
        path: "/n".to_string(),
        is_git,
        readable,
        item_count: count,
    };
    assert_eq!(mk(false, false, Some(3)).count_text(), "🔒");
    assert_eq!(mk(true, false, Some(0)).count_text(), "empty");
    assert_eq!(mk(true, false, Some(3)).count_text(), "3 dirs");
    assert_eq!(mk(true, false, Some(500)).count_text(), "500+ dirs");
    assert_eq!(mk(true, false, None).count_text(), "—");
    assert_eq!(mk(false, true, None).info_text(), "permission denied");
    assert_eq!(mk(true, true, None).info_text(), "[git]");
    assert_eq!(mk(true, false, None).info_text(), "");
}

#[test]
fn picker_keys() {
    let k = |code: KeyCode| picker_action(Key { code, ctrl: false });
    assert_eq!(k(KeyCode::Char('q')), PickerAction::Quit);
    assert_eq!(picker_action(Key { code: KeyCode::Char('c'), ctrl: true }), PickerAction::Quit);
    assert_eq!(k(KeyCode::Char('c')), PickerAction::Nothing);
    assert_eq!(k(KeyCode::Enter), PickerAction::Choose);
    assert_eq!(k(KeyCode::Char(' ')), PickerAction::Choose);
    assert_eq!(k(KeyCode::Right), PickerAction::Open);
    assert_eq!(k(KeyCode::Tab), PickerAction::Open);
    assert_eq!(k(KeyCode::Char('l')), PickerAction::Open);
    assert_eq!(k(KeyCode::Esc), PickerAction::Back);
    assert_eq!(k(KeyCode::Backspace), PickerAction::Back);
    assert_eq!(k(KeyCode::Char('h')), PickerAction::Back);
    assert_eq!(k(KeyCode::Char('j')), PickerAction::Down);
    assert_eq!(k(KeyCode::Up), PickerAction::Up);
    assert_eq!(k(KeyCode::Char('.')), PickerAction::ToggleHidden);
    assert_eq!(k(KeyCode::Char('~')), PickerAction::Home);
    assert_eq!(k(KeyCode::Other), PickerAction::Nothing);
}
