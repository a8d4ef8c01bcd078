use comicshelf::auth::{check_login, login_form_outcome, LoginOutcome};
use comicshelf::matchlogic::diskmatch;
use comicshelf::paths::{parent_and_level, root_of, separator_positions};
use comicshelf::records::{cHold, dbHold};
use comicshelf::scan::scan_duration_parts;
use comicshelf::theme::Theme;

#[test]
fn login_accepts_only_the_known_user() {
    let ok = check_login("blarch", "password");
    assert!(ok.sucess);
    assert_eq!(ok.token.as_deref(), Some("example_token"));
    let bad = check_login("blarch", "Password");
    assert!(!bad.sucess);
    assert!(bad.token.is_none());
    assert!(!check_login("", "").sucess);
}

#[test]
fn login_form_rules() {
    match login_form_outcome("", "x") {
        LoginOutcome::Error(m) => assert_eq!(m, "Please fill in all fields"),
        _ => panic!("expected an error"),
    }
    match login_form_outcome("name", "") {
        LoginOutcome::Error(m) => assert_eq!(m, "Please fill in all fields"),
        _ => panic!("expected an error"),
    }
    match login_form_outcome("name", "blarch") {
        LoginOutcome::Navigate(p) => assert_eq!(p, "/homepage"),
        _ => panic!("expected navigation"),
    }
    match login_form_outcome("name", "wrong") {
        LoginOutcome::Error(m) => assert_eq!(m, "Invalid credentials"),
        _ => panic!("expected an error"),
    }
}

#[test]
fn theme_toggles_back_and_forth() {
    let t = Theme::initial();
    assert!(t == Theme::Dark);
    assert_eq!(t.toggle_label(), "Switch to Light Theme");
    let u = t.toggled();
    assert!(u == Theme::Light);
    assert_eq!(u.toggle_label(), "Switch to Dark Theme");
    assert!(u.toggled() == Theme::Dark);
}

#[test]
fn scan_duration_splits() {
    assert_eq!(scan_duration_parts(0), (0, 0));
    assert_eq!(scan_duration_parts(59), (0, 0));
    assert_eq!(scan_duration_parts(3725), (62, 1));
    assert_eq!(scan_duration_parts(7200), (120, 2));
}

#[test]
fn paths_split_on_backslash() {
    assert_eq!(separator_positions("I:\\Comics\\X"), vec![2, 9]);
    assert_eq!(parent_and_level("I:\\Comics\\X"), ("I:\\Comics".to_string(), 1));
    assert_eq!(parent_and_level("I:\\X"), ("I:".to_string(), 0));
    assert_eq!(
        root_of("I:\\Comics\\NewMarvel\\X-Men\\a.cbz"),
        ("I:\\Comics\\NewMarvel".to_string(), "Comics".to_string())
    );
    assert_eq!(root_of("I:\\Comics\\NewMarvel"), ("I:\\Comics\\NewMarvel".to_string(), "Comics".to_string()));
    assert_eq!(root_of("I:\\\\x"), ("I:\\\\x".to_string(), "".to_string()));
}

#[test]
fn scanned_entries_become_rows() {
    let c = cHold {
        name: "a.cbz".to_string(),
        filepath: "I:\\a.cbz".to_string(),
        cover_path: Some("cov.webp".to_string()),
        dirornot: false,
    };
    let r: dbHold = c.to_db_row();
    assert_eq!(r.name, "a.cbz");
    assert_eq!(r.filepath, "I:\\a.cbz");
    assert_eq!(r.cover_path.as_deref(), Some("cov.webp"));
    assert_eq!(r.dirornot, 0);
    let d = cHold { name: "D".to_string(), filepath: "I:\\D".to_string(), cover_path: None, dirornot: true };
    let rd = d.to_db_row();
    assert_eq!(rd.dirornot, 1);
    assert!(rd.cover_path.is_none());
    let copy = rd.duplicate();
    assert_eq!(copy.filepath, "I:\\D");
}

#[test]
fn diskmatch_does_nothing() {
    diskmatch();
}
