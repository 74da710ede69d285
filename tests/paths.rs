use term_core::projects::{detect_projects, marker_at, AncestorProbe, MARKER_COUNT};
use term_core::paths::{expand_path, list_directory, normalize_path};
use term_core::records::DirectoryEntry;
use term_core::store::CoreError;
use term_core::text::{eq_ignore_ascii_case, str_le, trim};

#[test]
fn blank_path_is_refused() {
    assert_eq!(expand_path("", Some("/home/u")), Err(CoreError::EmptyPath));
    assert_eq!(expand_path("  \n", None), Err(CoreError::EmptyPath));
    assert_eq!(normalize_path(" "), Err(CoreError::EmptyPath));
}

#[test]
fn tilde_expands_to_home() {
    assert_eq!(expand_path("~/code", Some("/home/u")), Ok("/home/u/code".to_string()));
    assert_eq!(expand_path("  ~  ", Some("/home/u")), Ok("/home/u".to_string()));
    assert_eq!(expand_path("~code", Some("/home/u/")), Ok("/home/u/code".to_string()));
    assert_eq!(expand_path("~/code", None), Ok("~/code".to_string()));
}

#[test]
fn plain_path_is_trimmed() {
    assert_eq!(expand_path(" /var/log ", Some("/home/u")), Ok("/var/log".to_string()));
    assert_eq!(normalize_path("/var/log"), Ok("/var/log".to_string()));
}

#[test]
fn listing_orders_by_lowercase_name() {
    let entry = |n: &str| DirectoryEntry {
        name: n.to_string(),
        path: format!("/d/{}", n),
        is_dir: true,
        mod_date: None,
    };
    let listed = list_directory(vec![entry("beta"), entry("Zed"), entry("Alpha"), entry("alps")]);
    let names: Vec<&str> = listed.iter().map(|e| e.name.as_str()).collect();
    assert_eq!(names, vec!["Alpha", "alps", "beta", "Zed"]);
}

#[test]
fn text_helpers() {
    assert_eq!(trim("  a b \t"), "a b");
    assert_eq!(trim("\u{3000}x\u{3000}"), "x");
    assert!(eq_ignore_ascii_case("Work", "wORK"));
    assert!(!eq_ignore_ascii_case("Work", "Worx"));
    assert!(!eq_ignore_ascii_case("É", "é"));
    assert!(str_le("ab", "b"));
    assert!(str_le("ab", "ab"));
    assert!(!str_le("b", "ab"));
    assert!(str_le("", "a"));
}

#[test]
fn normalize_expands_against_the_home_directory() {
    let got = normalize_path("~/projects").unwrap();
    match dirs::home_dir() {
        Some(home) => {
            let home = home.display().to_string();
            let expected = if home.ends_with('/') {
                format!("{}projects", home)
            } else {
                format!("{}/projects", home)
            };
            assert_eq!(got, expected);
        }
        None => assert_eq!(got, "~/projects"),
    }
}

#[test]
fn project_roots_name_the_first_marker_found() {
    let probe = |p: &str, present: Vec<bool>| AncestorProbe { path: p.to_string(), present };
    let probes = vec![
        probe("/w/app/src", vec![false, false, false, false, false]),
        probe("/w/app", vec![false, true, true, false, false]),
        probe("/w", vec![true]),
        probe("/", vec![]),
    ];
    let roots = detect_projects(&probes);
    assert_eq!(roots.len(), 2);
    assert_eq!(roots[0].path, "/w/app");
    assert_eq!(roots[0].marker, "package.json");
    assert_eq!(roots[1].path, "/w");
    assert_eq!(roots[1].marker, ".git");
    assert_eq!(MARKER_COUNT, 5);
    assert_eq!(marker_at(2), "Cargo.toml");
    assert_eq!(marker_at(4), "bunfig.toml");
}
