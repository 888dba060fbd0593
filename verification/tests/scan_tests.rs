use app_launcher::overrides::Overrides;
use app_launcher::scan::{get_installed_apps, scan_roots};

fn listing(root: &str, entries: &[&str]) -> (String, Vec<String>) {
    (root.to_string(), entries.iter().map(|e| e.to_string()).collect())
}

#[test]
fn scan_filters_and_sorts() {
    let roots = vec![listing(
        "/Applications",
        &["Zeta.app", "alpha.app", ".hidden.app", "notanapp.txt"],
    )];
    let apps = get_installed_apps(&roots, &Overrides::new());
    assert_eq!(apps.len(), 2);
    // Sorted case-insensitively: "alpha" before "Zeta".
    assert_eq!(apps[0].name, "alpha");
    assert_eq!(apps[1].name, "Zeta");
    assert_eq!(apps[0].path, "/Applications/alpha.app");
    assert_eq!(apps[1].path, "/Applications/Zeta.app");
    assert_eq!(apps[0].category, "Other");
    assert_eq!(apps[1].category, "Other");
}

#[test]
fn ids_follow_discovery_order_not_sort_order() {
    let roots = vec![listing("/Applications", &["Charlie.app", "Alpha.app", "Bravo.app"])];
    let apps = get_installed_apps(&roots, &Overrides::new());
    assert_eq!(apps.len(), 3);
    // Sorted by name...
    assert_eq!(apps[0].name, "Alpha");
    assert_eq!(apps[1].name, "Bravo");
    assert_eq!(apps[2].name, "Charlie");
    // ...but ids were assigned before the sort, in discovery order.
    assert_eq!(apps[0].id, "1");
    assert_eq!(apps[1].id, "2");
    assert_eq!(apps[2].id, "0");
}

#[test]
fn ids_run_across_roots() {
    let roots = vec![
        listing("/Applications", &["B.app"]),
        listing("/System/Applications", &["A.app", "junk"]),
        listing("/System/Applications/Utilities", &["C.app"]),
    ];
    let apps = get_installed_apps(&roots, &Overrides::new());
    assert_eq!(apps.len(), 3);
    assert_eq!(apps[0].name, "A");
    assert_eq!(apps[0].id, "1");
    assert_eq!(apps[1].name, "B");
    assert_eq!(apps[1].id, "0");
    assert_eq!(apps[2].name, "C");
    assert_eq!(apps[2].id, "2");
}

#[test]
fn override_beats_guess() {
    let mut ov = Overrides::new();
    ov.set_override("/Applications/Xcode.app".to_string(), "Work".to_string());
    let roots = vec![listing("/Applications", &["Xcode.app", "Safari.app"])];
    let apps = get_installed_apps(&roots, &ov);
    assert_eq!(apps.len(), 2);
    assert_eq!(apps[1].name, "Xcode");
    assert_eq!(apps[1].category, "Work");
    // The untouched bundle keeps its guess.
    assert_eq!(apps[0].name, "Safari");
    assert_eq!(apps[0].category, "Internet");
}

#[test]
fn override_without_category_keeps_guess() {
    let json = "{\"/Applications/Xcode.app\": {\"category\": null}}".to_string();
    let ov = Overrides::parse(&Some(json));
    let roots = vec![listing("/Applications", &["Xcode.app"])];
    let apps = get_installed_apps(&roots, &ov);
    assert_eq!(apps.len(), 1);
    assert_eq!(apps[0].category, "Development");
}

#[test]
fn override_for_other_path_is_ignored() {
    let mut ov = Overrides::new();
    ov.set_override("/elsewhere/Xcode.app".to_string(), "Work".to_string());
    let roots = vec![listing("/Applications", &["Xcode.app"])];
    let apps = get_installed_apps(&roots, &ov);
    assert_eq!(apps[0].category, "Development");
}

#[test]
fn entry_edge_cases() {
    let roots = vec![listing(
        "/Applications",
        &[".app", "App.", "foo.APP", "x.app", "nested.tar.app"],
    )];
    let apps = get_installed_apps(&roots, &Overrides::new());
    // Only "x.app" and "nested.tar.app" qualify: ".app" has no extension,
    // "App." has an empty one, and the suffix test is case-sensitive.
    assert_eq!(apps.len(), 2);
    assert_eq!(apps[0].name, "nested.tar");
    assert_eq!(apps[1].name, "x");
}

#[test]
fn empty_roots_give_empty_list() {
    let roots: Vec<(String, Vec<String>)> = vec![listing("/Applications", &[])];
    let apps = get_installed_apps(&roots, &Overrides::new());
    assert!(apps.is_empty());
    let none: Vec<(String, Vec<String>)> = Vec::new();
    assert!(get_installed_apps(&none, &Overrides::new()).is_empty());
}

#[test]
fn fixed_roots_in_order() {
    assert_eq!(
        scan_roots(),
        vec![
            "/Applications".to_string(),
            "/System/Applications".to_string(),
            "/System/Applications/Utilities".to_string(),
        ]
    );
}

#[test]
fn same_name_in_two_roots_keeps_both() {
    let roots = vec![
        listing("/Applications", &["Mail.app"]),
        listing("/System/Applications", &["Mail.app"]),
    ];
    let apps = get_installed_apps(&roots, &Overrides::new());
    assert_eq!(apps.len(), 2);
    assert_eq!(apps[0].name, "Mail");
    assert_eq!(apps[1].name, "Mail");
    assert_eq!(apps[0].category, "Social");
    assert_eq!(apps[1].category, "Social");
    // Equal names keep discovery order.
    assert_eq!(apps[0].id, "0");
    assert_eq!(apps[0].path, "/Applications/Mail.app");
    assert_eq!(apps[1].id, "1");
    assert_eq!(apps[1].path, "/System/Applications/Mail.app");
}
