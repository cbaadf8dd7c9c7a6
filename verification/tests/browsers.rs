use ublock_installer::browsers::{
    browser_path, find_chrome, find_firefox, install_root_variables, CHROME_RELATIVE_PATH,
    FIREFOX_RELATIVE_PATH,
};

fn probe_with(present: &'static [&'static str]) -> impl Fn(&String, &str) -> Option<String> {
    move |root: &String, relative: &str| {
        let path = format!("{}\\{}", root, relative);
        if present.contains(&path.as_str()) {
            Some(path)
        } else {
            None
        }
    }
}

#[test]
fn relative_paths() {
    assert_eq!(CHROME_RELATIVE_PATH, "Google\\Chrome\\Application\\chrome.exe");
    assert_eq!(FIREFOX_RELATIVE_PATH, "Mozilla Firefox\\firefox.exe");
}

#[test]
fn first_root_holding_the_browser_wins() {
    let roots = vec![
        Some("C:\\Program Files".to_string()),
        None,
        Some("C:\\Users\\u\\AppData\\Local".to_string()),
    ];
    let probe = probe_with(&[
        "C:\\Users\\u\\AppData\\Local\\Google\\Chrome\\Application\\chrome.exe",
        "C:\\Program Files\\Mozilla Firefox\\firefox.exe",
    ]);
    assert_eq!(
        find_chrome(&roots, &probe),
        Some("C:\\Users\\u\\AppData\\Local\\Google\\Chrome\\Application\\chrome.exe".to_string())
    );
    assert_eq!(
        find_firefox(&roots, &probe),
        Some("C:\\Program Files\\Mozilla Firefox\\firefox.exe".to_string())
    );
}

#[test]
fn earlier_root_preferred() {
    let roots = vec![Some("A".to_string()), Some("B".to_string())];
    let probe = probe_with(&["A\\x", "B\\x"]);
    assert_eq!(browser_path(&roots, "x", &probe), Some("A\\x".to_string()));
}

#[test]
fn no_root_holds_it() {
    let roots: Vec<Option<String>> = vec![None, Some("A".to_string())];
    let probe = probe_with(&[]);
    assert_eq!(find_chrome(&roots, &probe), None);
    let empty: Vec<Option<String>> = Vec::new();
    assert_eq!(find_firefox(&empty, &probe), None);
}

#[test]
fn install_roots_in_search_order() {
    assert_eq!(install_root_variables(), vec!["PROGRAMFILES", "PROGRAMFILES(X86)", "LOCALAPPDATA"]);
}
