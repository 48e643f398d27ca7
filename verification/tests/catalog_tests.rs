use xbekit::catalog::{Config, Mod, ModList};

fn args(list: &[&str]) -> Vec<String> {
    list.iter().map(|s| s.to_string()).collect()
}

#[test]
fn update_defaults_on_when_unconfigured() {
    assert!(Config::new(&args(&[])).check_update);
    assert!(Config::new(&args(&["prog"])).check_update);
    assert!(Config::new(&args(&["prog", "--update"])).check_update);
}

#[test]
fn update_switch_reads_its_value() {
    assert!(!Config::new(&args(&["prog", "--update", "false"])).check_update);
    assert!(Config::new(&args(&["prog", "--update", "true"])).check_update);
}

#[test]
fn unreadable_values_fall_back_to_the_default() {
    assert!(Config::new(&args(&["prog", "--other", "false"])).check_update);
    assert!(Config::new(&args(&["prog", "--update", "maybe"])).check_update);
}

fn sample_mod(name: &str) -> Mod {
    Mod {
        name: name.to_string(),
        author: "a".to_string(),
        description: "d".to_string(),
        website_url: "w".to_string(),
        download_url: "u".to_string(),
    }
}

#[test]
fn enabled_indices_keep_catalog_order() {
    let list = ModList {
        mods: vec![sample_mod("one"), sample_mod("two"), sample_mod("three")],
    };
    let picked = list.enabled_indices(&vec![true, false, true]);
    assert_eq!(picked, vec![0, 2]);
    let none = list.enabled_indices(&vec![false, false, false]);
    assert!(none.is_empty());
}

#[test]
fn enabled_indices_never_pass_the_catalog_end() {
    let list = ModList { mods: vec![sample_mod("only")] };
    let picked = list.enabled_indices(&vec![true, true, true]);
    assert_eq!(picked, vec![0]);
}
