use loom_core::attrs::Attributes;
use loom_core::util::{find_values_ci, get_first, get_values, has_attr};

fn strings(items: &[&str]) -> Vec<String> {
    items.iter().map(|s| s.to_string()).collect()
}

fn sample() -> Attributes {
    let mut a = Attributes::new();
    a.insert("cn".to_string(), strings(&["Test", "Other"]));
    a.insert("mail".to_string(), strings(&["t@x"]));
    a.insert("empty".to_string(), Vec::new());
    a
}

#[test]
fn lookup_ignores_case() {
    let a = sample();
    let expected = strings(&["Test", "Other"]);
    assert_eq!(get_values(&a, "CN"), expected);
    assert_eq!(get_values(&a, "cn"), expected);
    assert_eq!(get_values(&a, "Cn"), expected);
    assert!(has_attr(&a, "CN"));
    assert!(has_attr(&a, "cn"));
    assert!(has_attr(&a, "Cn"));
    assert_eq!(find_values_ci(&a, "MAIL"), Some(&strings(&["t@x"])));
}

#[test]
fn lookup_of_missing_name() {
    let a = sample();
    assert!(get_values(&a, "sn").is_empty());
    assert!(!has_attr(&a, "sn"));
    assert_eq!(find_values_ci(&a, "sn"), None);
    assert_eq!(get_first(&a, "sn"), None);
}

#[test]
fn first_value() {
    let a = sample();
    assert_eq!(get_first(&a, "CN"), Some("Test".to_string()));
    assert_eq!(get_first(&a, "empty"), None);
}

#[test]
fn attributes_stay_sorted_and_unique() {
    let mut a = Attributes::new();
    a.insert("sn".to_string(), strings(&["S"]));
    a.insert("cn".to_string(), strings(&["C"]));
    a.insert("mail".to_string(), strings(&["M"]));
    a.insert("cn".to_string(), strings(&["C2"]));
    let names: Vec<&String> = a.pairs().iter().map(|p| &p.0).collect();
    assert_eq!(names, vec!["cn", "mail", "sn"]);
    assert_eq!(a.get("cn"), Some(&strings(&["C2"])));
    assert_eq!(a.len(), 3);
}

#[test]
fn first_match_in_canonical_order_wins() {
    let mut a = Attributes::new();
    a.insert("cn".to_string(), strings(&["lower"]));
    a.insert("CN".to_string(), strings(&["upper"]));
    assert_eq!(get_values(&a, "Cn"), strings(&["upper"]));
}
