use quickpaint::named::{import_named, put_named, remove_named, save_named};

fn names(v: &Vec<(String, u32)>) -> Vec<String> {
    v.iter().map(|e| e.0.clone()).collect()
}

#[test]
fn saving_under_a_used_name_replaces_the_entry_and_goes_last() {
    let mut v: Vec<(String, u32)> = vec![("Soft".to_string(), 1), ("Ink".to_string(), 2)];
    assert!(save_named(&mut v, "  Soft ", 7));
    assert_eq!(names(&v), vec!["Ink".to_string(), "Soft".to_string()]);
    assert_eq!(v[1].1, 7);
}

#[test]
fn a_blank_name_saves_nothing() {
    let mut v: Vec<(String, u32)> = vec![("Soft".to_string(), 1)];
    assert!(!save_named(&mut v, "   ", 9));
    assert_eq!(v, vec![("Soft".to_string(), 1)]);
}

#[test]
fn removing_a_name_keeps_the_others_in_order() {
    let mut v: Vec<(String, u32)> = vec![
        ("A".to_string(), 1),
        ("B".to_string(), 2),
        ("A".to_string(), 3),
        ("C".to_string(), 4),
    ];
    remove_named(&mut v, "A");
    assert_eq!(v, vec![("B".to_string(), 2), ("C".to_string(), 4)]);
    put_named(&mut v, "B".to_string(), 5);
    assert_eq!(v, vec![("C".to_string(), 4), ("B".to_string(), 5)]);
}

#[test]
fn importing_replaces_presets_of_the_same_name() {
    let mut v: Vec<(String, u32)> = vec![("Soft".to_string(), 1), ("Ink".to_string(), 2)];
    let n = import_named(&mut v, vec![("Ink".to_string(), 8), ("Chalk".to_string(), 9), ("Ink".to_string(), 10)]);
    assert_eq!(n, 3);
    assert_eq!(v, vec![("Soft".to_string(), 1), ("Chalk".to_string(), 9), ("Ink".to_string(), 10)]);
}
