use hyperpuzzle::ids::{Color, Piece};
use hyperpuzzle::naming::{
    iter_autonamed, name_is_used, resolve_names, warn_on_duplicates, DuplicateName,
    NamingScheme, RanOutOfNames,
};
use hyperpuzzle::ordering::CustomOrdering;

fn strings(items: &[&str]) -> Vec<String> {
    items.iter().map(|s| s.to_string()).collect()
}

fn names_of(list: &[(Color, (String, String))]) -> Vec<(u16, String, String)> {
    list.iter()
        .map(|(id, (name, display))| (id.0, name.clone(), display.clone()))
        .collect()
}

#[test]
fn user_names_are_kept_and_gaps_are_filled() {
    let mut names = NamingScheme::<Color>::new();
    names.set_name(Color(1), Some("B".to_string()));
    names.set_display(Color(2), Some("Third".to_string()));
    let order = vec![Color(0), Color(1), Color(2)];
    let result = iter_autonamed(&names, &order, &strings(&["A", "B", "C", "D"]));
    assert!(result.warnings.is_empty());
    let list = result.names.unwrap();
    assert_eq!(
        names_of(&list),
        vec![
            (0, "A".to_string(), "A".to_string()),
            (1, "B".to_string(), "B".to_string()),
            (2, "C".to_string(), "Third".to_string()),
        ]
    );
}

#[test]
fn candidates_are_handed_out_in_the_given_order() {
    let names = NamingScheme::<Color>::new();
    let order = vec![Color(2), Color(0), Color(1)];
    let list = iter_autonamed(&names, &order, &strings(&["x", "y", "z"]))
        .names
        .unwrap();
    assert_eq!(
        names_of(&list),
        vec![
            (2, "x".to_string(), "x".to_string()),
            (0, "y".to_string(), "y".to_string()),
            (1, "z".to_string(), "z".to_string()),
        ]
    );
}

#[test]
fn autonames_never_collide_with_user_names() {
    let mut names = NamingScheme::<Color>::new();
    names.set_name(Color(3), Some("A".to_string()));
    names.set_name(Color(1), Some("C".to_string()));
    let order = vec![Color(0), Color(1), Color(2), Color(3)];
    let list = iter_autonamed(&names, &order, &strings(&["A", "B", "C", "D"]))
        .names
        .unwrap();
    let got: Vec<String> = list.iter().map(|(_, (name, _))| name.clone()).collect();
    assert_eq!(got, strings(&["B", "C", "D", "A"]));
}

#[test]
fn duplicate_names_are_reported_and_kept() {
    let mut names = NamingScheme::<Color>::new();
    names.set_name(Color(0), Some("Red".to_string()));
    names.set_name(Color(1), Some("Red".to_string()));
    let order = vec![Color(0), Color(1)];
    let result = iter_autonamed(&names, &order, &strings(&[]));
    assert_eq!(
        result.warnings,
        vec![DuplicateName {
            name: "Red".to_string()
        }]
    );
    let list = result.names.unwrap();
    assert_eq!(list[0].1 .0, "Red");
    assert_eq!(list[1].1 .0, "Red");
}

#[test]
fn a_name_that_occurs_three_times_is_reported_twice() {
    let table = vec![
        Some("a".to_string()),
        None,
        Some("b".to_string()),
        Some("a".to_string()),
        Some("a".to_string()),
        Some("b".to_string()),
    ];
    let warnings: Vec<String> = warn_on_duplicates(&table)
        .into_iter()
        .map(|w| w.name)
        .collect();
    assert_eq!(warnings, strings(&["a", "a", "b"]));
}

#[test]
fn duplicate_display_names_are_reported_after_duplicate_names() {
    let mut names = NamingScheme::<Piece>::new();
    names.set_display(Piece(0), Some("Corner".to_string()));
    names.set_display(Piece(1), Some("Corner".to_string()));
    names.set_name(Piece(2), Some("p".to_string()));
    names.set_name(Piece(0), Some("p".to_string()));
    let warnings: Vec<String> = names
        .duplicate_warnings()
        .into_iter()
        .map(|w| w.name)
        .collect();
    assert_eq!(warnings, strings(&["p", "Corner"]));
}

#[test]
fn running_out_of_names_names_the_first_position_left_unnamed() {
    let mut names = NamingScheme::<Color>::new();
    names.set_name(Color(0), Some("A".to_string()));
    let order = vec![Color(0), Color(1), Color(2), Color(3)];
    let result = iter_autonamed(&names, &order, &strings(&["A", "B"]));
    assert_eq!(result.names, Err(RanOutOfNames { position: 2 }));
}

#[test]
fn no_candidates_are_needed_when_every_element_has_a_name() {
    let mut names = NamingScheme::<Color>::new();
    names.set_name(Color(0), Some("only".to_string()));
    let result = iter_autonamed(&names, &vec![Color(0)], &strings(&[]));
    assert_eq!(names_of(&result.names.unwrap())[0].1, "only");
}

#[test]
fn names_can_be_set_cleared_and_read_back() {
    let mut names = NamingScheme::<Color>::new();
    assert_eq!(names.get(Color(5)), None);
    names.set_name(Color(5), Some("far".to_string()));
    assert_eq!(names.get(Color(5)), Some("far".to_string()));
    assert_eq!(names.get(Color(4)), None);
    names.set_name(Color(5), None);
    assert_eq!(names.get(Color(5)), None);
    names.set_name(Color(9), None);
    assert_eq!(names.get(Color(9)), None);
    names.set_display(Color(1), Some("shown".to_string()));
    assert_eq!(names.get_display(Color(1)), Some("shown".to_string()));
    assert_eq!(names.get(Color(1)), None);
    names.set_name(Color(0), Some("near".to_string()));
    assert!(names.has_name(&"near".to_string()));
    assert!(!names.has_name(&"shown".to_string()));
    assert!(!names.has_name(&"far".to_string()));
}

#[test]
fn used_names_are_found() {
    let table = vec![None, Some("x".to_string())];
    assert!(name_is_used(&table, &"x".to_string()));
    assert!(!name_is_used(&table, &"y".to_string()));
}

#[test]
fn names_are_resolved_by_id_in_the_order_of_the_ordering() {
    let mut names = NamingScheme::<Color>::new();
    names.set_name(Color(1), Some("mid".to_string()));
    let mut ordering = CustomOrdering::<Color>::with_len(3).unwrap();
    ordering.reorder(&vec![Color(2)]);
    let resolved = resolve_names(&names, &ordering, &strings(&["a", "b"]));
    let table = resolved.names.unwrap();
    let got: Vec<String> = table.iter().map(|(name, _)| name.clone()).collect();
    assert_eq!(got, strings(&["b", "mid", "a"]));
}
