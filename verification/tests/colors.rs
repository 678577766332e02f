use hyperpuzzle::color_system::ColorSystemBuilder;
use hyperpuzzle::colors::{DefaultColor, DefaultColorGradient, Rgb};
use hyperpuzzle::ids::{Color, IndexOutOfRange};
use hyperpuzzle::palette::{default_scheme, ColorScheme, CustomColor, GlobalColorPalette};
use indexmap::IndexMap;

fn names(items: &[&str]) -> Vec<String> {
    items.iter().map(|s| s.to_string()).collect()
}

fn rgb(r: u8, g: u8, b: u8) -> Rgb {
    Rgb { rgb: [r, g, b] }
}

fn single(name: &str) -> DefaultColor {
    DefaultColor::Single {
        name: name.to_string(),
    }
}

fn palette() -> GlobalColorPalette {
    let mut builtin_colors = IndexMap::new();
    builtin_colors.insert("Red".to_string(), rgb(255, 0, 0));
    builtin_colors.insert("Green".to_string(), rgb(0, 255, 0));
    let mut builtin_color_sets = IndexMap::new();
    builtin_color_sets.insert("Pair".to_string(), vec![rgb(1, 1, 1), rgb(2, 2, 2)]);
    builtin_color_sets.insert("Lone".to_string(), vec![rgb(9, 9, 9)]);
    builtin_color_sets.insert("Duo".to_string(), vec![rgb(3, 3, 3), rgb(4, 4, 4)]);
    builtin_color_sets.insert("Trio".to_string(), vec![rgb(5, 5, 5); 3]);
    builtin_color_sets.insert("Solo".to_string(), vec![rgb(7, 7, 7)]);
    GlobalColorPalette {
        custom_colors: vec![
            CustomColor {
                name: "Mine".to_string(),
                value: rgb(10, 20, 30),
            },
            CustomColor {
                name: "Red".to_string(),
                value: rgb(200, 0, 0),
            },
            CustomColor {
                name: "Mine".to_string(),
                value: rgb(1, 2, 3),
            },
        ],
        builtin_colors,
        builtin_color_sets,
    }
}

fn system(color_names: &[&str]) -> hyperpuzzle::color_system::ColorSystem {
    let mut builder = ColorSystemBuilder::new("id".to_string(), "Name".to_string());
    for name in color_names {
        let color = builder.add().unwrap();
        builder.names.set_name(color, Some(name.to_string()));
    }
    builder.build(&names(&[])).colors.unwrap()
}

fn entries(scheme: &ColorScheme) -> Vec<(String, DefaultColor)> {
    scheme
        .iter()
        .map(|(k, v)| (k.clone(), v.clone()))
        .collect()
}

#[test]
fn two_colors_named_red_are_built_with_one_warning() {
    let mut builder = ColorSystemBuilder::new("cube".to_string(), "Cube".to_string());
    let first = builder.add().unwrap();
    let second = builder.add().unwrap();
    builder.names.set_name(first, Some("Red".to_string()));
    builder.names.set_name(second, Some("Red".to_string()));
    let build = builder.build(&names(&["A", "B"]));
    assert_eq!(build.warnings.len(), 1);
    assert_eq!(build.warnings[0].name, "Red");
    let built = build.colors.unwrap();
    assert_eq!(built.list.len(), 2);
    assert_eq!(built.list.at(first).name, "Red");
    assert_eq!(built.list.at(second).name, "Red");
    assert_eq!(built.id, "cube");
    assert_eq!(built.name, "Cube");
}

#[test]
fn colors_keep_their_default_colors_as_references() {
    let mut builder = ColorSystemBuilder::new("id".to_string(), "Name".to_string());
    let a = builder.add().unwrap();
    let b = builder.add().unwrap();
    assert_eq!(builder.set_default_color(a, Some(single("Red"))), Ok(()));
    assert_eq!(
        builder.set_default_color(Color(5), None),
        Err(IndexOutOfRange { index: 5, len: 2 })
    );
    let built = builder.build(&names(&["x", "y"])).colors.unwrap();
    assert_eq!(built.list.at(a).default_color, Some(single("Red")));
    assert_eq!(built.list.at(b).default_color, None);
    assert_eq!(built.list.at(a).name, "x");
    assert_eq!(built.list.at(b).name, "y");
    assert_eq!(built.names(), names(&["x", "y"]));
}

#[test]
fn colors_without_names_need_candidates() {
    let mut builder = ColorSystemBuilder::new("id".to_string(), "Name".to_string());
    builder.add().unwrap();
    let build = builder.build(&names(&[]));
    assert!(build.colors.is_err());
}

#[test]
fn the_internal_color_is_never_handed_out() {
    let mut builder = ColorSystemBuilder::new("id".to_string(), "Name".to_string());
    for i in 0..65535u32 {
        assert_eq!(builder.add(), Ok(Color(i as u16)));
    }
    assert!(builder.add().is_err());
    assert_eq!(builder.len(), 65535);
}

#[test]
fn the_gradient_has_a_name_that_leads_back_to_it() {
    assert_eq!(DefaultColorGradient::Rainbow.name(), "Rainbow");
    assert_eq!(
        DefaultColorGradient::from_name(&"Rainbow".to_string()),
        Some(DefaultColorGradient::Rainbow)
    );
    assert_eq!(DefaultColorGradient::from_name(&"rainbow".to_string()), None);
    assert_eq!(DefaultColorGradient::default(), DefaultColorGradient::Rainbow);
}

#[test]
fn default_colors_on_a_gradient_carry_index_and_total() {
    assert_eq!(
        DefaultColorGradient::Rainbow.default_color_at(2, 7),
        DefaultColor::Gradient {
            gradient_name: "Rainbow".to_string(),
            index: 2,
            total: 7
        }
    );
    assert_eq!(
        DefaultColorGradient::Rainbow.default_color_at_end(),
        DefaultColor::Gradient {
            gradient_name: "Rainbow".to_string(),
            index: usize::MAX,
            total: usize::MAX
        }
    );
}

#[test]
fn sampling_gives_what_the_gradient_of_colorous_gives() {
    for (index, total) in [(0, 1), (0, 4), (1, 4), (3, 4), (9, 4), (usize::MAX, usize::MAX)] {
        assert_eq!(
            DefaultColorGradient::Rainbow.sample(index, total).rgb,
            colorous::RAINBOW.eval_rational(index, total).as_array()
        );
    }
    assert_ne!(
        DefaultColorGradient::Rainbow.sample(0, 4),
        DefaultColorGradient::Rainbow.sample(2, 4)
    );
}

#[test]
fn the_palette_resolves_each_kind_of_reference() {
    let palette = palette();
    assert_eq!(palette.get(&DefaultColor::Unknown), None);
    assert_eq!(
        palette.get(&DefaultColor::HexCode { rgb: rgb(1, 2, 3) }),
        Some(rgb(1, 2, 3))
    );
    assert_eq!(palette.get(&single("Green")), Some(rgb(0, 255, 0)));
    assert_eq!(palette.get(&single("Red")), Some(rgb(255, 0, 0)));
    assert_eq!(palette.get(&single("Mine")), Some(rgb(10, 20, 30)));
    assert_eq!(palette.get(&single("Nobody's")), None);
    let member = |set_name: &str, index: usize| DefaultColor::ColorSet {
        set_name: set_name.to_string(),
        index,
    };
    assert_eq!(palette.get(&member("Pair", 1)), Some(rgb(2, 2, 2)));
    assert_eq!(palette.get(&member("Pair", 2)), None);
    assert_eq!(palette.get(&member("Quartet", 0)), None);
    assert_eq!(
        palette.get(&DefaultColorGradient::Rainbow.default_color_at(1, 3)),
        Some(DefaultColorGradient::Rainbow.sample(1, 3))
    );
    assert_eq!(
        palette.get(&DefaultColor::Gradient {
            gradient_name: "Sunset".to_string(),
            index: 0,
            total: 2
        }),
        None
    );
    assert_eq!(palette.get_set("Lone"), Some(&vec![rgb(9, 9, 9)]));
    assert_eq!(palette.get_set("lone"), None);
}

#[test]
fn the_palette_knows_what_it_resolves() {
    let palette = palette();
    assert!(!palette.has(&DefaultColor::Unknown));
    assert!(palette.has(&DefaultColor::HexCode { rgb: rgb(0, 0, 0) }));
    assert!(palette.has(&single("Mine")));
    assert!(!palette.has(&single("Yours")));
    assert!(palette.has(&DefaultColor::ColorSet {
        set_name: "Trio".to_string(),
        index: 2
    }));
    assert!(!palette.has(&DefaultColor::ColorSet {
        set_name: "Trio".to_string(),
        index: 3
    }));
    assert!(palette.has(&DefaultColor::Gradient {
        gradient_name: "Rainbow".to_string(),
        index: 5,
        total: 0
    }));
    assert!(!palette.has(&DefaultColor::Gradient {
        gradient_name: "Sunset".to_string(),
        index: 0,
        total: 1
    }));
}

#[test]
fn a_scheme_with_other_keys_is_rebuilt_from_the_color_names() {
    let palette = palette();
    let system = system(&["C", "A", "D"]);
    let mut scheme = ColorScheme::new();
    scheme.insert("A".to_string(), DefaultColor::HexCode { rgb: rgb(1, 1, 1) });
    scheme.insert("B".to_string(), single("Red"));
    scheme.insert("C".to_string(), single("Green"));
    let changed = palette.ensure_color_scheme_is_valid_for_color_system(&mut scheme, &system);
    assert!(changed);
    assert_eq!(
        entries(&scheme),
        vec![
            ("C".to_string(), single("Green")),
            ("A".to_string(), DefaultColor::HexCode { rgb: rgb(1, 1, 1) }),
            ("D".to_string(), DefaultColor::Unknown),
        ]
    );
}

#[test]
fn references_that_the_palette_cannot_resolve_become_unknown() {
    let palette = palette();
    let system = system(&["A", "B", "C"]);
    let mut scheme = ColorScheme::new();
    scheme.insert("A".to_string(), single("Gone"));
    scheme.insert("B".to_string(), single("Red"));
    scheme.insert("C".to_string(), DefaultColor::Unknown);
    let changed = palette.ensure_color_scheme_is_valid_for_color_system(&mut scheme, &system);
    assert!(changed);
    assert_eq!(
        entries(&scheme),
        vec![
            ("A".to_string(), DefaultColor::Unknown),
            ("B".to_string(), single("Red")),
            ("C".to_string(), DefaultColor::Unknown),
        ]
    );
}

#[test]
fn a_valid_scheme_is_left_alone() {
    let palette = palette();
    let system = system(&["A", "B"]);
    let mut scheme = ColorScheme::new();
    scheme.insert("A".to_string(), DefaultColor::Unknown);
    scheme.insert("B".to_string(), single("Mine"));
    let before = entries(&scheme);
    assert!(!palette.ensure_color_scheme_is_valid_for_color_system(&mut scheme, &system));
    assert_eq!(entries(&scheme), before);
    let mut reset_only = scheme.clone();
    assert!(!palette.reset_unresolved_colors(&mut reset_only));
}

#[test]
fn a_second_repair_changes_nothing() {
    let palette = palette();
    let system = system(&["X", "Y", "Z"]);
    let mut scheme = ColorScheme::new();
    scheme.insert("Z".to_string(), single("Gone"));
    scheme.insert("Q".to_string(), single("Red"));
    scheme.insert("X".to_string(), single("Green"));
    assert!(palette.ensure_color_scheme_is_valid_for_color_system(&mut scheme, &system));
    let after_first = entries(&scheme);
    assert!(!palette.ensure_color_scheme_is_valid_for_color_system(&mut scheme, &system));
    assert_eq!(entries(&scheme), after_first);
    assert_eq!(
        after_first,
        vec![
            ("X".to_string(), single("Green")),
            ("Y".to_string(), DefaultColor::Unknown),
            ("Z".to_string(), DefaultColor::Unknown),
        ]
    );
}

#[test]
fn a_color_system_with_a_repeated_name_is_never_matched() {
    let palette = palette();
    let system = system(&["Red", "Red"]);
    let mut scheme = ColorScheme::new();
    scheme.insert("Red".to_string(), DefaultColor::HexCode { rgb: rgb(1, 1, 1) });
    assert!(palette.ensure_color_scheme_is_valid_for_color_system(&mut scheme, &system));
    assert_eq!(
        entries(&scheme),
        vec![("Red".to_string(), DefaultColor::Unknown)]
    );
    assert!(palette.ensure_color_scheme_is_valid_for_color_system(&mut scheme, &system));
}

#[test]
fn color_sets_are_grouped_by_size_in_ascending_order() {
    let palette = palette();
    let groups = palette.groups_of_sets();
    let got: Vec<(usize, Vec<&str>)> = groups
        .iter()
        .map(|(size, sets)| (*size, sets.iter().map(|(name, _)| name.as_str()).collect()))
        .collect();
    assert_eq!(
        got,
        vec![
            (1, vec!["Lone", "Solo"]),
            (2, vec!["Pair", "Duo"]),
            (3, vec!["Trio"]),
        ]
    );
    assert_eq!(groups[1].1[1].1, &vec![rgb(3, 3, 3), rgb(4, 4, 4)]);
    assert!(GlobalColorPalette::default().groups_of_sets().is_empty());
}

#[test]
fn the_default_scheme_gives_each_color_its_own_default_color() {
    let mut builder = ColorSystemBuilder::new("id".to_string(), "Name".to_string());
    let a = builder.add().unwrap();
    builder.add().unwrap();
    builder.set_default_color(a, Some(single("Red"))).unwrap();
    let system = builder.build(&names(&["Front", "Back"])).colors.unwrap();
    let scheme = default_scheme(&system);
    assert_eq!(
        entries(&scheme),
        vec![
            ("Front".to_string(), single("Red")),
            ("Back".to_string(), DefaultColor::Unknown),
        ]
    );
    let mut repaired = scheme.clone();
    assert!(!palette().ensure_color_scheme_is_valid_for_color_system(&mut repaired, &system));
}
