use hyperpuzzle::axis_system::AxisSystemBuilder;
use hyperpuzzle::collections::PerAxis;
use hyperpuzzle::ids::{Axis, Twist};
use hyperpuzzle::info::{AxisInfo, IsometryId, ManifoldRef};
use hyperpuzzle::twist_system::{TwistBuilder, TwistError, TwistKey, TwistSystemBuilder};

fn names(items: &[&str]) -> Vec<String> {
    items.iter().map(|s| s.to_string()).collect()
}

fn axes_with_layers(counts: &[usize]) -> PerAxis<AxisInfo> {
    let mut axes = AxisSystemBuilder::new();
    let mut candidates = Vec::new();
    for (a, &count) in counts.iter().enumerate() {
        let axis = axes.add().unwrap();
        for i in 0..count {
            let top = if i + 1 < count {
                Some(ManifoldRef(i as u32 + 1))
            } else {
                None
            };
            axes.push_layer(axis, ManifoldRef(i as u32), top).unwrap();
        }
        candidates.push(format!("axis{}", a));
    }
    axes.build(&candidates).axes.unwrap()
}

fn twist(axis: u16, transform: u32, inverse: u32) -> TwistBuilder {
    TwistBuilder {
        axis: Axis(axis),
        transform: IsometryId(transform),
        inverse_transform: IsometryId(inverse),
        qtm: 1,
        opposite: None,
    }
}

fn key(axis: u16, transform: u32) -> TwistKey {
    TwistKey {
        axis: Axis(axis),
        transform: IsometryId(transform),
    }
}

#[test]
fn one_generator_on_two_layers_gives_the_twist_and_its_reverse() {
    let mut axes = AxisSystemBuilder::new();
    let axis = axes.add().unwrap();
    axes.push_layer(axis, ManifoldRef(0), Some(ManifoldRef(1)))
        .unwrap();
    axes.push_layer(axis, ManifoldRef(1), None).unwrap();
    let axes = axes.build(&names(&["A"])).axes.unwrap();

    let mut twists = TwistSystemBuilder::new();
    let generator = twists.add(twist(0, 7, 8)).unwrap();
    assert_eq!(twists.len(), 1);
    let build = twists.build(&axes, &names(&["t", "t'"]));
    let built = build.twists.unwrap();
    assert_eq!(built.len(), 2);
    let first = built.at(generator);
    let reverse = first.reverse;
    assert_ne!(reverse, generator);
    assert_eq!(reverse, Twist(1));
    let second = built.at(reverse);
    assert_eq!(first.qtm, 1);
    assert_eq!(second.qtm, 1);
    assert_eq!(first.opposite, None);
    assert_eq!(second.opposite, None);
    assert_eq!(second.reverse, generator);
    assert_eq!(second.axis, Axis(0));
    assert_eq!(second.transform, IsometryId(8));
    assert_eq!(first.name, "t");
    assert_eq!(second.name, "t'");
}

#[test]
fn the_same_key_gives_the_same_twist() {
    let mut twists = TwistSystemBuilder::new();
    let first = twists.add(twist(0, 1, 2)).unwrap();
    let mut again = twist(0, 1, 9);
    again.qtm = 5;
    assert_eq!(twists.add(again), Ok(first));
    assert_eq!(twists.len(), 1);
    assert_eq!(twists.twists.at(first).qtm, 1);
    let other = twists.add(twist(1, 1, 2)).unwrap();
    assert_ne!(other, first);
    assert_eq!(twists.get(key(0, 1)), Some(first));
    assert_eq!(twists.get(key(1, 1)), Some(other));
    assert_eq!(twists.get(key(2, 1)), None);
}

#[test]
fn reverse_is_an_involution_on_every_built_twist() {
    let axes = axes_with_layers(&[1, 1]);
    let mut twists = TwistSystemBuilder::new();
    twists.add(twist(0, 1, 2)).unwrap();
    twists.add(twist(0, 3, 3)).unwrap();
    twists.add(twist(1, 2, 1)).unwrap();
    twists.add(twist(0, 2, 1)).unwrap();
    let built = twists
        .build(&axes, &names(&["a", "b", "c", "d", "e", "f"]))
        .twists
        .unwrap();
    assert_eq!(built.len(), 5);
    for i in 0..built.len() {
        let reverse = built.at_index(i).reverse;
        assert_eq!(built.at(reverse).reverse, Twist(i as u32));
        assert_eq!(built.at(reverse).axis, built.at_index(i).axis);
    }
    assert_eq!(built.at(Twist(0)).reverse, Twist(3));
    assert_eq!(built.at(Twist(1)).reverse, Twist(1));
    assert_eq!(built.at(Twist(2)).reverse, Twist(4));
}

#[test]
fn closing_under_reverse_adds_only_what_is_missing() {
    let mut twists = TwistSystemBuilder::new();
    twists.add(twist(0, 1, 2)).unwrap();
    twists.add(twist(0, 2, 1)).unwrap();
    twists.add(twist(0, 5, 6)).unwrap();
    assert_eq!(twists.close_under_reverse(), Ok(()));
    assert_eq!(twists.len(), 4);
    let added = twists.twists.at(Twist(3));
    assert_eq!(added.transform, IsometryId(6));
    assert_eq!(added.inverse_transform, IsometryId(5));
    assert_eq!(added.opposite, None);
    assert_eq!(twists.ordering.ids_in_order().len(), 4);
    assert_eq!(twists.close_under_reverse(), Ok(()));
    assert_eq!(twists.len(), 4);
}

#[test]
fn opposite_is_an_involution_where_it_is_present() {
    let axes = axes_with_layers(&[3, 3]);
    let mut twists = TwistSystemBuilder::new();
    let mut r = twist(0, 1, 2);
    r.opposite = Some(key(1, 2));
    let mut l_prime = twist(1, 2, 1);
    l_prime.opposite = Some(key(0, 1));
    let r = twists.add(r).unwrap();
    let l_prime = twists.add(l_prime).unwrap();
    let built = twists
        .build(&axes, &names(&["R", "L'", "R'", "L"]))
        .twists
        .unwrap();
    assert_eq!(built.len(), 4);
    assert_eq!(built.at(r).opposite, Some(l_prime));
    assert_eq!(built.at(l_prime).opposite, Some(r));
    assert_eq!(built.at(Twist(2)).opposite, None);
    assert_eq!(built.at(Twist(3)).opposite, None);
}

#[test]
fn a_reverse_that_does_not_lead_back_is_rejected() {
    let axes = axes_with_layers(&[1]);
    let mut twists = TwistSystemBuilder::new();
    twists.add(twist(0, 1, 2)).unwrap();
    twists.add(twist(0, 2, 3)).unwrap();
    let build = twists.build(&axes, &names(&["a", "b", "c", "d"]));
    assert_eq!(
        build.twists.err(),
        Some(TwistError::InconsistentReverse { twist: Twist(0) })
    );
}

#[test]
fn a_missing_opposite_is_rejected() {
    let axes = axes_with_layers(&[1]);
    let mut twists = TwistSystemBuilder::new();
    let mut t = twist(0, 1, 1);
    t.opposite = Some(key(0, 9));
    twists.add(t).unwrap();
    assert_eq!(
        twists.build(&axes, &names(&["a"])).twists.err(),
        Some(TwistError::MissingOpposite { twist: Twist(0) })
    );
}

#[test]
fn an_opposite_that_does_not_lead_back_is_rejected() {
    let axes = axes_with_layers(&[1]);
    let mut twists = TwistSystemBuilder::new();
    let mut t = twist(0, 1, 1);
    t.opposite = Some(key(0, 2));
    twists.add(t).unwrap();
    twists.add(twist(0, 2, 2)).unwrap();
    assert_eq!(
        twists.build(&axes, &names(&["a", "b"])).twists.err(),
        Some(TwistError::OppositeNotMutual { twist: Twist(0) })
    );
}

#[test]
fn opposites_on_axes_with_different_layer_counts_are_rejected() {
    let axes = axes_with_layers(&[2, 3]);
    let mut twists = TwistSystemBuilder::new();
    let mut a = twist(0, 1, 1);
    a.opposite = Some(key(1, 1));
    let mut b = twist(1, 1, 1);
    b.opposite = Some(key(0, 1));
    twists.add(a).unwrap();
    twists.add(b).unwrap();
    assert_eq!(
        twists.build(&axes, &names(&["a", "b"])).twists.err(),
        Some(TwistError::OppositeLayerMismatch { twist: Twist(0) })
    );
}

#[test]
fn a_twist_on_an_axis_that_does_not_exist_is_rejected() {
    let axes = axes_with_layers(&[1]);
    let mut twists = TwistSystemBuilder::new();
    twists.add(twist(0, 1, 1)).unwrap();
    twists.add(twist(1, 1, 1)).unwrap();
    assert_eq!(
        twists.build(&axes, &names(&["a", "b"])).twists.err(),
        Some(TwistError::NoSuchAxis { twist: Twist(1) })
    );
}

#[test]
fn twists_without_names_need_candidates_also_for_added_reverses() {
    let axes = axes_with_layers(&[1]);
    let mut twists = TwistSystemBuilder::new();
    twists.add(twist(0, 1, 2)).unwrap();
    let build = twists.build(&axes, &names(&["only"]));
    assert!(matches!(build.twists, Err(TwistError::RanOutOfNames(_))));
}

#[test]
fn duplicate_twist_names_are_reported_and_kept() {
    let axes = axes_with_layers(&[1]);
    let mut twists = TwistSystemBuilder::new();
    let a = twists.add(twist(0, 1, 1)).unwrap();
    let b = twists.add(twist(0, 2, 2)).unwrap();
    twists.names.set_name(a, Some("T".to_string()));
    twists.names.set_name(b, Some("T".to_string()));
    let build = twists.build(&axes, &names(&[]));
    assert_eq!(build.warnings.len(), 1);
    let built = build.twists.unwrap();
    assert_eq!(built.at(a).name, "T");
    assert_eq!(built.at(b).name, "T");
}
