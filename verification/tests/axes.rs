use hyperpuzzle::axis_system::{AxisBuilder, AxisError, AxisSystemBuilder, MAX_LAYER_COUNT};
use hyperpuzzle::ids::{Axis, IndexOutOfRange, Layer};
use hyperpuzzle::info::{LayerInfo, ManifoldRef};

const A: ManifoldRef = ManifoldRef(10);
const B: ManifoldRef = ManifoldRef(11);
const C: ManifoldRef = ManifoldRef(12);

fn names(items: &[&str]) -> Vec<String> {
    items.iter().map(|s| s.to_string()).collect()
}

#[test]
fn a_continuous_stack_of_layers_is_built() {
    let mut axes = AxisSystemBuilder::new();
    let axis = axes.add().unwrap();
    assert_eq!(axes.push_layer(axis, A, Some(B)), Ok(Layer(0)));
    assert_eq!(axes.push_layer(axis, B, None), Ok(Layer(1)));
    let build = axes.build(&names(&["U"]));
    assert!(build.warnings.is_empty());
    let built = build.axes.unwrap();
    assert_eq!(built.len(), 1);
    let info = built.at(axis);
    assert_eq!(info.name, "U");
    assert_eq!(info.layers.len(), 2);
    assert_eq!(
        *info.layers.at(Layer(0)),
        LayerInfo {
            bottom: A,
            top: Some(B)
        }
    );
    assert_eq!(
        *info.layers.at(Layer(1)),
        LayerInfo {
            bottom: B,
            top: None
        }
    );
}

#[test]
fn layer_tops_equal_the_next_bottoms_in_every_built_axis() {
    let mut axes = AxisSystemBuilder::new();
    for _ in 0..3 {
        let axis = axes.add().unwrap();
        axes.push_layer(axis, A, Some(B)).unwrap();
        axes.push_layer(axis, B, Some(C)).unwrap();
        axes.push_layer(axis, C, None).unwrap();
    }
    let built = axes.build(&names(&["x", "y", "z"])).axes.unwrap();
    for a in 0..built.len() {
        let layers = &built.at_index(a).layers;
        for i in 0..layers.len() - 1 {
            assert_eq!(
                layers.at_index(i).top,
                Some(layers.at_index(i + 1).bottom)
            );
        }
    }
}

#[test]
fn a_gap_between_layers_is_rejected_with_the_place_of_the_break() {
    let mut axes = AxisSystemBuilder::new();
    let good = axes.add().unwrap();
    axes.push_layer(good, A, None).unwrap();
    let bad = axes.add().unwrap();
    axes.push_layer(bad, A, Some(B)).unwrap();
    axes.push_layer(bad, B, Some(B)).unwrap();
    axes.push_layer(bad, C, None).unwrap();
    let build = axes.build(&names(&["a", "b"]));
    assert_eq!(
        build.axes.err(),
        Some(AxisError::LayerBoundaryMismatch {
            axis: bad,
            layer: Layer(1)
        })
    );
}

#[test]
fn a_layer_without_top_below_another_is_rejected() {
    let mut axes = AxisSystemBuilder::new();
    let axis = axes.add().unwrap();
    axes.push_layer(axis, A, None).unwrap();
    axes.push_layer(axis, B, None).unwrap();
    assert_eq!(
        axes.build(&names(&["a"])).axes.err(),
        Some(AxisError::LayerBoundaryMismatch {
            axis,
            layer: Layer(0)
        })
    );
}

#[test]
fn an_axis_without_layers_is_rejected() {
    let mut axes = AxisSystemBuilder::new();
    let axis = axes.add().unwrap();
    assert_eq!(
        axes.build(&names(&["a"])).axes.err(),
        Some(AxisError::EmptyAxis { axis })
    );
}

#[test]
fn axes_without_names_need_candidates() {
    let mut axes = AxisSystemBuilder::new();
    let axis = axes.add().unwrap();
    axes.push_layer(axis, A, None).unwrap();
    let build = axes.build(&names(&[]));
    assert!(matches!(build.axes, Err(AxisError::RanOutOfNames(_))));
}

#[test]
fn layers_cannot_be_pushed_to_an_axis_that_does_not_exist() {
    let mut axes = AxisSystemBuilder::new();
    assert_eq!(
        axes.push_layer(Axis(0), A, None),
        Err(AxisError::NoSuchAxis(IndexOutOfRange { index: 0, len: 0 }))
    );
}

#[test]
fn an_axis_holds_at_most_255_layers() {
    let mut axis = AxisBuilder::new();
    for i in 0..MAX_LAYER_COUNT {
        assert_eq!(axis.push_layer(A, Some(A)), Ok(Layer(i as u8)));
    }
    assert!(axis.push_layer(A, None).is_err());
    assert_eq!(axis.layer_count(), 255);
    assert_eq!(axis.first_break(), None);

    let mut axes = AxisSystemBuilder::new();
    let id = axes.add().unwrap();
    for _ in 0..MAX_LAYER_COUNT {
        axes.push_layer(id, A, Some(A)).unwrap();
    }
    assert_eq!(
        axes.push_layer(id, A, None),
        Err(AxisError::TooManyLayers { axis: id })
    );
}

#[test]
fn duplicate_axis_names_are_reported_and_kept() {
    let mut axes = AxisSystemBuilder::new();
    let first = axes.add().unwrap();
    let second = axes.add().unwrap();
    axes.push_layer(first, A, None).unwrap();
    axes.push_layer(second, A, None).unwrap();
    axes.names.set_name(first, Some("R".to_string()));
    axes.names.set_name(second, Some("R".to_string()));
    let build = axes.build(&names(&[]));
    assert_eq!(build.warnings.len(), 1);
    assert_eq!(build.warnings[0].name, "R");
    let built = build.axes.unwrap();
    assert_eq!(built.at(first).name, "R");
    assert_eq!(built.at(second).name, "R");
}
