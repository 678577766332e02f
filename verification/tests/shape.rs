use hyperpuzzle::collections::{GenericVec, PerColor};
use hyperpuzzle::colors::DefaultColor;
use hyperpuzzle::ids::{Color, Facet, IndexOutOfRange, Layer};
use hyperpuzzle::info::ManifoldRef;
use hyperpuzzle::lua_code::{byte_length, pad_to_common_length};
use hyperpuzzle::ndim::{LuaNdim, NdimError, MAX_NDIM};
use hyperpuzzle::shape::ShapeBuilder;

fn names(items: &[&str]) -> Vec<String> {
    items.iter().map(|s| s.to_string()).collect()
}

#[test]
fn a_surface_bounds_the_shape_once() {
    let mut shape = ShapeBuilder::new(4);
    let up = shape.add_facet(ManifoldRef(5), None).unwrap();
    let down = shape
        .add_facet(
            ManifoldRef(6),
            Some(DefaultColor::Single {
                name: "Blue".to_string(),
            }),
        )
        .unwrap();
    assert_eq!(shape.add_facet(ManifoldRef(5), Some(DefaultColor::Unknown)), Ok(up));
    assert_eq!(shape.len(), 2);
    assert_eq!(shape.facet_of(ManifoldRef(6)), Some(down));
    assert_eq!(shape.facet_of(ManifoldRef(7)), None);
    assert_eq!(shape.facets.at(up).default_color, None);
    assert!(!up.is_none());
}

#[test]
fn facets_are_built_with_names_and_default_colors() {
    let mut shape = ShapeBuilder::new(3);
    let up = shape.add_facet(ManifoldRef(1), None).unwrap();
    let down = shape
        .add_facet(ManifoldRef(2), Some(DefaultColor::Unknown))
        .unwrap();
    shape.names.set_name(down, Some("Down".to_string()));
    shape.ordering.reorder(&vec![down, up]);
    let build = shape.build(&names(&["Down", "Up"]));
    assert!(build.warnings.is_empty());
    let facets = build.facets.unwrap();
    assert_eq!(facets.at(up).name, "Up");
    assert_eq!(facets.at(down).name, "Down");
    assert_eq!(facets.at(down).default_color, Some(DefaultColor::Unknown));
    assert!(shape.build(&names(&["Down"])).facets.is_err());
}

#[test]
fn the_reserved_facet_is_never_handed_out() {
    let mut shape = ShapeBuilder::new(3);
    for i in 0..65535u32 {
        assert_eq!(shape.add_facet(ManifoldRef(i), None), Ok(Facet(i as u16)));
    }
    assert!(shape.add_facet(ManifoldRef(70000), None).is_err());
    assert_eq!(shape.add_facet(ManifoldRef(3), None), Ok(Facet(3)));
}

#[test]
fn a_list_per_id_hands_out_dense_ids() {
    let mut list: PerColor<&str> = PerColor::new();
    assert!(list.is_empty());
    assert_eq!(list.next_idx(), Ok(Color(0)));
    assert_eq!(list.push("a"), Ok(Color(0)));
    assert_eq!(list.push("b"), Ok(Color(1)));
    assert_eq!(list.len(), 2);
    assert_eq!(list.get(Color(1)), Ok(&"b"));
    assert_eq!(
        list.get(Color(2)),
        Err(IndexOutOfRange { index: 2, len: 2 })
    );
    assert_eq!(*list.at(Color(0)), "a");
    assert_eq!(*list.at_index(1), "b");
    assert!(list.contains_key(Color(1)));
    assert!(!list.contains_key(Color::internal()));
    assert_eq!(list.set(Color(0), "c"), Ok(()));
    assert_eq!(list.set(Color(9), "d"), Err(IndexOutOfRange { index: 9, len: 2 }));
    *list.at_mut(Color(1)) = "e";
    assert_eq!(list.keys(), vec![Color(0), Color(1)]);
    assert_eq!(list.clone(), list);
    assert_eq!(*list.at(Color(0)), "c");
    assert_eq!(*list.at(Color(1)), "e");
}

#[test]
fn a_list_per_id_is_full_when_the_ids_are_used_up() {
    let mut list: GenericVec<Layer, u8> = GenericVec::new();
    for i in 0..=255u8 {
        assert_eq!(list.push(i), Ok(Layer(i)));
    }
    assert!(list.push(0).is_err());
    assert!(list.next_idx().is_err());
    assert_eq!(list.len(), 256);
}

#[test]
fn strings_are_padded_to_the_longest() {
    assert_eq!(
        pad_to_common_length(names(&["a", "abc", "", "ab"])),
        names(&["a  ", "abc", "   ", "ab "])
    );
    assert_eq!(pad_to_common_length(vec![]), Vec::<String>::new());
    assert_eq!(pad_to_common_length(names(&["same", "size"])), names(&["same", "size"]));
}

#[test]
fn padding_counts_bytes() {
    assert_eq!(byte_length(&"é".to_string()), 2);
    assert_eq!(
        pad_to_common_length(names(&["é", "abc", "日本"])),
        names(&["é    ", "abc   ", "日本"])
    );
}

#[test]
fn a_number_of_dimensions_lies_between_one_and_the_maximum() {
    assert_eq!(MAX_NDIM, 7);
    assert_eq!(LuaNdim::try_from(1), Ok(LuaNdim(1)));
    assert_eq!(LuaNdim::try_from(7), Ok(LuaNdim(7)));
    assert_eq!(LuaNdim::try_from(0), Err(NdimError::OutOfRange));
    assert_eq!(LuaNdim::try_from(8), Err(NdimError::OutOfRange));
    assert_eq!(LuaNdim::try_from(-3), Err(NdimError::OutOfRange));
    assert_eq!(LuaNdim::try_from(i64::MAX), Err(NdimError::OutOfRange));
    assert_eq!(LuaNdim::try_from(257), Err(NdimError::OutOfRange));
}

#[test]
fn the_global_number_of_dimensions_stands_in_for_a_missing_argument() {
    assert_eq!(LuaNdim::get_global(Some(4)), Ok(4));
    assert_eq!(LuaNdim::get_global(None), Err(NdimError::Unknown));
    assert_eq!(LuaNdim::get_global(Some(0)), Err(NdimError::OutOfRange));
    assert_eq!(LuaNdim::from_lua(Some(3), Some(5)), Ok(LuaNdim(3)));
    assert_eq!(LuaNdim::from_lua(None, Some(5)), Ok(LuaNdim(5)));
    assert_eq!(LuaNdim::from_lua(None, None), Err(NdimError::Unknown));
    assert_eq!(LuaNdim::from_lua(Some(9), Some(5)), Err(NdimError::OutOfRange));
    assert_eq!(NdimError::OutOfRange.message(), "out of range");
    assert_eq!(
        NdimError::Unknown.message(),
        "unknown number of dimensions; set global `NDIM` variable or pass NDIM as argument"
    );
}
