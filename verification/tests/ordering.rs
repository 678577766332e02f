use hyperpuzzle::ids::{Axis, IndexOutOfRange, Layer};
use hyperpuzzle::ordering::CustomOrdering;

fn indices(ordering: &CustomOrdering<Axis>) -> Vec<u16> {
    ordering.ids_in_order().iter().map(|id| id.0).collect()
}

fn is_permutation(order: &[u16]) -> bool {
    let mut seen = vec![false; order.len()];
    for &i in order {
        if i as usize >= order.len() || seen[i as usize] {
            return false;
        }
        seen[i as usize] = true;
    }
    true
}

#[test]
fn a_new_ordering_follows_creation() {
    let ordering = CustomOrdering::<Axis>::with_len(4).unwrap();
    assert_eq!(indices(&ordering), vec![0, 1, 2, 3]);
    assert_eq!(ordering.len(), 4);
    assert_eq!(CustomOrdering::<Axis>::new().len(), 0);
}

#[test]
fn an_ordering_cannot_hold_more_ids_than_the_type_has() {
    assert!(CustomOrdering::<Layer>::with_len(257).is_err());
    assert!(CustomOrdering::<Layer>::with_len(256).is_ok());
}

#[test]
fn only_the_next_id_can_be_added() {
    let mut ordering = CustomOrdering::<Axis>::new();
    assert_eq!(ordering.add(Axis(0)), Ok(()));
    assert_eq!(
        ordering.add(Axis(2)),
        Err(IndexOutOfRange { index: 2, len: 1 })
    );
    assert_eq!(ordering.add(Axis(1)), Ok(()));
    assert_eq!(indices(&ordering), vec![0, 1]);
}

#[test]
fn swapping_exchanges_two_entries() {
    let mut ordering = CustomOrdering::<Axis>::with_len(4).unwrap();
    assert_eq!(ordering.swap_to_index(Axis(0), 2), Ok(()));
    assert_eq!(indices(&ordering), vec![2, 1, 0, 3]);
    assert_eq!(ordering.get_index(Axis(0)), Ok(2));
    assert_eq!(
        ordering.swap_to_index(Axis(7), 0),
        Err(IndexOutOfRange { index: 7, len: 4 })
    );
    assert_eq!(
        ordering.swap_to_index(Axis(1), 4),
        Err(IndexOutOfRange { index: 4, len: 4 })
    );
    assert_eq!(indices(&ordering), vec![2, 1, 0, 3]);
}

#[test]
fn shifting_moves_the_entries_in_between() {
    let mut ordering = CustomOrdering::<Axis>::with_len(5).unwrap();
    assert_eq!(ordering.shift_to_index(Axis(0), 3), Ok(()));
    assert_eq!(indices(&ordering), vec![1, 2, 3, 0, 4]);
    assert_eq!(ordering.shift_to_index(Axis(4), 0), Ok(()));
    assert_eq!(indices(&ordering), vec![4, 1, 2, 3, 0]);
    assert!(ordering.shift_to_index(Axis(5), 0).is_err());
    assert!(ordering.shift_to_index(Axis(0), 5).is_err());
}

#[test]
fn a_partial_reordering_appends_the_rest_in_creation_order() {
    let mut ordering = CustomOrdering::<Axis>::with_len(5).unwrap();
    ordering.swap_to_index(Axis(0), 4).unwrap();
    ordering.reorder(&vec![Axis(3), Axis(1)]);
    assert_eq!(indices(&ordering), vec![3, 1, 0, 2, 4]);
}

#[test]
fn a_full_reordering_is_taken_as_it_is() {
    let mut ordering = CustomOrdering::<Axis>::with_len(3).unwrap();
    ordering.reorder(&vec![Axis(2), Axis(0), Axis(1)]);
    assert_eq!(indices(&ordering), vec![2, 0, 1]);
}

#[test]
fn a_reordering_stays_a_permutation_whatever_it_is_given() {
    let mut ordering = CustomOrdering::<Axis>::with_len(4).unwrap();
    ordering.reorder(&vec![Axis(2), Axis(9), Axis(2), Axis(0), Axis(2)]);
    assert_eq!(indices(&ordering), vec![2, 0, 1, 3]);
    assert!(is_permutation(&indices(&ordering)));
    ordering.reorder(&vec![]);
    assert_eq!(indices(&ordering), vec![0, 1, 2, 3]);
    let mut empty = CustomOrdering::<Axis>::new();
    empty.reorder(&vec![Axis(0)]);
    assert_eq!(indices(&empty), Vec::<u16>::new());
}

#[test]
fn an_id_that_is_not_live_has_no_position() {
    let ordering = CustomOrdering::<Axis>::with_len(2).unwrap();
    assert_eq!(
        ordering.get_index(Axis(2)),
        Err(IndexOutOfRange { index: 2, len: 2 })
    );
}
