use mmm::util::move_multiple;

fn reorder_digits(from: &[usize], to: usize) -> (Vec<u32>, usize) {
    let mut items: Vec<u32> = (0..10).collect();
    let first = move_multiple(&mut items, from, to);
    (items, first)
}

#[test]
fn move_three_items_to_the_middle() {
    let (items, first) = reorder_digits(&[1, 3, 8], 5);
    assert_eq!(items, vec![0, 2, 4, 5, 6, 1, 3, 8, 7, 9]);
    assert_eq!(first, 5);
}

#[test]
fn selection_order_does_not_matter() {
    let (items, first) = reorder_digits(&[8, 1, 3, 1], 5);
    assert_eq!(items, vec![0, 2, 4, 5, 6, 1, 3, 8, 7, 9]);
    assert_eq!(first, 5);
}

#[test]
fn move_items_to_the_front() {
    let (items, first) = reorder_digits(&[4, 7, 9], 0);
    assert_eq!(items, vec![4, 7, 9, 0, 1, 2, 3, 5, 6, 8]);
    assert_eq!(first, 0);
}

#[test]
fn move_items_behind_the_last_slot_puts_them_at_the_end() {
    let (items, first) = reorder_digits(&[0, 2], 10);
    assert_eq!(items, vec![1, 3, 4, 5, 6, 7, 8, 9, 0, 2]);
    assert_eq!(first, 8);
    let (items, first) = reorder_digits(&[9], usize::MAX);
    assert_eq!(items, vec![0, 1, 2, 3, 4, 5, 6, 7, 8, 9]);
    assert_eq!(first, 9);
}

#[test]
fn move_a_block_onto_itself_changes_nothing() {
    let (items, first) = reorder_digits(&[3, 4, 5], 3);
    assert_eq!(items, vec![0, 1, 2, 3, 4, 5, 6, 7, 8, 9]);
    assert_eq!(first, 3);
}

#[test]
fn moved_items_and_other_items_keep_their_order() {
    let (items, first) = reorder_digits(&[0, 5, 6, 9], 3);
    assert_eq!(items, vec![1, 2, 3, 0, 5, 6, 9, 4, 7, 8]);
    assert_eq!(first, 3);
    let moved: Vec<u32> = items.iter().copied().filter(|x| [0, 5, 6, 9].contains(x)).collect();
    let others: Vec<u32> = items.iter().copied().filter(|x| ![0, 5, 6, 9].contains(x)).collect();
    assert_eq!(moved, vec![0, 5, 6, 9]);
    assert_eq!(others, vec![1, 2, 3, 4, 7, 8]);
    assert_eq!(items[first], 0);
}

#[test]
fn positions_outside_the_slice_are_ignored() {
    let (items, first) = reorder_digits(&[2, 10, 400], 0);
    assert_eq!(items, vec![2, 0, 1, 3, 4, 5, 6, 7, 8, 9]);
    assert_eq!(first, 0);
}

#[test]
fn empty_selection_moves_nothing() {
    let (items, first) = reorder_digits(&[], 4);
    assert_eq!(items, vec![0, 1, 2, 3, 4, 5, 6, 7, 8, 9]);
    assert_eq!(first, 4);
    let (items, first) = reorder_digits(&[], 40);
    assert_eq!(items, vec![0, 1, 2, 3, 4, 5, 6, 7, 8, 9]);
    assert_eq!(first, 10);
    let mut nothing: Vec<String> = Vec::new();
    assert_eq!(move_multiple(&mut nothing, &[0, 1], 3), 0);
}

#[test]
fn everything_selected_stays_in_place() {
    let (items, first) = reorder_digits(&[9, 8, 7, 6, 5, 4, 3, 2, 1, 0], 6);
    assert_eq!(items, vec![0, 1, 2, 3, 4, 5, 6, 7, 8, 9]);
    assert_eq!(first, 0);
}

#[test]
fn items_that_cannot_be_copied_are_moved() {
    let mut items: Vec<String> = ["a", "b", "c", "d"].iter().map(|s| s.to_string()).collect();
    let first = move_multiple(&mut items, &[0], 2);
    assert_eq!(items, vec!["b", "c", "a", "d"]);
    assert_eq!(first, 2);
}
