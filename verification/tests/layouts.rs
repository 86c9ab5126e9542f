use ecalli_layout_backend::layout::calculate_layout_data;
use ecalli_layout_backend::layout::get_word_coordinates;
use ecalli_layout_backend::layout::Scale;

#[test]
fn three_items_in_three_columns() {
    let (h_max, layout_map) = calculate_layout_data(&[5, 3, 8], 3);
    assert_eq!(h_max, 8);
    assert_eq!(layout_map, vec![0, 1, 2]);
}

#[test]
fn one_column_takes_everything() {
    let (h_max, layout_map) = calculate_layout_data(&[5, 3, 8], 1);
    assert_eq!(h_max, 16);
    assert_eq!(layout_map, vec![0, 0, 0]);
}

#[test]
fn each_item_goes_to_the_shortest_column() {
    // Columns after each item: [5,0] [5,3] [5,11] [7,11] [17,11] [17,12]
    let (h_max, layout_map) = calculate_layout_data(&[5, 3, 8, 2, 10, 1], 2);
    assert_eq!(layout_map, vec![0, 1, 1, 0, 0, 1]);
    assert_eq!(h_max, 17);
}

#[test]
fn ties_go_to_the_leftmost_column() {
    let (h_max, layout_map) = calculate_layout_data(&[4, 4, 4, 4, 4, 4, 4], 3);
    assert_eq!(layout_map, vec![0, 1, 2, 0, 1, 2, 0]);
    assert_eq!(h_max, 12);
}

#[test]
fn items_are_not_sorted_first() {
    // Sorted by size the tallest column would be 10; in the order given it is 14.
    let (h_max, layout_map) = calculate_layout_data(&[1, 1, 6, 6, 8], 2);
    assert_eq!(layout_map, vec![0, 1, 0, 1, 0]);
    assert_eq!(h_max, 15);
}

#[test]
fn more_columns_than_items() {
    let (h_max, layout_map) = calculate_layout_data(&[5, 3, 8], 7);
    assert_eq!(h_max, 8);
    assert_eq!(layout_map, vec![0, 1, 2]);
}

#[test]
fn items_without_height_share_a_column() {
    let (h_max, layout_map) = calculate_layout_data(&[0, 5, 0, 3], 4);
    assert_eq!(layout_map, vec![0, 0, 1, 1]);
    assert_eq!(h_max, 5);
}

#[test]
fn no_items() {
    let (h_max, layout_map) = calculate_layout_data(&[], 3);
    assert_eq!(h_max, 0);
    assert!(layout_map.is_empty());
}

#[test]
fn tall_items() {
    let (h_max, layout_map) = calculate_layout_data(&[u32::MAX, u32::MAX, u32::MAX], 1);
    assert_eq!(h_max, 3 * (u32::MAX as u128));
    assert_eq!(layout_map, vec![0, 0, 0]);
}

#[test]
fn any_number_of_columns() {
    let (h_max, layout_map) = calculate_layout_data(&[5, 3, 8], usize::MAX);
    assert_eq!(h_max, 8);
    assert_eq!(layout_map, vec![0, 1, 2]);
    let (h_max, layout_map) = calculate_layout_data(&[0, 5, 0, 3], usize::MAX);
    assert_eq!(h_max, 5);
    assert_eq!(layout_map, vec![0, 0, 1, 1]);
    let (h_max, layout_map) = calculate_layout_data(&[], usize::MAX);
    assert_eq!(h_max, 0);
    assert!(layout_map.is_empty());
}

#[test]
fn as_many_columns_as_items() {
    let (h_max, layout_map) = calculate_layout_data(&[2, 2, 1, 4], 4);
    assert_eq!(h_max, 4);
    assert_eq!(layout_map, vec![0, 1, 2, 3]);
    let (h_max, layout_map) = calculate_layout_data(&[2, 0, 1, 4], 4);
    assert_eq!(h_max, 4);
    assert_eq!(layout_map, vec![0, 1, 1, 2]);
}

#[test]
fn scale_needs_a_denominator() {
    assert!(Scale::new(1, 0).is_none());
    assert!(Scale::new(0, 1).is_some());
}

#[test]
fn coordinates_at_full_scale() {
    let heights = [5, 3, 8, 2, 10, 1];
    let (_, layout_map) = calculate_layout_data(&heights, 2);
    let scale = Scale::new(1, 1).unwrap();
    let coords = get_word_coordinates(20, &heights, &scale, 2, &layout_map);
    assert_eq!(coords, vec![(0, 0), (20, 0), (20, 3), (0, 5), (0, 7), (20, 11)]);
}

#[test]
fn coordinates_are_cut_off_not_rounded() {
    // At a scale of 2/3: 5 -> 3.33, 7 -> 4.67, 10 * 2/3 -> 6.67.
    let heights = [5, 2, 4];
    let scale = Scale::new(2, 3).unwrap();
    let coords = get_word_coordinates(10, &heights, &scale, 2, &[1, 1, 1]);
    assert_eq!(coords, vec![(6, 0), (6, 3), (6, 4)]);
}

#[test]
fn offsets_are_scaled_as_one_sum() {
    // Three items of height 1 at a scale of 1/2 lie at 0, 0.5 and 1.
    let scale = Scale::new(1, 2).unwrap();
    let coords = get_word_coordinates(3, &[1, 1, 1, 1], &scale, 1, &[0, 0, 0, 0]);
    assert_eq!(coords, vec![(0, 0), (0, 0), (0, 1), (0, 1)]);
}

#[test]
fn columns_keep_their_own_offsets() {
    let scale = Scale::new(3, 2).unwrap();
    let coords = get_word_coordinates(7, &[10, 20, 30, 40], &scale, 3, &[2, 0, 2, 0]);
    assert_eq!(coords, vec![(21, 0), (0, 0), (21, 15), (0, 30)]);
}

#[test]
fn coordinates_stop_at_the_largest_number() {
    let scale = Scale::new(u32::MAX, 1).unwrap();
    let coords = get_word_coordinates(u32::MAX, &[u32::MAX, 1], &scale, 2, &[1, 1]);
    assert_eq!(coords, vec![(u32::MAX, 0), (u32::MAX, u32::MAX)]);
}

#[test]
fn coordinates_at_scale_zero() {
    let scale = Scale::new(0, 5).unwrap();
    let coords = get_word_coordinates(9, &[4, 4], &scale, 2, &[1, 1]);
    assert_eq!(coords, vec![(0, 0), (0, 0)]);
}

#[test]
fn coordinates_of_no_items() {
    let scale = Scale::new(1, 1).unwrap();
    assert!(get_word_coordinates(9, &[], &scale, 2, &[]).is_empty());
}
