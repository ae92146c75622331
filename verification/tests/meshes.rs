use cube_game::config::NUMBER_TEX_INDEX_START;
use cube_game::geometry::{append_geometry, depth_order, indices_fit_after, try_append_geometry};
use cube_game::number::digit_tex_indices;

#[test]
fn appended_indices_are_raised_by_the_vertex_count() {
    let mut verts: Vec<char> = vec!['a', 'b', 'c', 'd'];
    let mut inds: Vec<u16> = vec![0, 1, 2, 1, 3, 2];
    append_geometry(&mut verts, &mut inds, vec!['e', 'f', 'g'], vec![0, 1, 2]);
    assert_eq!(verts, vec!['a', 'b', 'c', 'd', 'e', 'f', 'g']);
    assert_eq!(inds, vec![0, 1, 2, 1, 3, 2, 4, 5, 6]);
    append_geometry(&mut verts, &mut inds, vec!['h'], vec![0, 0]);
    assert_eq!(verts.len(), 8);
    assert_eq!(inds, vec![0, 1, 2, 1, 3, 2, 4, 5, 6, 7, 7]);
}

#[test]
fn appending_to_an_empty_mesh_keeps_the_indices() {
    let mut verts: Vec<u8> = vec![];
    let mut inds: Vec<u16> = vec![];
    append_geometry(&mut verts, &mut inds, vec![9, 8], vec![1, 0, 1]);
    assert_eq!(verts, vec![9, 8]);
    assert_eq!(inds, vec![1, 0, 1]);
    append_geometry(&mut verts, &mut inds, vec![], vec![]);
    assert_eq!(verts, vec![9, 8]);
    assert_eq!(inds, vec![1, 0, 1]);
}

#[test]
fn indices_fit_up_to_sixteen_bits() {
    assert!(indices_fit_after(&vec![], 0));
    assert!(indices_fit_after(&vec![], 1_000_000));
    assert!(indices_fit_after(&vec![0, 5, 35], 65_500));
    assert!(!indices_fit_after(&vec![0, 5, 36], 65_500));
    assert!(indices_fit_after(&vec![65_535], 0));
    assert!(!indices_fit_after(&vec![65_535], 1));
    assert!(indices_fit_after(&vec![0], 65_535));
    assert!(!indices_fit_after(&vec![0], 65_536));
    assert!(!indices_fit_after(&vec![1, 0], 65_535));
}

#[test]
fn mesh_that_would_overflow_is_left_alone() {
    let mut verts: Vec<u32> = (0..65_534).collect();
    let mut inds: Vec<u16> = vec![7];
    assert!(try_append_geometry(&mut verts, &mut inds, vec![1, 2], vec![0, 1]));
    assert_eq!(verts.len(), 65_536);
    assert_eq!(inds, vec![7, 65_534, 65_535]);
    assert!(!try_append_geometry(&mut verts, &mut inds, vec![3], vec![0]));
    assert_eq!(verts.len(), 65_536);
    assert_eq!(inds, vec![7, 65_534, 65_535]);
    // a shape without indices always fits
    assert!(try_append_geometry(&mut verts, &mut inds, vec![3], vec![]));
    assert_eq!(verts.len(), 65_537);
    assert_eq!(inds, vec![7, 65_534, 65_535]);
}

#[test]
fn digits_come_most_significant_first() {
    let s = NUMBER_TEX_INDEX_START;
    assert_eq!(digit_tex_indices(0), vec![s]);
    assert_eq!(digit_tex_indices(7), vec![s + 7]);
    assert_eq!(digit_tex_indices(10), vec![s + 1, s]);
    assert_eq!(digit_tex_indices(305), vec![s + 3, s, s + 5]);
    assert_eq!(
        digit_tex_indices(u32::MAX),
        vec![s + 4, s + 2, s + 9, s + 4, s + 9, s + 6, s + 7, s + 2, s + 9, s + 5]
    );
}

#[test]
fn digits_match_the_decimal_writing() {
    for value in [0u32, 1, 9, 10, 11, 99, 100, 101, 4_096, 65_535, 1_000_000, 999_999_999] {
        let written: Vec<u32> = format!("{}", value)
            .chars()
            .map(|c| c.to_digit(10).unwrap() + NUMBER_TEX_INDEX_START)
            .collect();
        assert_eq!(digit_tex_indices(value), written);
    }
}

#[test]
fn depth_order_goes_by_layer() {
    assert_eq!(depth_order(&vec![]), Vec::<usize>::new());
    assert_eq!(depth_order(&vec![9]), vec![0]);
    assert_eq!(depth_order(&vec![4, 2, 0]), vec![2, 1, 0]);
    assert_eq!(depth_order(&vec![0, 2, 4]), vec![0, 1, 2]);
    assert_eq!(depth_order(&vec![3, 0, 255, 1]), vec![1, 3, 0, 2]);
}

#[test]
fn depth_order_keeps_shapes_of_one_layer_in_place() {
    // four nets, four buttons, the timer and two counters
    let layers = vec![4, 4, 4, 4, 2, 2, 2, 2, 0, 0, 0];
    assert_eq!(depth_order(&layers), vec![8, 9, 10, 4, 5, 6, 7, 0, 1, 2, 3]);
    assert_eq!(depth_order(&vec![1, 0, 1, 0, 1]), vec![1, 3, 0, 2, 4]);
    assert_eq!(depth_order(&vec![7; 5]), vec![0, 1, 2, 3, 4]);
}

#[test]
fn depth_order_lists_every_place_once() {
    let layers: Vec<u8> = (0..300u32).map(|i| ((i * 37) % 11) as u8).collect();
    let order = depth_order(&layers);
    assert_eq!(order.len(), layers.len());
    let mut seen = vec![false; layers.len()];
    for &place in order.iter() {
        assert!(!seen[place]);
        seen[place] = true;
    }
    for pair in order.windows(2) {
        let (a, b) = (pair[0], pair[1]);
        assert!(layers[a] < layers[b] || (layers[a] == layers[b] && a < b));
    }
}
