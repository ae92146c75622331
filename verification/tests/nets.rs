use cube_game::columngrid::ColumnGrid;
use cube_game::net::{Net, NetSquare};

fn grid(rows: &[&[u8]]) -> ColumnGrid {
    let n = rows.len() as u8;
    let mut g = ColumnGrid::new(n);
    for x in 0..n {
        for y in 0..n {
            g.set_column(x, y, rows[x as usize][y as usize]);
        }
    }
    g
}

fn net(rows: &[&[u8]]) -> Net {
    Net::from_columngrid(&grid(rows), 0, 4)
}

fn squares(n: &Net) -> Vec<NetSquare> {
    let mut out = vec![];
    for x in 0..n.sidelen() {
        for y in 0..n.sidelen() {
            out.push(n.square(x, y));
        }
    }
    out
}

#[test]
fn blank_square_has_no_edges() {
    let sq = NetSquare::blank(3, 5, true);
    assert_eq!(
        sq,
        NetSquare { top: false, bottom: false, left: false, right: false, texindex: 3, layer: 5, fill: true }
    );
    assert_eq!(sq.side_debug_info(), "tblr ");
}

#[test]
fn side_debug_info_marks_each_side() {
    let mut sq = NetSquare::blank(0, 0, false);
    sq.top = true;
    assert_eq!(sq.side_debug_info(), "Tblr ");
    sq.left = true;
    assert_eq!(sq.side_debug_info(), "TbLr ");
    sq.bottom = true;
    sq.right = true;
    assert_eq!(sq.side_debug_info(), "TBLR ");
    sq.top = false;
    assert_eq!(sq.side_debug_info(), "tBLR ");
}

#[test]
fn projection_is_deterministic() {
    let g = grid(&[&[1, 0, 3], &[0, 2, 2], &[5, 1, 0]]);
    let a = Net::from_columngrid(&g, 0, 4);
    let b = Net::from_columngrid(&g, 0, 4);
    assert_eq!(squares(&a), squares(&b));
    assert!(a.is_identical(&b));
    assert_eq!(a.square_debug_info(), b.square_debug_info());
}

#[test]
fn projection_keeps_side_layer_and_texture() {
    let n = Net::from_columngrid(&grid(&[&[1, 0], &[0, 0]]), 7, 9);
    assert_eq!(n.sidelen(), 2);
    assert_eq!(n.layer(), 9);
    for sq in squares(&n) {
        assert_eq!(sq.texindex, 7);
        assert_eq!(sq.layer, 9);
    }
}

#[test]
fn single_column_has_all_four_edges() {
    for h in [1u8, 2, 7, 255] {
        let n = net(&[&[h]]);
        assert_eq!(n.sidelen(), 1);
        assert_eq!(
            n.square(0, 0),
            NetSquare { top: true, bottom: true, left: true, right: true, texindex: 0, layer: 4, fill: true }
        );
        assert_eq!(n.square_debug_info(), "TBLR \n");
    }
}

#[test]
fn single_empty_column_has_no_edge() {
    let n = net(&[&[0]]);
    assert_eq!(n.square(0, 0), NetSquare::blank(0, 4, false));
    assert_eq!(n.square_debug_info(), "tblr \n");
}

#[test]
fn net_of_side_zero_is_empty() {
    let n = net(&[]);
    assert_eq!(n.sidelen(), 0);
    assert_eq!(n.square_debug_info(), "");
    assert!(n.is_identical(&net(&[])));
}

#[test]
fn projection_sensitivity() {
    let a = net(&[&[1, 0, 0], &[0, 0, 0], &[0, 0, 0]]);
    let b = net(&[&[2, 0, 0], &[0, 0, 0], &[0, 0, 0]]);
    assert!(a.is_identical(&b));
    assert!(b.is_identical(&a));
    assert_eq!(a.square_debug_info(), b.square_debug_info());
    assert_eq!(a.square_debug_info(), "TBLR tblR tblr \nTblr tblr tblr \ntblr tblr tblr \n");
}

#[test]
fn edges_follow_raw_heights_not_occupancy() {
    // two occupied neighbours of different height are parted by an edge
    let stepped = net(&[&[1, 2], &[0, 0]]);
    let level = net(&[&[2, 2], &[0, 0]]);
    assert!(!stepped.is_identical(&level));
    assert!(stepped.square(0, 0).bottom);
    assert!(stepped.square(0, 1).top);
    assert!(!level.square(0, 0).bottom);
    assert!(!level.square(0, 1).top);
    assert!(level.square(0, 0).fill && stepped.square(0, 0).fill);
}

#[test]
fn each_side_looks_at_its_own_neighbour() {
    // only the column in the middle is occupied
    let n = net(&[&[0, 0, 0], &[0, 5, 0], &[0, 0, 0]]);
    assert_eq!(n.square(1, 1).side_debug_info(), "TBLR ");
    // the square above the middle sees it across its bottom side
    assert_eq!(n.square(1, 0).side_debug_info(), "tBlr ");
    // the square below sees it across its top side
    assert_eq!(n.square(1, 2).side_debug_info(), "Tblr ");
    // the square at x - 1 sees it across its left side
    assert_eq!(n.square(0, 1).side_debug_info(), "tbLr ");
    // the square at x + 1 sees it across its right side
    assert_eq!(n.square(2, 1).side_debug_info(), "tblR ");
    assert_eq!(n.square(0, 0).side_debug_info(), "tblr ");
    assert!(n.square(1, 1).fill);
    assert!(!n.square(1, 0).fill);
}

#[test]
fn square_debug_info_goes_row_by_row() {
    let n = net(&[&[1, 0], &[0, 0]]);
    // row y = 0 holds the squares (0, 0) and (1, 0)
    assert_eq!(n.square_debug_info(), "TBLR tblR \nTblr tblr \n");
    let m = net(&[&[0, 0], &[3, 0]]);
    assert_eq!(m.square_debug_info(), "tbLr TBLR \ntblr Tblr \n");
}

#[test]
fn occupancy_is_no_part_of_equivalence() {
    // a full grid of one height and an empty grid differ in occupancy and,
    // at the rim, in edges
    let full = net(&[&[2, 2], &[2, 2]]);
    let empty = net(&[&[0, 0], &[0, 0]]);
    assert!(!full.is_identical(&empty));
    // the drawing attributes play no part
    let g = grid(&[&[1, 0], &[0, 3]]);
    let a = Net::from_columngrid(&g, 0, 4);
    let b = Net::from_columngrid(&g, 11, 2);
    assert!(a.is_identical(&b));
}

#[test]
fn equivalence_is_reflexive_symmetric_transitive() {
    let grids: Vec<Net> = vec![
        net(&[&[1, 0, 0], &[0, 0, 0], &[0, 0, 0]]),
        net(&[&[2, 0, 0], &[0, 0, 0], &[0, 0, 0]]),
        net(&[&[3, 0, 0], &[0, 0, 0], &[0, 0, 0]]),
        net(&[&[1, 1, 0], &[0, 0, 0], &[0, 0, 0]]),
        net(&[&[1, 2, 0], &[0, 0, 0], &[0, 0, 0]]),
        net(&[&[5, 7, 0], &[0, 0, 0], &[0, 0, 0]]),
        net(&[&[0, 0, 0], &[0, 0, 0], &[0, 0, 0]]),
    ];
    for a in grids.iter() {
        assert!(a.is_identical(a));
        for b in grids.iter() {
            assert_eq!(a.is_identical(b), b.is_identical(a));
            for c in grids.iter() {
                if a.is_identical(b) && b.is_identical(c) {
                    assert!(a.is_identical(c));
                }
            }
        }
    }
    assert!(grids[0].is_identical(&grids[2]));
    assert!(grids[4].is_identical(&grids[5]));
    assert!(!grids[3].is_identical(&grids[4]));
    assert!(!grids[0].is_identical(&grids[6]));
}

#[test]
fn clone_of_a_net_is_identical() {
    let a = net(&[&[1, 0, 3], &[0, 2, 2], &[5, 1, 0]]);
    let b = a.clone();
    assert_eq!(squares(&a), squares(&b));
    assert_eq!(b.layer(), a.layer());
    assert!(a.is_identical(&b));
}
