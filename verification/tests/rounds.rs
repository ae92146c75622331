use cube_game::columngrid::ColumnGrid;
use cube_game::config::{COLUMN_GRID_SIDELEN, NET_COUNT, NET_LAYER, NET_TEX_INDEX};
use cube_game::game::{
    candidate_net, gen_candidate, gen_cg, gen_decoy, gen_next_nets, gen_round, is_usable_net, GenerationError,
    Round,
};
use cube_game::net::Net;

fn grid(rows: &[&[u8]]) -> ColumnGrid {
    let n = rows.len() as u8;
    let mut g = ColumnGrid::new(n);
    for x in 0..n {
        for y in 0..n {
            g.set_column(x, y, rows[x as usize][y as usize]);
        }
    }
    g
}

fn net(rows: &[&[u8]]) -> Net {
    Net::from_columngrid(&grid(rows), NET_TEX_INDEX, NET_LAYER)
}

fn assert_fair(round: &Round, source: &ColumnGrid, count: usize) {
    assert_eq!(round.nets.len(), count);
    assert!(round.correct_index < count);
    assert_eq!(round.source_grid.columns, source.columns);
    assert_eq!(round.source_grid.sidelen, source.sidelen);
    let correct = Net::from_columngrid(source, NET_TEX_INDEX, NET_LAYER);
    let mut equal_to_correct = 0;
    for (i, n) in round.nets.iter().enumerate() {
        assert_eq!(n.sidelen(), source.sidelen);
        assert_eq!(n.layer(), NET_LAYER);
        if n.is_identical(&correct) {
            equal_to_correct += 1;
            assert_eq!(i, round.correct_index);
        }
        for (j, m) in round.nets.iter().enumerate() {
            if i != j {
                assert!(!n.is_identical(m));
            }
        }
    }
    assert_eq!(equal_to_correct, 1);
    assert_eq!(
        round.nets[round.correct_index].square_debug_info(),
        correct.square_debug_info()
    );
}

#[test]
fn generated_grid_is_playable() {
    for _ in 0..20 {
        let g = gen_cg(3, 1_000_000).unwrap();
        assert_eq!(g.sidelen, 3);
        assert!(g.count_occupied_columns() > 5);
        assert!(g.highest_column() != 1);
        assert!(g.is_playable());
    }
}

#[test]
fn grid_below_side_three_is_a_configuration_error() {
    for side in 0..3u8 {
        assert_eq!(gen_cg(side, 1000).unwrap_err(), GenerationError::Configuration);
        assert_eq!(gen_cg(side, 0).unwrap_err(), GenerationError::Configuration);
    }
}

#[test]
fn grid_without_attempts_is_exhausted() {
    assert_eq!(gen_cg(3, 0).unwrap_err(), GenerationError::Exhausted);
    assert_eq!(gen_cg(200, 0).unwrap_err(), GenerationError::Exhausted);
}

#[test]
fn end_to_end_round() {
    for _ in 0..50 {
        let g = gen_cg(3, 1_000_000).unwrap();
        let round = gen_next_nets(&g, 4, 1_000_000).unwrap();
        assert!(round.correct_index < 4);
        assert_fair(&round, &g, 4);
    }
}

#[test]
fn round_distinctness() {
    let g = grid(&[&[3, 2, 1], &[2, 2, 0], &[1, 0, 0]]);
    for count in 1..7usize {
        for _ in 0..20 {
            let round = gen_next_nets(&g, count, 1_000_000).unwrap();
            assert_fair(&round, &g, count);
        }
    }
}

#[test]
fn correct_net_takes_every_place() {
    let g = grid(&[&[3, 2, 1], &[2, 2, 0], &[1, 0, 0]]);
    let mut seen = [false; 4];
    for _ in 0..400 {
        let round = gen_next_nets(&g, 4, 1_000_000).unwrap();
        seen[round.correct_index] = true;
    }
    assert_eq!(seen, [true; 4]);
}

#[test]
fn round_of_one_net_needs_no_decoy() {
    let g = grid(&[&[3, 2, 1], &[2, 2, 0], &[1, 0, 0]]);
    let round = gen_next_nets(&g, 1, 0).unwrap();
    assert_eq!(round.correct_index, 0);
    assert_fair(&round, &g, 1);
    let empty = gen_next_nets(&ColumnGrid::new(0), 1, 0).unwrap();
    assert_eq!(empty.nets.len(), 1);
    assert_eq!(empty.correct_index, 0);
    assert_eq!(empty.nets[0].sidelen(), 0);
}

#[test]
fn round_without_nets_is_a_configuration_error() {
    let g = grid(&[&[3, 2, 1], &[2, 2, 0], &[1, 0, 0]]);
    assert_eq!(gen_next_nets(&g, 0, 1000).unwrap_err(), GenerationError::Configuration);
    assert_eq!(
        gen_next_nets(&ColumnGrid::new(0), 0, 1000).unwrap_err(),
        GenerationError::Configuration
    );
}

#[test]
fn decoys_of_a_grid_without_columns_are_a_configuration_error() {
    assert_eq!(
        gen_next_nets(&ColumnGrid::new(0), 2, 1000).unwrap_err(),
        GenerationError::Configuration
    );
    assert_eq!(
        gen_next_nets(&ColumnGrid::new(0), 4, 0).unwrap_err(),
        GenerationError::Configuration
    );
}

#[test]
fn round_without_attempts_is_exhausted() {
    let g = grid(&[&[3, 2, 1], &[2, 2, 0], &[1, 0, 0]]);
    assert_eq!(gen_next_nets(&g, 2, 0).unwrap_err(), GenerationError::Exhausted);
    assert_eq!(gen_next_nets(&g, 4, 0).unwrap_err(), GenerationError::Exhausted);
}

#[test]
fn round_that_cannot_be_completed_is_exhausted() {
    // every change of a grid of side 1 empties its one column, so no
    // changed grid is tall enough to be a decoy
    let g = grid(&[&[5]]);
    assert_eq!(gen_next_nets(&g, 2, 200).unwrap_err(), GenerationError::Exhausted);
    // a grid of side 2 has far fewer distinct nets than this
    let h = grid(&[&[2, 0], &[0, 0]]);
    assert_eq!(gen_next_nets(&h, 200, 50).unwrap_err(), GenerationError::Exhausted);
}

#[test]
fn candidate_is_a_changed_grid_with_a_tall_column() {
    let g = grid(&[&[3, 2, 1], &[2, 2, 0], &[1, 0, 0]]);
    let mut some = 0;
    for _ in 0..200 {
        if let Some(n) = gen_candidate(&g) {
            some += 1;
            assert_eq!(n.sidelen(), 3);
            assert_eq!(n.layer(), NET_LAYER);
            assert_eq!(n.square(0, 0).texindex, NET_TEX_INDEX);
        }
    }
    assert!(some > 0);
    // all columns 1 high: no change can raise one above 1 in a grid of side 2
    let flat = grid(&[&[1, 1], &[1, 1]]);
    for _ in 0..100 {
        assert!(gen_candidate(&flat).is_none());
    }
}

#[test]
fn candidate_needs_a_column_above_one() {
    assert!(candidate_net(&grid(&[&[0, 0], &[0, 0]])).is_none());
    assert!(candidate_net(&grid(&[&[1, 1], &[0, 1]])).is_none());
    assert!(candidate_net(&ColumnGrid::new(0)).is_none());
    let g = grid(&[&[1, 2], &[0, 1]]);
    let n = candidate_net(&g).unwrap();
    assert_eq!(n.layer(), NET_LAYER);
    assert_eq!(n.square(0, 1).texindex, NET_TEX_INDEX);
    assert!(n.is_identical(&net(&[&[1, 2], &[0, 1]])));
    assert_eq!(n.square_debug_info(), "TBLR tBlR \nTBLR TBLR \n");
}

#[test]
fn single_column_gives_no_candidate_and_no_decoy() {
    // every change of a grid of side 1 empties its one column
    let g = grid(&[&[5]]);
    let correct = Net::from_columngrid(&g, NET_TEX_INDEX, NET_LAYER);
    for _ in 0..100 {
        assert!(gen_candidate(&g).is_none());
    }
    assert!(gen_decoy(&g, &correct, &vec![], 100).is_none());
}

#[test]
fn grid_with_many_tall_columns_always_gives_a_candidate() {
    // two changes leave at least one of three tall columns standing
    let g = grid(&[&[7, 7, 7], &[0, 0, 0], &[0, 0, 0]]);
    for _ in 0..200 {
        assert!(gen_candidate(&g).is_some());
    }
}

#[test]
fn usable_net_differs_from_correct_and_placed() {
    let correct = net(&[&[1, 0, 0], &[0, 0, 0], &[0, 0, 0]]);
    let same_as_correct = net(&[&[2, 0, 0], &[0, 0, 0], &[0, 0, 0]]);
    let other = net(&[&[1, 1, 0], &[0, 0, 0], &[0, 0, 0]]);
    let same_as_other = net(&[&[3, 3, 0], &[0, 0, 0], &[0, 0, 0]]);
    let third = net(&[&[1, 2, 0], &[0, 0, 0], &[0, 0, 0]]);
    assert!(is_usable_net(&other, &correct, &vec![]));
    assert!(!is_usable_net(&same_as_correct, &correct, &vec![]));
    assert!(!is_usable_net(&correct.clone(), &correct, &vec![]));
    assert!(is_usable_net(&third, &correct, &vec![other.clone()]));
    assert!(!is_usable_net(&same_as_other, &correct, &vec![other.clone()]));
    assert!(!is_usable_net(&same_as_other, &correct, &vec![third.clone(), other.clone()]));
    assert!(!is_usable_net(&same_as_correct, &correct, &vec![third.clone(), other.clone()]));
    assert!(is_usable_net(&third, &correct, &vec![other.clone(), same_as_correct.clone()]));
}

#[test]
fn decoy_is_usable() {
    let g = grid(&[&[3, 2, 1], &[2, 2, 0], &[1, 0, 0]]);
    let correct = Net::from_columngrid(&g, NET_TEX_INDEX, NET_LAYER);
    let mut placed: Vec<Net> = vec![];
    for _ in 0..5 {
        let d = gen_decoy(&g, &correct, &placed, 1_000_000).unwrap();
        assert!(is_usable_net(&d, &correct, &placed));
        assert!(!d.is_identical(&correct));
        placed.push(d);
    }
    assert!(gen_decoy(&g, &correct, &placed, 0).is_none());
}

#[test]
fn round_of_a_session_has_the_configured_size() {
    let round = gen_round(1_000_000).unwrap();
    assert_eq!(round.nets.len(), NET_COUNT);
    assert_eq!(round.source_grid.sidelen, COLUMN_GRID_SIDELEN);
    assert!(round.source_grid.is_playable());
    let source = round.source_grid.clone();
    assert_fair(&round, &source, NET_COUNT);
    assert_eq!(gen_round(0).unwrap_err(), GenerationError::Exhausted);
}
