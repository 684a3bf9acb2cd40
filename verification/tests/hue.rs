use cherenkov::hue::{arrange, slots, SECTORS, SLOTS};

#[test]
fn the_table_has_its_six_rows() {
    assert_eq!(slots(0), [0, 3, 1]);
    assert_eq!(slots(1), [2, 0, 1]);
    assert_eq!(slots(2), [1, 0, 3]);
    assert_eq!(slots(3), [1, 2, 0]);
    assert_eq!(slots(4), [3, 1, 0]);
    assert_eq!(slots(5), [0, 1, 2]);
}

#[test]
fn the_circle_closes_after_the_sixth_sector() {
    assert_eq!(SECTORS, 6);
    assert_eq!(SLOTS, 4);
    assert_eq!(slots(6), slots(0));
    assert_eq!(slots(7), slots(1));
    assert_eq!(slots(6 * 1000 + 4), slots(4));
    assert_eq!(slots(usize::MAX), slots(usize::MAX % 6));
}

#[test]
fn arrange_picks_by_the_row() {
    let candidates = ['v', 'p', 'q', 't'];
    assert_eq!(arrange(0, candidates), ['v', 't', 'p']);
    assert_eq!(arrange(1, candidates), ['q', 'v', 'p']);
    assert_eq!(arrange(2, candidates), ['p', 'v', 't']);
    assert_eq!(arrange(3, candidates), ['p', 'q', 'v']);
    assert_eq!(arrange(4, candidates), ['t', 'p', 'v']);
    assert_eq!(arrange(5, candidates), ['v', 'p', 'q']);
    assert_eq!(arrange(11, candidates), ['v', 'p', 'q']);
}

#[test]
fn equal_candidates_give_gray_in_every_sector() {
    for sector in 0..20 {
        assert_eq!(arrange(sector, [0.5f64; 4]), [0.5, 0.5, 0.5]);
    }
}

#[test]
fn every_row_hands_out_the_value_and_the_floor() {
    for sector in 0..6usize {
        let row = slots(sector);
        let peak = ((sector + 1) / 2) % 3;
        let floor = (sector / 2 + 2) % 3;
        assert_eq!(row[peak], 0);
        assert_eq!(row[floor], 1);
        assert_eq!(row[3 - peak - floor], if sector % 2 == 0 { 3 } else { 2 });
    }
}
