use evol_sim::vis::{clamp_column, create_1d_sim_image, render_row, Mark, Frame};

use Mark::{Boundary, Empty, Inside, Outside};

fn frame(positions: Vec<u32>, zone_low: u32, zone_high: u32) -> Frame {
    Frame { positions, zone_low, zone_high }
}

#[test]
fn marks_have_their_colours() {
    assert_eq!(Empty.rgb(), [0, 0, 0]);
    assert_eq!(Inside.rgb(), [0, 255, 0]);
    assert_eq!(Outside.rgb(), [255, 255, 255]);
    assert_eq!(Boundary.rgb(), [255, 0, 0]);
}

#[test]
fn columns_are_clamped_to_the_last() {
    assert_eq!(clamp_column(0, 8), 0);
    assert_eq!(clamp_column(7, 8), 7);
    assert_eq!(clamp_column(8, 8), 7);
    assert_eq!(clamp_column(u32::MAX, 8), 7);
    assert_eq!(clamp_column(5, 1), 0);
}

#[test]
fn empty_tick_shows_only_the_zone() {
    let row = render_row(6, &frame(vec![], 1, 4));
    assert_eq!(row, vec![Empty, Boundary, Empty, Empty, Boundary, Empty]);
}

#[test]
fn organisms_are_marked_by_the_zone() {
    let row = render_row(8, &frame(vec![0, 3, 6], 2, 5));
    assert_eq!(row, vec![Outside, Empty, Boundary, Inside, Empty, Boundary, Outside, Empty]);
}

#[test]
fn a_taken_column_moves_the_organism_right_once() {
    let row = render_row(8, &frame(vec![3, 3, 3], 1, 6));
    assert_eq!(row, vec![Empty, Boundary, Empty, Inside, Inside, Empty, Boundary, Empty]);
}

#[test]
fn a_moved_organism_keeps_the_mark_of_its_own_column() {
    let row = render_row(8, &frame(vec![4, 4], 1, 4));
    assert_eq!(row, vec![Empty, Boundary, Empty, Empty, Boundary, Inside, Empty, Empty]);
    let row = render_row(8, &frame(vec![0, 0], 1, 6));
    assert_eq!(row, vec![Outside, Boundary, Empty, Empty, Empty, Empty, Boundary, Empty]);
}

#[test]
fn the_last_column_never_moves_on() {
    let row = render_row(4, &frame(vec![3, 9, 3], 0, 1));
    assert_eq!(row, vec![Boundary, Boundary, Empty, Outside]);
}

#[test]
fn boundaries_are_drawn_over_organisms() {
    let row = render_row(5, &frame(vec![1, 3, 2], 1, 3));
    assert_eq!(row, vec![Empty, Boundary, Inside, Boundary, Empty]);
}

#[test]
fn zone_bounds_are_clamped_too() {
    let row = render_row(4, &frame(vec![1], 2, 40));
    assert_eq!(row, vec![Empty, Outside, Boundary, Boundary]);
    let row = render_row(1, &frame(vec![0, 0], 0, 0));
    assert_eq!(row, vec![Boundary]);
}

#[test]
fn image_has_one_row_per_tick() {
    let history = vec![
        frame(vec![0], 1, 2),
        frame(vec![], 0, 3),
        frame(vec![2, 2], 0, 0),
    ];
    let image = create_1d_sim_image(4, &history);
    assert_eq!(
        image,
        vec![
            vec![Outside, Boundary, Boundary, Empty],
            vec![Boundary, Empty, Empty, Boundary],
            vec![Boundary, Empty, Outside, Outside],
        ]
    );
    assert_eq!(create_1d_sim_image(4, &vec![]), Vec::<Vec<Mark>>::new());
}
