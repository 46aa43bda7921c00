use traffic_control::direction::{Direction, Route};
use traffic_control::display::{
    circle_spans, congestion_level, queue_bar_width, sprite_origin, Congestion,
};
use traffic_control::font::{get_char_bitmap, string_cells};
use traffic_control::path::generate_path;
use traffic_control::vehicle::Vehicle;

#[test]
fn glyphs_ignore_case_and_unknown_characters_are_blank() {
    assert_eq!(get_char_bitmap('a'), [0x0E, 0x11, 0x11, 0x1F, 0x11, 0x11, 0x11]);
    assert_eq!(get_char_bitmap('a'), get_char_bitmap('A'));
    assert_eq!(get_char_bitmap('z'), get_char_bitmap('Z'));
    assert_eq!(get_char_bitmap('7'), [0x1F, 0x01, 0x02, 0x04, 0x08, 0x08, 0x08]);
    assert_eq!(get_char_bitmap('?'), [0; 7]);
    assert_eq!(get_char_bitmap('↓'), [0; 7]);
}

#[test]
fn text_is_laid_out_cell_by_cell() {
    let cells = string_cells(10, 20, "I", 1);
    assert_eq!(
        cells,
        vec![
            (11, 20), (12, 20), (13, 20),
            (12, 21), (12, 22), (12, 23), (12, 24), (12, 25),
            (11, 26), (12, 26), (13, 26),
        ]
    );
    assert!(string_cells(0, 0, " ", 3).is_empty());
    let dash = string_cells(0, 0, " -", 2);
    assert_eq!(dash, vec![(12, 6), (14, 6), (16, 6), (18, 6), (20, 6)]);
}

#[test]
fn discs_are_filled_row_by_row() {
    assert_eq!(
        circle_spans(0, 0, 2),
        vec![(0, -2, 0), (-1, -1, 2), (-2, 0, 4), (-1, 1, 2), (0, 2, 0)]
    );
    assert!(circle_spans(5, 5, -1).is_empty());
    let spans = circle_spans(100, 50, 5);
    assert_eq!(spans.len(), 11);
    assert_eq!(spans[5], (95, 50, 10));
    assert_eq!(spans[8], (96, 53, 8));
    assert_eq!(spans[9], (97, 54, 6));
}

#[test]
fn congestion_levels_and_bars() {
    assert_eq!(congestion_level(7, 7), Congestion::Full);
    assert_eq!(congestion_level(9, 7), Congestion::Full);
    assert_eq!(congestion_level(5, 7), Congestion::Busy);
    assert_eq!(congestion_level(4, 7), Congestion::Clear);
    assert_eq!(congestion_level(1, 1), Congestion::Full);
    assert_eq!(congestion_level(3, 0), Congestion::Full);
    assert_eq!(queue_bar_width(0, 7), 0);
    assert_eq!(queue_bar_width(3, 7), 72);
    assert_eq!(queue_bar_width(7, 7), 170);
    assert_eq!(queue_bar_width(10, 7), 170);
}

#[test]
fn sprites_are_placed_in_whole_pixels() {
    let mut v = Vehicle {
        id: 0,
        spawn_direction: Direction::North,
        route: Route::Straight,
        path: generate_path(Direction::North, Route::Straight),
        current_waypoint: 1,
        x: 370 * 320,
        y: -50 * 320,
        is_stopped: false,
    };
    assert_eq!(sprite_origin(&v), None);
    v.y = -20 * 320;
    assert_eq!(sprite_origin(&v), Some((355, -29)));
    v.x = 118_560;
    assert_eq!(sprite_origin(&v), Some((355, -29)));
    v.y = -31 * 320;
    assert_eq!(sprite_origin(&v), None);
    v.y = 100 * 320;
    v.current_waypoint = 3;
    assert_eq!(sprite_origin(&v), None);
}

#[test]
fn no_two_characters_share_a_glyph() {
    let chars: Vec<char> = "0123456789ABCDEFGHIJKLMNOPQRSTUVWXYZ:/-.%".chars().collect();
    assert_eq!(chars.len(), 41);
    for (i, a) in chars.iter().enumerate() {
        for b in chars.iter().skip(i + 1) {
            assert_ne!(get_char_bitmap(*a), get_char_bitmap(*b));
        }
    }
}

#[test]
fn text_near_the_bottom_edge_needs_only_its_drawn_rows() {
    assert!(string_cells(0, i32::MAX, "  ", 1).is_empty());
    let dash = string_cells(0, i32::MAX - 3, "-", 1);
    assert_eq!(
        dash,
        vec![(0, i32::MAX), (1, i32::MAX), (2, i32::MAX), (3, i32::MAX), (4, i32::MAX)]
    );
}
