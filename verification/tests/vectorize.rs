use kule::contour::trace_contours;
use kule::edge::{adj_neighbors_array, boundary_mask, is_boundary_pixel, neighbors};
use kule::path::{contours, path_commands, vectorize, PathCommand};
use kule::raster::Coverage;

fn bitmap(rows: &[&str]) -> Coverage {
    let height = rows.len();
    let width = rows[0].len();
    let mut bytes = Vec::new();
    for row in rows {
        for c in row.chars() {
            bytes.push(if c == '#' { 200u8 } else { 0u8 });
        }
    }
    Coverage::new(width, height, bytes).unwrap()
}

fn boundary_pixels(bitmap: &Coverage) -> Vec<(usize, usize)> {
    let mask = boundary_mask(bitmap);
    let mut out = Vec::new();
    for (i, b) in mask.iter().enumerate() {
        if *b {
            out.push((i % bitmap.width(), i / bitmap.width()));
        }
    }
    out
}

#[test]
fn coverage_needs_one_byte_per_pixel() {
    assert!(Coverage::new(2, 3, vec![0; 6]).is_some());
    assert!(Coverage::new(2, 3, vec![0; 5]).is_none());
    assert!(Coverage::new(2, 3, vec![0; 7]).is_none());
    assert!(Coverage::new(0, 0, vec![]).is_some());
    assert!(Coverage::new(usize::MAX, 2, vec![]).is_none());
}

#[test]
fn coverage_reads_bytes_row_by_row() {
    let c = Coverage::new(3, 2, vec![1, 2, 3, 4, 5, 6]).unwrap();
    assert_eq!(c.width(), 3);
    assert_eq!(c.height(), 2);
    assert_eq!(c.byte(0, 0), 1);
    assert_eq!(c.byte(2, 0), 3);
    assert_eq!(c.byte(0, 1), 4);
    assert_eq!(c.byte(2, 1), 6);
}

#[test]
fn adjacent_neighbors_stop_at_the_border() {
    assert_eq!(adj_neighbors_array((0, 0), 3, 3), [None, Some((1, 0)), None, Some((0, 1))]);
    assert_eq!(
        adj_neighbors_array((1, 1), 3, 3),
        [Some((0, 1)), Some((2, 1)), Some((1, 0)), Some((1, 2))]
    );
    assert_eq!(adj_neighbors_array((2, 2), 3, 3), [Some((1, 2)), None, Some((2, 1)), None]);
    assert_eq!(adj_neighbors_array((0, 0), 1, 1), [None, None, None, None]);
}

#[test]
fn neighbors_come_in_a_fixed_order() {
    assert_eq!(
        neighbors((1, 1), 3, 3),
        [
            Some((0, 1)),
            Some((2, 1)),
            Some((1, 0)),
            Some((1, 2)),
            Some((0, 0)),
            Some((2, 0)),
            Some((0, 2)),
            Some((2, 2)),
        ]
    );
    assert_eq!(
        neighbors((0, 0), 3, 3),
        [None, Some((1, 0)), None, Some((0, 1)), None, None, None, Some((1, 1))]
    );
    assert_eq!(
        neighbors((2, 1), 3, 2),
        [Some((1, 1)), None, Some((2, 0)), None, Some((1, 0)), None, None, None]
    );
}

#[test]
fn solid_square_has_its_ring_as_boundary() {
    let b = bitmap(&["#####"; 5]);
    assert_eq!(
        boundary_pixels(&b),
        vec![
            (1, 0),
            (2, 0),
            (3, 0),
            (0, 1),
            (4, 1),
            (0, 2),
            (4, 2),
            (0, 3),
            (4, 3),
            (1, 4),
            (2, 4),
            (3, 4),
        ]
    );
    for y in 1..4 {
        for x in 1..4 {
            assert!(!is_boundary_pixel(&b, (x, y)));
        }
    }
}

#[test]
fn larger_solid_square_keeps_the_interior_out() {
    let b = bitmap(&["#######"; 7]);
    for y in 0..7usize {
        for x in 0..7usize {
            let ring = x == 0 || y == 0 || x == 6 || y == 6;
            let corner = (x == 0 || x == 6) && (y == 0 || y == 6);
            assert_eq!(is_boundary_pixel(&b, (x, y)), ring && !corner);
        }
    }
}

#[test]
fn pixel_with_one_empty_side_is_boundary() {
    let b = bitmap(&["....", "####", "####", "...."]);
    assert_eq!(boundary_pixels(&b), vec![(1, 1), (2, 1), (1, 2), (2, 2)]);
}

#[test]
fn lone_pixel_is_no_boundary() {
    let b = bitmap(&["...", ".#.", "..."]);
    assert_eq!(boundary_pixels(&b), vec![]);
    let single = bitmap(&["#"]);
    assert!(!is_boundary_pixel(&single, (0, 0)));
}

#[test]
fn off_pixel_is_no_boundary() {
    let b = bitmap(&["###", "#.#", "###"]);
    assert!(!is_boundary_pixel(&b, (1, 1)));
}

#[test]
fn blank_bitmap_has_no_contours() {
    let b = bitmap(&["....", "....", "...."]);
    assert_eq!(boundary_pixels(&b), vec![]);
    assert_eq!(contours(&b), Vec::<Vec<(usize, usize)>>::new());
    assert_eq!(vectorize(&b), vec![]);
    let nothing = Coverage::new(0, 0, vec![]).unwrap();
    assert_eq!(contours(&nothing), Vec::<Vec<(usize, usize)>>::new());
    assert_eq!(vectorize(&nothing), vec![]);
}

#[test]
fn small_square_is_one_contour() {
    let b = bitmap(&["###"; 3]);
    assert_eq!(contours(&b), vec![vec![(1, 0), (2, 1), (1, 2)]]);
}

#[test]
fn walk_goes_around_a_solid_square() {
    let b = bitmap(&["#####"; 5]);
    assert_eq!(
        contours(&b),
        vec![vec![
            (1, 0),
            (0, 1),
            (0, 2),
            (0, 3),
            (1, 4),
            (2, 4),
            (3, 4),
            (4, 3),
            (4, 2),
            (4, 1),
            (3, 0),
        ]]
    );
}

#[test]
fn walk_prefers_the_diagonal_neighbor() {
    let b = bitmap(&["....", "####", "####", "...."]);
    assert_eq!(contours(&b), vec![vec![(1, 1), (2, 2)]]);
}

#[test]
fn later_neighbor_wins_a_tie() {
    // Both diagonal neighbors below the first pixel are left; the one to the
    // right comes later in the order of the neighbors.
    let mask = vec![false, true, false, true, false, true, false, false, false];
    assert_eq!(trace_contours(mask, 3, 3), vec![vec![(1, 0), (2, 1)]]);
    // Right and bottom are equally far; bottom comes later, and right
    // leaves the mask with it.
    let mask = vec![true, true, true, false];
    assert_eq!(trace_contours(mask, 2, 2), vec![vec![(0, 0), (0, 1)]]);
}

#[test]
fn walk_follows_a_row() {
    let mask = vec![true, true, true];
    assert_eq!(trace_contours(mask, 3, 1), vec![vec![(0, 0), (1, 0), (2, 0)]]);
    let mask = vec![false, false, false, true, true, true, false, false, false];
    assert_eq!(trace_contours(mask, 3, 3), vec![vec![(0, 1), (1, 1), (2, 1)]]);
}

#[test]
fn every_found_neighbor_leaves_the_mask() {
    // From the middle pixel the walk goes to the bottom right; the other
    // neighbors are dropped with it and start no contour of their own.
    let mask = vec![true; 9];
    assert_eq!(trace_contours(mask, 3, 3), vec![vec![(0, 0), (1, 1), (2, 2)]]);
}

#[test]
fn isolated_boundary_pixel_is_a_contour_of_one() {
    let b = bitmap(&["..##", "##.#", "#.##"]);
    assert_eq!(boundary_pixels(&b), vec![(1, 1), (3, 1)]);
    assert_eq!(contours(&b), vec![vec![(1, 1)], vec![(3, 1)]]);
    assert_eq!(
        vectorize(&b),
        vec![
            PathCommand::MoveTo((1, 1)),
            PathCommand::Close,
            PathCommand::MoveTo((3, 1)),
            PathCommand::Close,
        ]
    );
}

#[test]
fn contours_start_in_row_major_order() {
    let b = bitmap(&["...#", "####", "##.#"]);
    assert_eq!(contours(&b), vec![vec![(1, 1), (1, 2)], vec![(3, 1)]]);
}

#[test]
fn ring_has_an_outer_and_an_inner_contour() {
    let b = bitmap(&[
        "#########",
        "#########",
        "#########",
        "###...###",
        "###...###",
        "###...###",
        "#########",
        "#########",
        "#########",
    ]);
    let found = contours(&b);
    assert_eq!(found.len(), 2);
    assert_eq!(
        found[0],
        vec![
            (1, 0),
            (0, 1),
            (0, 2),
            (0, 3),
            (0, 4),
            (0, 5),
            (0, 6),
            (0, 7),
            (1, 8),
            (2, 8),
            (3, 8),
            (4, 8),
            (5, 8),
            (6, 8),
            (7, 8),
            (8, 7),
            (8, 6),
            (8, 5),
            (8, 4),
            (8, 3),
            (8, 2),
            (8, 1),
            (7, 0),
            (6, 0),
            (5, 0),
            (4, 0),
            (3, 0),
        ]
    );
    assert_eq!(
        found[1],
        vec![
            (3, 2),
            (2, 3),
            (2, 4),
            (2, 5),
            (3, 6),
            (4, 6),
            (5, 6),
            (6, 5),
            (6, 4),
            (6, 3),
            (5, 2),
        ]
    );
}

#[test]
fn path_closes_each_contour() {
    let contours = vec![vec![(1, 0), (2, 1), (1, 2)], vec![(5, 5)]];
    assert_eq!(
        path_commands(&contours),
        vec![
            PathCommand::MoveTo((1, 0)),
            PathCommand::LineTo((2, 1)),
            PathCommand::LineTo((1, 2)),
            PathCommand::Close,
            PathCommand::MoveTo((5, 5)),
            PathCommand::Close,
        ]
    );
    assert_eq!(path_commands(&Vec::new()), vec![]);
}

#[test]
fn vectorizing_twice_gives_the_same_path() {
    let rows = ["######", "######", "##..##", "##..##", "######", "######"];
    let first = vectorize(&bitmap(&rows));
    let second = vectorize(&bitmap(&rows));
    assert_eq!(first, second);
    assert!(!first.is_empty());
}

#[test]
fn coverage_value_does_not_matter_beyond_zero() {
    let a = Coverage::new(3, 3, vec![1; 9]).unwrap();
    let b = Coverage::new(3, 3, vec![255; 9]).unwrap();
    assert_eq!(vectorize(&a), vectorize(&b));
}

#[test]
fn contours_use_each_boundary_pixel_at_most_once() {
    let shapes: [&[&str]; 4] = [
        &["#########"; 9],
        &["######", "######", "##..##", "##..##", "######", "######"],
        &["##....", "##....", "##....", "######", "######"],
        &["..####..", ".######.", "###..###", "##....##", "###..###", ".######.", "..####.."],
    ];
    for rows in shapes {
        let b = bitmap(rows);
        let boundary = boundary_pixels(&b);
        let found = contours(&b);
        let mut seen = Vec::new();
        for contour in &found {
            assert!(!contour.is_empty());
            for (i, p) in contour.iter().enumerate() {
                assert!(boundary.contains(p));
                assert!(!seen.contains(p));
                seen.push(*p);
                if i > 0 {
                    let q = contour[i - 1];
                    assert!(p.0.abs_diff(q.0) <= 1 && p.1.abs_diff(q.1) <= 1);
                }
            }
        }
        for p in &boundary {
            let near = seen.iter().any(|q| p.0.abs_diff(q.0) <= 1 && p.1.abs_diff(q.1) <= 1);
            assert!(near);
        }
    }
}
