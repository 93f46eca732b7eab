use cubus::cube::Cube;
use cubus::lexer::movevec_of_string;
use cubus::search::find_moves;

/// Edge length, longest sequence, the moves that make the destination,
/// the sequences found and the number of moves explored.
const CASES: &[(u8, usize, &str, &[&str], u64)] = &[
    (3, 1, "Y0Y2", &[], 18),
    (3, 2, "X1Y2", &["X1Y2"], 315),
    (4, 1, "Y0", &["Y0"], 24),
    (3, 3, "x0z0", &["x0z0"], 5159),
    (2, 2, "X1Y0", &["X1Y0"], 126),
    (3, 3, "X2", &["X2", "X0X2x0", "X1X2x1", "x0X2X0", "x1X2X1"], 4897),
    (2, 2, "X1X0", &[], 126),
    (4, 2, "Z2", &["Z2"], 542),
    (2, 2, "y0", &["y0"], 117),
    (4, 1, "Z3Z1", &[], 24),
    (2, 2, "X0x1", &["X0x1", "x1X0"], 126),
    (3, 2, "y1", &["y1"], 299),
    (2, 1, "z1", &["z1"], 12),
    (2, 3, "X1x0", &["X1x0", "x0X1"], 1188),
    (3, 1, "z1", &["z1"], 18),
    (3, 3, "Y2z0", &["Y2z0"], 5159),
    (3, 2, "y0", &["y0"], 299),
    (3, 2, "x0", &["x0"], 299),
    (3, 2, "X2z0x0", &[], 315),
    (4, 2, "Z0", &["Z0"], 542),
    (3, 3, "y1", &["y1", "Y0y1y0", "Y2y1y2", "y0y1Y0", "y2y1Y2"], 4897),
    (2, 2, "X1", &["X1"], 117),
    (3, 2, "x0Z2", &["x0Z2"], 315),
    (3, 2, "Z2y1", &["Z2y1"], 315),
    (2, 1, "z0z0", &[], 12),
    (4, 1, "Y2", &["Y2"], 24),
    (2, 1, "y0Y0", &[""], 0),
    (4, 1, "Y0", &["Y0"], 24),
    (3, 3, "y1y2Y1", &["y2", "Y0y2y0", "Y1y2y1", "y0y2Y0", "y1y2Y1"], 4897),
    (4, 2, "X2y0", &["X2y0"], 564),
    (2, 2, "X0", &["X0"], 117),
    (2, 1, "y1", &["y1"], 12),
    (2, 2, "x1z1", &["x1z1"], 126),
    (3, 1, "Y0y0", &[""], 0),
    (2, 1, "Y0", &["Y0"], 12),
    (3, 3, "X0X2", &["X0X2", "X2X0"], 5144),
];

#[test]
fn searches_give_the_listed_results() {
    for &(size, max_len, moves, found, explored) in CASES {
        let src = Cube::new(size);
        let dst = src.copy_with_moves(&movevec_of_string(moves, size - 1));
        let (texts, count) = find_moves(max_len, &src, &dst);
        let expected: Vec<String> = found.iter().map(|t| t.to_string()).collect();
        assert_eq!(texts, expected, "size {} within {} to {}", size, max_len, moves);
        assert_eq!(count, explored, "size {} within {} to {}", size, max_len, moves);
    }
}

#[test]
fn found_sequences_lead_to_the_destination() {
    for &(size, max_len, moves, _, _) in CASES {
        let src = Cube::new(size);
        let dst = src.copy_with_moves(&movevec_of_string(moves, size - 1));
        let (texts, _) = find_moves(max_len, &src, &dst);
        for text in texts.iter() {
            let list = movevec_of_string(text, size - 1);
            assert!(list.len() <= max_len);
            assert!(src.copy_with_moves(&list) == dst);
        }
    }
}
