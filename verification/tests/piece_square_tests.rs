use enrust::game_state::board::evaluation::piece_square::{pst_lookup, KING_EG, KING_MG, KNIGHT_EG, KNIGHT_MG};

#[test]
fn test_pst_lookup_a1() {
    let sq = 0i16;
    assert_eq!(pst_lookup(&KING_MG, sq, true), -15);
    assert_eq!(pst_lookup(&KING_EG, sq, true), -53);
}

#[test]
fn test_pst_lookup_a8() {
    let sq = 56i16;
    assert_eq!(pst_lookup(&KING_MG, sq, true), -65);
    assert_eq!(pst_lookup(&KING_EG, sq, true), -74);
}

#[test]
fn test_pst_lookup_e4() {
    let sq = 28i16;
    assert_eq!(pst_lookup(&KNIGHT_MG, sq, true), 28);
    assert_eq!(pst_lookup(&KNIGHT_EG, sq, true), 16);
}
