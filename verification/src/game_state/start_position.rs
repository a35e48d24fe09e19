//! The start position read from its FEN text.
use vstd::prelude::*;
use crate::game_state::{fen_accepted, fen_applied, fen_rights, GameState};
use crate::game_state::board::CastlingRights;
use crate::game_state::board::piece::Color;
use crate::game_state::fen::{
    castling_scan, en_passant_field, number_field, placement_upto, side_field, token_end, tokens, tokens_from, skip_spaces,
    unsigned_digits, decimal_value,
};

verus! {

/// The fields of the start position's FEN text.
proof fn lemma_start_tokens()
    ensures
        tokens("rnbqkbnr/pppppppp/8/8/8/8/PPPPPPPP/RNBQKBNR w KQkq - 0 1"@) == seq![
            "rnbqkbnr/pppppppp/8/8/8/8/PPPPPPPP/RNBQKBNR w KQkq - 0 1"@.subrange(0, 43),
            "rnbqkbnr/pppppppp/8/8/8/8/PPPPPPPP/RNBQKBNR w KQkq - 0 1"@.subrange(44, 45),
            "rnbqkbnr/pppppppp/8/8/8/8/PPPPPPPP/RNBQKBNR w KQkq - 0 1"@.subrange(46, 50),
            "rnbqkbnr/pppppppp/8/8/8/8/PPPPPPPP/RNBQKBNR w KQkq - 0 1"@.subrange(51, 52),
            "rnbqkbnr/pppppppp/8/8/8/8/PPPPPPPP/RNBQKBNR w KQkq - 0 1"@.subrange(53, 54),
            "rnbqkbnr/pppppppp/8/8/8/8/PPPPPPPP/RNBQKBNR w KQkq - 0 1"@.subrange(55, 56),
        ],
{
    reveal_strlit("rnbqkbnr/pppppppp/8/8/8/8/PPPPPPPP/RNBQKBNR w KQkq - 0 1");
    let s = "rnbqkbnr/pppppppp/8/8/8/8/PPPPPPPP/RNBQKBNR w KQkq - 0 1"@;
    assert(s.len() == 56);
    assert(token_end(s, 43) == 43);
    assert(token_end(s, 42) == 43);
    assert(token_end(s, 41) == 43);
    assert(token_end(s, 40) == 43);
    assert(token_end(s, 39) == 43);
    assert(token_end(s, 38) == 43);
    assert(token_end(s, 37) == 43);
    assert(token_end(s, 36) == 43);
    assert(token_end(s, 35) == 43);
    assert(token_end(s, 34) == 43);
    assert(token_end(s, 33) == 43);
    assert(token_end(s, 32) == 43);
    assert(token_end(s, 31) == 43);
    assert(token_end(s, 30) == 43);
    assert(token_end(s, 29) == 43);
    assert(token_end(s, 28) == 43);
    assert(token_end(s, 27) == 43);
    assert(token_end(s, 26) == 43);
    assert(token_end(s, 25) == 43);
    assert(token_end(s, 24) == 43);
    assert(token_end(s, 23) == 43);
    assert(token_end(s, 22) == 43);
    assert(token_end(s, 21) == 43);
    assert(token_end(s, 20) == 43);
    assert(token_end(s, 19) == 43);
    assert(token_end(s, 18) == 43);
    assert(token_end(s, 17) == 43);
    assert(token_end(s, 16) == 43);
    assert(token_end(s, 15) == 43);
    assert(token_end(s, 14) == 43);
    assert(token_end(s, 13) == 43);
    assert(token_end(s, 12) == 43);
    assert(token_end(s, 11) == 43);
    assert(token_end(s, 10) == 43);
    assert(token_end(s, 9) == 43);
    assert(token_end(s, 8) == 43);
    assert(token_end(s, 7) == 43);
    assert(token_end(s, 6) == 43);
    assert(token_end(s, 5) == 43);
    assert(token_end(s, 4) == 43);
    assert(token_end(s, 3) == 43);
    assert(token_end(s, 2) == 43);
    assert(token_end(s, 1) == 43);
    assert(token_end(s, 0) == 43);
    assert(token_end(s, 45) == 45);
    assert(token_end(s, 44) == 45);
    assert(token_end(s, 50) == 50);
    assert(token_end(s, 49) == 50);
    assert(token_end(s, 48) == 50);
    assert(token_end(s, 47) == 50);
    assert(token_end(s, 46) == 50);
    assert(token_end(s, 52) == 52);
    assert(token_end(s, 51) == 52);
    assert(token_end(s, 54) == 54);
    assert(token_end(s, 53) == 54);
    assert(token_end(s, 56) == 56);
    assert(token_end(s, 55) == 56);
    assert(skip_spaces(s, 44) == 44);
    assert(skip_spaces(s, 43) == 44);
    assert(skip_spaces(s, 46) == 46);
    assert(skip_spaces(s, 45) == 46);
    assert(skip_spaces(s, 51) == 51);
    assert(skip_spaces(s, 50) == 51);
    assert(skip_spaces(s, 53) == 53);
    assert(skip_spaces(s, 52) == 53);
    assert(skip_spaces(s, 55) == 55);
    assert(skip_spaces(s, 54) == 55);
    assert(skip_spaces(s, 56) == 56);
    assert(tokens_from(s, 56) == Seq::<Seq<char>>::empty());
    assert(tokens_from(s, 54) =~= seq![s.subrange(55, 56)]);
    assert(tokens_from(s, 52) =~= seq![s.subrange(53, 54), s.subrange(55, 56)]);
    assert(tokens_from(s, 50) =~= seq![s.subrange(51, 52), s.subrange(53, 54), s.subrange(55, 56)]);
    assert(tokens_from(s, 45) =~= seq![s.subrange(46, 50), s.subrange(51, 52), s.subrange(53, 54), s.subrange(55, 56)]);
    assert(tokens_from(s, 43) =~= seq![s.subrange(44, 45), s.subrange(46, 50), s.subrange(51, 52), s.subrange(53, 54), s.subrange(55, 56)]);
    assert(tokens_from(s, 0) =~= seq![
        s.subrange(0, 43),
        s.subrange(44, 45),
        s.subrange(46, 50),
        s.subrange(51, 52),
        s.subrange(53, 54),
        s.subrange(55, 56),
    ]);
}

/// The start position's FEN text reads whole: a full placement, white to
/// move, all four castling rights and no en passant target.
proof fn lemma_start_fields()
    ensures
        fen_accepted(tokens("rnbqkbnr/pppppppp/8/8/8/8/PPPPPPPP/RNBQKBNR w KQkq - 0 1"@)),
        side_field(tokens("rnbqkbnr/pppppppp/8/8/8/8/PPPPPPPP/RNBQKBNR w KQkq - 0 1"@)[1]) == Some(Color::White),
        fen_rights(tokens("rnbqkbnr/pppppppp/8/8/8/8/PPPPPPPP/RNBQKBNR w KQkq - 0 1"@)) == (CastlingRights {
            white_queenside: true,
            white_kingside: true,
            black_queenside: true,
            black_kingside: true,
        }),
        en_passant_field(tokens("rnbqkbnr/pppppppp/8/8/8/8/PPPPPPPP/RNBQKBNR w KQkq - 0 1"@)[3]) == Some(None::<int>),
{
    reveal_strlit("rnbqkbnr/pppppppp/8/8/8/8/PPPPPPPP/RNBQKBNR w KQkq - 0 1");
    lemma_start_tokens();
    let s = "rnbqkbnr/pppppppp/8/8/8/8/PPPPPPPP/RNBQKBNR w KQkq - 0 1"@;
    let t = tokens(s);
    let t0 = t[0];
    assert(t0 =~= s.subrange(0, 43));
    assert(placement_upto(t0, 0).0 == 0 && placement_upto(t0, 0).1 == 0 && placement_upto(t0, 0).3 == 0);
    assert(t0[0] == 'r');
    assert(placement_upto(t0, 1).0 == 0 && placement_upto(t0, 1).1 == 1 && placement_upto(t0, 1).3 == 0);
    assert(t0[1] == 'n');
    assert(placement_upto(t0, 2).0 == 0 && placement_upto(t0, 2).1 == 2 && placement_upto(t0, 2).3 == 0);
    assert(t0[2] == 'b');
    assert(placement_upto(t0, 3).0 == 0 && placement_upto(t0, 3).1 == 3 && placement_upto(t0, 3).3 == 0);
    assert(t0[3] == 'q');
    assert(placement_upto(t0, 4).0 == 0 && placement_upto(t0, 4).1 == 4 && placement_upto(t0, 4).3 == 0);
    assert(t0[4] == 'k');
    assert(placement_upto(t0, 5).0 == 0 && placement_upto(t0, 5).1 == 5 && placement_upto(t0, 5).3 == 0);
    assert(t0[5] == 'b');
    assert(placement_upto(t0, 6).0 == 0 && placement_upto(t0, 6).1 == 6 && placement_upto(t0, 6).3 == 0);
    assert(t0[6] == 'n');
    assert(placement_upto(t0, 7).0 == 0 && placement_upto(t0, 7).1 == 7 && placement_upto(t0, 7).3 == 0);
    assert(t0[7] == 'r');
    assert(placement_upto(t0, 8).0 == 0 && placement_upto(t0, 8).1 == 8 && placement_upto(t0, 8).3 == 0);
    assert(t0[8] == '/');
    assert(placement_upto(t0, 9).0 == 1 && placement_upto(t0, 9).1 == 0 && placement_upto(t0, 9).3 == 0);
    assert(t0[9] == 'p');
    assert(placement_upto(t0, 10).0 == 1 && placement_upto(t0, 10).1 == 1 && placement_upto(t0, 10).3 == 0);
    assert(t0[10] == 'p');
    assert(placement_upto(t0, 11).0 == 1 && placement_upto(t0, 11).1 == 2 && placement_upto(t0, 11).3 == 0);
    assert(t0[11] == 'p');
    assert(placement_upto(t0, 12).0 == 1 && placement_upto(t0, 12).1 == 3 && placement_upto(t0, 12).3 == 0);
    assert(t0[12] == 'p');
    assert(placement_upto(t0, 13).0 == 1 && placement_upto(t0, 13).1 == 4 && placement_upto(t0, 13).3 == 0);
    assert(t0[13] == 'p');
    assert(placement_upto(t0, 14).0 == 1 && placement_upto(t0, 14).1 == 5 && placement_upto(t0, 14).3 == 0);
    assert(t0[14] == 'p');
    assert(placement_upto(t0, 15).0 == 1 && placement_upto(t0, 15).1 == 6 && placement_upto(t0, 15).3 == 0);
    assert(t0[15] == 'p');
    assert(placement_upto(t0, 16).0 == 1 && placement_upto(t0, 16).1 == 7 && placement_upto(t0, 16).3 == 0);
    assert(t0[16] == 'p');
    assert(placement_upto(t0, 17).0 == 1 && placement_upto(t0, 17).1 == 8 && placement_upto(t0, 17).3 == 0);
    assert(t0[17] == '/');
    assert(placement_upto(t0, 18).0 == 2 && placement_upto(t0, 18).1 == 0 && placement_upto(t0, 18).3 == 0);
    assert(t0[18] == '8');
    assert(placement_upto(t0, 19).0 == 2 && placement_upto(t0, 19).1 == 8 && placement_upto(t0, 19).3 == 0);
    assert(t0[19] == '/');
    assert(placement_upto(t0, 20).0 == 3 && placement_upto(t0, 20).1 == 0 && placement_upto(t0, 20).3 == 0);
    assert(t0[20] == '8');
    assert(placement_upto(t0, 21).0 == 3 && placement_upto(t0, 21).1 == 8 && placement_upto(t0, 21).3 == 0);
    assert(t0[21] == '/');
    assert(placement_upto(t0, 22).0 == 4 && placement_upto(t0, 22).1 == 0 && placement_upto(t0, 22).3 == 0);
    assert(t0[22] == '8');
    assert(placement_upto(t0, 23).0 == 4 && placement_upto(t0, 23).1 == 8 && placement_upto(t0, 23).3 == 0);
    assert(t0[23] == '/');
    assert(placement_upto(t0, 24).0 == 5 && placement_upto(t0, 24).1 == 0 && placement_upto(t0, 24).3 == 0);
    assert(t0[24] == '8');
    assert(placement_upto(t0, 25).0 == 5 && placement_upto(t0, 25).1 == 8 && placement_upto(t0, 25).3 == 0);
    assert(t0[25] == '/');
    assert(placement_upto(t0, 26).0 == 6 && placement_upto(t0, 26).1 == 0 && placement_upto(t0, 26).3 == 0);
    assert(t0[26] == 'P');
    assert(placement_upto(t0, 27).0 == 6 && placement_upto(t0, 27).1 == 1 && placement_upto(t0, 27).3 == 0);
    assert(t0[27] == 'P');
    assert(placement_upto(t0, 28).0 == 6 && placement_upto(t0, 28).1 == 2 && placement_upto(t0, 28).3 == 0);
    assert(t0[28] == 'P');
    assert(placement_upto(t0, 29).0 == 6 && placement_upto(t0, 29).1 == 3 && placement_upto(t0, 29).3 == 0);
    assert(t0[29] == 'P');
    assert(placement_upto(t0, 30).0 == 6 && placement_upto(t0, 30).1 == 4 && placement_upto(t0, 30).3 == 0);
    assert(t0[30] == 'P');
    assert(placement_upto(t0, 31).0 == 6 && placement_upto(t0, 31).1 == 5 && placement_upto(t0, 31).3 == 0);
    assert(t0[31] == 'P');
    assert(placement_upto(t0, 32).0 == 6 && placement_upto(t0, 32).1 == 6 && placement_upto(t0, 32).3 == 0);
    assert(t0[32] == 'P');
    assert(placement_upto(t0, 33).0 == 6 && placement_upto(t0, 33).1 == 7 && placement_upto(t0, 33).3 == 0);
    assert(t0[33] == 'P');
    assert(placement_upto(t0, 34).0 == 6 && placement_upto(t0, 34).1 == 8 && placement_upto(t0, 34).3 == 0);
    assert(t0[34] == '/');
    assert(placement_upto(t0, 35).0 == 7 && placement_upto(t0, 35).1 == 0 && placement_upto(t0, 35).3 == 0);
    assert(t0[35] == 'R');
    assert(placement_upto(t0, 36).0 == 7 && placement_upto(t0, 36).1 == 1 && placement_upto(t0, 36).3 == 0);
    assert(t0[36] == 'N');
    assert(placement_upto(t0, 37).0 == 7 && placement_upto(t0, 37).1 == 2 && placement_upto(t0, 37).3 == 0);
    assert(t0[37] == 'B');
    assert(placement_upto(t0, 38).0 == 7 && placement_upto(t0, 38).1 == 3 && placement_upto(t0, 38).3 == 0);
    assert(t0[38] == 'Q');
    assert(placement_upto(t0, 39).0 == 7 && placement_upto(t0, 39).1 == 4 && placement_upto(t0, 39).3 == 0);
    assert(t0[39] == 'K');
    assert(placement_upto(t0, 40).0 == 7 && placement_upto(t0, 40).1 == 5 && placement_upto(t0, 40).3 == 0);
    assert(t0[40] == 'B');
    assert(placement_upto(t0, 41).0 == 7 && placement_upto(t0, 41).1 == 6 && placement_upto(t0, 41).3 == 0);
    assert(t0[41] == 'N');
    assert(placement_upto(t0, 42).0 == 7 && placement_upto(t0, 42).1 == 7 && placement_upto(t0, 42).3 == 0);
    assert(t0[42] == 'R');
    assert(placement_upto(t0, 43).0 == 7 && placement_upto(t0, 43).1 == 8 && placement_upto(t0, 43).3 == 0);
    assert(t[1] =~= seq!['w']);
    assert(t[2] =~= seq!['K', 'Q', 'k', 'q']);
    assert(t[3] =~= seq!['-']);
    assert(t[4] =~= seq!['0']);
    assert(t[5] =~= seq!['1']);
    assert(castling_scan(t[2], 0) == Some((CastlingRights { white_queenside: false, white_kingside: false, black_queenside: false, black_kingside: false }, false)));
    assert(t[2][0] == 'K' && t[2][1] == 'Q' && t[2][2] == 'k' && t[2][3] == 'q');
    assert(castling_scan(t[2], 1) == Some((CastlingRights { white_queenside: false, white_kingside: true, black_queenside: false, black_kingside: false }, false)));
    assert(castling_scan(t[2], 2) == Some((CastlingRights { white_queenside: true, white_kingside: true, black_queenside: false, black_kingside: false }, false)));
    assert(castling_scan(t[2], 3) == Some((CastlingRights { white_queenside: true, white_kingside: true, black_queenside: false, black_kingside: true }, false)));
    assert(castling_scan(t[2], 4) == Some((CastlingRights { white_queenside: true, white_kingside: true, black_queenside: true, black_kingside: true }, false)));
    assert(unsigned_digits(t[4]) == t[4]);
    assert(unsigned_digits(t[5]) == t[5]);
    assert(decimal_value(t[4], 0) == 0);
    assert(decimal_value(t[5], 0) == 0);
    assert(t[4][0] == '0' && t[5][0] == '1');
    assert(decimal_value(t[4], 1) == 0);
    assert(decimal_value(t[5], 1) == 1);
    assert(number_field(t[4]) == Some(0u64));
    assert(number_field(t[5]) == Some(1u64));
}

/// Setting up the start position from any game gives the same board
/// squares, white to move, all four castling rights and no en passant
/// target: after reading the start FEN, two games agree on these whatever
/// each held before.
pub proof fn lemma_start_position_fixed(g1: GameState, h1: GameState, g2: GameState, h2: GameState)
    requires
        fen_applied(g1, h1, tokens("rnbqkbnr/pppppppp/8/8/8/8/PPPPPPPP/RNBQKBNR w KQkq - 0 1"@)),
        fen_applied(g2, h2, tokens("rnbqkbnr/pppppppp/8/8/8/8/PPPPPPPP/RNBQKBNR w KQkq - 0 1"@)),
    ensures
        h1.board_state().board_squares@ == h2.board_state().board_squares@,
        h1.side() == Color::White,
        h2.side() == Color::White,
        h1.board_state().castling_rights == h2.board_state().castling_rights,
        h1.board_state().castling_rights == (CastlingRights {
            white_queenside: true,
            white_kingside: true,
            black_queenside: true,
            black_kingside: true,
        }),
        h1.board_state().en_passant_target is None,
        h2.board_state().en_passant_target is None,
{
    lemma_start_fields();
}

} // verus!
