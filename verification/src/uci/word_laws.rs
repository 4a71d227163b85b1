//! Laws tying the words and letters of UCI text to what they name: the bound
//! words after a score and the promotion letter after a move.
use vstd::prelude::*;

use super::de_response::read_bound;
use super::grammar::read_move;
use super::readback::lemma_word_text;
use super::ser::{move_text, score_text};
use super::{Score, ScoreBound};
use crate::text::{has_word, lemma_words_clash};
use crate::{Move, Promotion};

verus! {

/// The bound a score carries.
pub open spec fn bound_of(sc: Score) -> ScoreBound {
    match sc {
        Score::Centipawns { bound, .. } => bound,
        Score::Mate { bound, .. } => bound,
    }
}

/// The word after a score names its bound: ` lowerbound` at `pos` reads as a
/// lower bound and ` upperbound` as an upper bound, whatever follows them.
pub proof fn lemma_bound_words_read(s: Seq<char>, pos: int)
    requires
        0 <= pos,
    ensures
        has_word(s, pos, " lowerbound"@) ==> read_bound(s, pos) == (
            pos + 11,
            ScoreBound::LowerBound,
        ),
        has_word(s, pos, " upperbound"@) ==> read_bound(s, pos) == (
            pos + 11,
            ScoreBound::UpperBound,
        ),
{
    reveal_strlit(" lowerbound");
    reveal_strlit("lowerbound");
    reveal_strlit(" upperbound");
    reveal_strlit("upperbound");
    if has_word(s, pos, " lowerbound"@) {
        assert(" lowerbound"@ =~= seq![' '] + "lowerbound"@);
        lemma_word_text(s, pos, "lowerbound"@);
    }
    if has_word(s, pos, " upperbound"@) {
        assert(" upperbound"@ =~= seq![' '] + "upperbound"@);
        lemma_word_text(s, pos, "upperbound"@);
        lemma_words_clash(s, pos + 1, "upperbound"@, "lowerbound"@, 0);
    }
}

/// The text of a score with a lower bound ends in ` lowerbound`, and that of
/// a score with an upper bound in ` upperbound`.
pub proof fn lemma_bound_words_written(sc: Score)
    ensures
        bound_of(sc) == ScoreBound::LowerBound ==> {
            let t = score_text(sc);
            t.len() >= 11 && t.subrange(t.len() - 11, t.len() as int) == " lowerbound"@
        },
        bound_of(sc) == ScoreBound::UpperBound ==> {
            let t = score_text(sc);
            t.len() >= 11 && t.subrange(t.len() - 11, t.len() as int) == " upperbound"@
        },
{
    reveal_strlit(" lowerbound");
    reveal_strlit(" upperbound");
    let t = score_text(sc);
    if bound_of(sc) == ScoreBound::LowerBound {
        assert(t.subrange(t.len() - 11, t.len() as int) =~= " lowerbound"@);
    }
    if bound_of(sc) == ScoreBound::UpperBound {
        assert(t.subrange(t.len() - 11, t.len() as int) =~= " upperbound"@);
    }
}

/// A move is written as its two squares, then the letter of its promotion:
/// `q` for a queen, `r` for a rook, `b` for a bishop, `n` for a knight.
pub proof fn lemma_promotion_letters_written(m: Move)
    ensures
        move_text(m).len() == if m.promotion is Some {
            5int
        } else {
            4int
        },
        m.promotion == Some(Promotion::Queen) ==> move_text(m)[4] == 'q',
        m.promotion == Some(Promotion::Rook) ==> move_text(m)[4] == 'r',
        m.promotion == Some(Promotion::Bishop) ==> move_text(m)[4] == 'b',
        m.promotion == Some(Promotion::Knight) ==> move_text(m)[4] == 'n',
{
}

/// The letter after the two squares of a move names its promotion: `q` a
/// queen, `r` a rook, `b` a bishop, `n` a knight; a move read with a
/// promotion was written with that letter.
pub proof fn lemma_promotion_letters_read(s: Seq<char>, pos: int)
    ensures
        read_move(s, pos) matches Some((q, m)) ==> {
            &&& (pos + 4 < s.len() && s[pos + 4] == 'q') ==> m.promotion == Some(Promotion::Queen)
                && q == pos + 5
            &&& (pos + 4 < s.len() && s[pos + 4] == 'r') ==> m.promotion == Some(Promotion::Rook)
                && q == pos + 5
            &&& (pos + 4 < s.len() && s[pos + 4] == 'b') ==> m.promotion == Some(
                Promotion::Bishop,
            ) && q == pos + 5
            &&& (pos + 4 < s.len() && s[pos + 4] == 'n') ==> m.promotion == Some(
                Promotion::Knight,
            ) && q == pos + 5
            &&& m.promotion == Some(Promotion::Queen) ==> s[pos + 4] == 'q'
            &&& m.promotion == Some(Promotion::Rook) ==> s[pos + 4] == 'r'
            &&& m.promotion == Some(Promotion::Bishop) ==> s[pos + 4] == 'b'
            &&& m.promotion == Some(Promotion::Knight) ==> s[pos + 4] == 'n'
        },
{
}

} // verus!
