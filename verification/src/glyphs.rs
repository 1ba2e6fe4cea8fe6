//! The glyph ramp: the characters drawn into the atlas, ordered from sparse
//! to dense. It opens with blanks (void), then faint specks, thin marks,
//! thin and capital letters (Latin, Cyrillic, Greek), denser letters, CJK
//! from light to heavy, symbols and shapes, block fills, and closes with emoji
//! peaks whose silhouette the shader samples.

use vstd::prelude::*;

verus! {

/// The glyph ramp, sparse to dense.
pub const GLYPH_RAMP: &'static str = "     .·˙⋅'`,‚:;¨˘¯~-_+=≈∼±ilıтийιτtrfjvczxnuoeсєјαβγεηνITYJCLFZVUXАБГДЕИКЛНПРСΓΔΛΠΣΩ17SsaykhdbqpO0QDmwgьыфшщЖФЮЯ一二三十人口日月木水火土山川大中上下東西南北国森雨雪風海龍鬱魔*#MWB8@※★☆◆◇●○■□▲▼░▒▓█🔥✨💫⭐🌊💥";

/// How many glyphs the ramp holds.
pub const GLYPH_COUNT: usize = 171;

/// The ramp holds `GLYPH_COUNT` glyphs.
pub proof fn lemma_glyph_count()
    ensures
        GLYPH_RAMP@.len() == GLYPH_COUNT,
{
    reveal_strlit("     .·˙⋅'`,‚:;¨˘¯~-_+=≈∼±ilıтийιτtrfjvczxnuoeсєјαβγεηνITYJCLFZVUXАБГДЕИКЛНПРСΓΔΛΠΣΩ17SsaykhdbqpO0QDmwgьыфшщЖФЮЯ一二三十人口日月木水火土山川大中上下東西南北国森雨雪風海龍鬱魔*#MWB8@※★☆◆◇●○■□▲▼░▒▓█🔥✨💫⭐🌊💥");
}

/// The glyph ramp, sparse to dense, one entry per atlas cell.
pub fn glyph_ramp() -> (r: Vec<char>)
    ensures
        r@ == GLYPH_RAMP@,
        r@.len() == GLYPH_COUNT,
{
    proof {
        lemma_glyph_count();
    }
    let mut r: Vec<char> = Vec::new();
    let mut i: usize = 0;
    while i < GLYPH_COUNT
        invariant
            i <= GLYPH_COUNT,
            GLYPH_RAMP@.len() == GLYPH_COUNT,
            r@ == GLYPH_RAMP@.take(i as int),
        decreases GLYPH_COUNT - i,
    {
        r.push(GLYPH_RAMP.get_char(i));
        assert(GLYPH_RAMP@.take(i + 1) =~= GLYPH_RAMP@.take(i as int).push(GLYPH_RAMP@[i as int]));
        i = i + 1;
    }
    assert(GLYPH_RAMP@.take(GLYPH_COUNT as int) =~= GLYPH_RAMP@);
    r
}

} // verus!
