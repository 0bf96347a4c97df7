//! From brightness to glyphs, along an ordered ramp.

use vstd::prelude::*;
use crate::donut::FULL;
use crate::grid::grid;

verus! {

/// The place on a ramp of `len` glyphs that a brightness maps to: the
/// brightness, as a fraction of the ceiling, times the last index, rounded
/// down.
pub open spec fn glyph_index(level: u8, len: nat) -> int {
    level * (len - 1) / (FULL as int)
}

/// The glyph that stands for a brightness.
pub open spec fn glyph_of(level: u8, ramp: Seq<char>) -> char {
    ramp[glyph_index(level, ramp.len())]
}

/// The glyph field of a brightness field: the same shape, cell by cell the
/// glyph of the cell's brightness.
pub open spec fn glyphs(field: Seq<Seq<u8>>, ramp: Seq<char>) -> Seq<Seq<char>> {
    Seq::new(
        field.len(),
        |i: int| Seq::new(field[i].len(), |j: int| glyph_of(field[i][j], ramp)),
    )
}

/// No cell of the field is brighter than the ceiling.
pub open spec fn within_ceiling(field: Seq<Seq<u8>>) -> bool {
    forall|i: int, j: int|
        0 <= i < field.len() && 0 <= j < field[i].len() ==> (#[trigger] field[i][j]) <= FULL
}

/// On a ramp that is not empty, every brightness up to the ceiling maps to a
/// place on the ramp.
pub proof fn lemma_glyph_index_on_ramp(level: u8, len: nat)
    requires
        len > 0,
        level <= FULL,
    ensures
        0 <= glyph_index(level, len) < len,
{
    assert(0 <= level * (len - 1) <= 10 * (len - 1)) by (nonlinear_arith)
        requires
            0 <= level <= 10,
            len >= 1,
    ;
}

/// Dark maps to the first glyph of the ramp, the ceiling to the last.
pub proof fn lemma_glyph_ends(ramp: Seq<char>)
    requires
        ramp.len() > 0,
    ensures
        glyph_of(0, ramp) == ramp[0],
        glyph_of(FULL, ramp) == ramp[ramp.len() - 1],
{
    assert(0 * (ramp.len() - 1) == 0);
    assert(10 * (ramp.len() - 1) / 10 == ramp.len() - 1);
}

/// On a fixed ramp a brighter cell never maps to an earlier glyph.
pub proof fn lemma_glyph_index_monotonic(darker: u8, brighter: u8, len: nat)
    requires
        len > 0,
        darker <= brighter,
    ensures
        glyph_index(darker, len) <= glyph_index(brighter, len),
{
    assert(darker * (len - 1) <= brighter * (len - 1)) by (nonlinear_arith)
        requires
            darker <= brighter,
            len >= 1,
    ;
    vstd::arithmetic::div_mod::lemma_div_is_ordered(
        darker * (len - 1),
        brighter * (len - 1),
        FULL as int,
    );
}

/// The glyph for one brightness.
pub fn glyph_for(level: u8, ramp: &Vec<char>) -> (c: char)
    requires
        ramp@.len() > 0,
        level <= FULL,
    ensures
        c == glyph_of(level, ramp@),
{
    let last: u128 = (ramp.len() - 1) as u128;
    proof {
        lemma_glyph_index_on_ramp(level, ramp@.len());
        assert(level * last <= 10 * last) by (nonlinear_arith)
            requires
                0 <= level <= 10,
                last >= 0,
        ;
    }
    let index: u128 = (level as u128) * last / (FULL as u128);
    ramp[index as usize]
}

/// Maps a brightness field to glyphs, cell by cell.
pub fn to_glyphs(field: &Vec<Vec<u8>>, ramp: &Vec<char>) -> (out: Vec<Vec<char>>)
    requires
        ramp@.len() > 0,
        within_ceiling(grid(field)),
    ensures
        grid(&out) == glyphs(grid(field), ramp@),
{
    let mut out: Vec<Vec<char>> = Vec::new();
    let mut i: usize = 0;
    while i < field.len()
        invariant
            i <= field@.len(),
            ramp@.len() > 0,
            within_ceiling(grid(field)),
            out@.len() == i,
            forall|k: int| 0 <= k < i ==> (#[trigger] out@[k])@ == glyphs(grid(field), ramp@)[k],
        decreases field@.len() - i,
    {
        let mut row: Vec<char> = Vec::new();
        let mut j: usize = 0;
        while j < field[i].len()
            invariant
                i < field@.len(),
                j <= field@[i as int]@.len(),
                ramp@.len() > 0,
                within_ceiling(grid(field)),
                row@.len() == j,
                forall|k: int|
                    0 <= k < j ==> row@[k] == glyph_of(#[trigger] field@[i as int]@[k], ramp@),
            decreases field@[i as int]@.len() - j,
        {
            assert(grid(field)[i as int][j as int] <= FULL);
            row.push(glyph_for(field[i][j], ramp));
            j += 1;
        }
        assert(row@ =~= glyphs(grid(field), ramp@)[i as int]);
        out.push(row);
        i += 1;
    }
    assert(grid(&out) =~= glyphs(grid(field), ramp@));
    out
}

} // verus!
