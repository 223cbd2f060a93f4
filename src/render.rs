//! A human-readable dump of the accumulated knowledge.

use vstd::prelude::*;
use crate::cells::{CellState, LetterState};
use crate::knowledge::Knowledge;

verus! {

/// The symbol of a cell in a dump: ruled out `0`, confirmed `1`, unknown `2`.
pub open spec fn cell_symbol(c: CellState) -> char {
    match c {
        CellState::Absent => '0',
        CellState::Confirmed => '1',
        CellState::Possible => '2',
    }
}

/// A row of cells, one symbol each.
pub open spec fn cells_text(cells: Seq<CellState>) -> Seq<char> {
    cells.map_values(|c: CellState| cell_symbol(c))
}

/// The fixed letters, `*` where a position is still unknown.
pub open spec fn fixed_text(fixed: Seq<Option<char>>) -> Seq<char> {
    fixed.map_values(
        |o: Option<char>|
            match o {
                Some(c) => c,
                None => '*',
            },
    )
}

/// `,c` for each of the first `m` letters of `order` that is absent.
pub open spec fn absent_text(k: Knowledge, order: Seq<char>, m: nat) -> Seq<char>
    decreases m,
{
    if m == 0 {
        Seq::empty()
    } else {
        let prev = absent_text(k, order, (m - 1) as nat);
        let c = order[m - 1];
        match k.letters[c] {
            LetterState::Absent => prev + ","@ + seq![c],
            LetterState::Present(_) => prev,
        }
    }
}

/// A line `c->cells` for each of the first `m` letters of `order` that is
/// present.
pub open spec fn present_text(k: Knowledge, order: Seq<char>, m: nat) -> Seq<char>
    decreases m,
{
    if m == 0 {
        Seq::empty()
    } else {
        let prev = present_text(k, order, (m - 1) as nat);
        let c = order[m - 1];
        match k.letters[c] {
            LetterState::Absent => prev,
            LetterState::Present(cells) => prev + "\n"@ + seq![c] + "->"@ + cells_text(cells),
        }
    }
}

/// The dump of `k`, with its letters listed in the order `order`.
pub open spec fn debug_text(k: Knowledge, order: Seq<char>) -> Seq<char> {
    "Necessary letters: "@ + fixed_text(k.fixed) + "\nAdditional Info:Absentees"@ + absent_text(
        k,
        order,
        order.len(),
    ) + "\n"@ + present_text(k, order, order.len())
}

/// Relies on `String::push`: the character is appended.
#[verifier::external_body]
pub(crate) fn push_char(s: &mut String, c: char)
    ensures
        final(s)@ == old(s)@.push(c),
{
    s.push(c);
}

/// A row of cells as text, one symbol per cell.
pub fn show_vec_present_types(v: &Vec<CellState>) -> (r: String)
    ensures
        r@ == cells_text(v@),
{
    let mut r = String::new();
    let mut i: usize = 0;
    while i < v.len()
        invariant
            i <= v@.len(),
            r@ == cells_text(v@.subrange(0, i as int)),
        decreases v@.len() - i,
    {
        let symbol = match v[i] {
            CellState::Absent => '0',
            CellState::Confirmed => '1',
            CellState::Possible => '2',
        };
        push_char(&mut r, symbol);
        i = i + 1;
        assert(r@ =~= cells_text(v@.subrange(0, i as int)));
    }
    assert(v@.subrange(0, v@.len() as int) =~= v@);
    r
}

} // verus!
