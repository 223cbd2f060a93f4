//! What is known of one letter, position by position, and the feedback symbols.

use vstd::prelude::*;
use vstd::string::*;
use crate::knowledge::merge_feedback;

verus! {

/// What is known of one letter at one position.
#[derive(Clone, Copy, Debug, PartialEq, Eq, Structural)]
pub enum CellState {
    /// The letter is known not to stand here.
    Absent,
    /// Nothing is known yet.
    Possible,
    /// The letter is known to stand here (it may stand elsewhere too).
    Confirmed,
}

/// The puzzle's answer for one letter of a guess.
#[derive(Clone, Copy, Debug, PartialEq, Eq, Structural)]
pub enum FeedbackKind {
    /// Not in the word (or no further copy of it).
    Miss,
    /// In the word, but at another position.
    Present,
    /// In the word, at this position.
    Hit,
}

/// The record kept for a letter that has been seen in a guess.
#[derive(Debug, PartialEq, Eq)]
pub enum LetterInfo {
    /// The letter occurs nowhere in the solution.
    Absent,
    /// The letter occurs; one cell per position.
    Present(Vec<CellState>),
}

/// The mathematical value of a [`LetterInfo`].
pub enum LetterState {
    Absent,
    Present(Seq<CellState>),
}

impl View for LetterInfo {
    type V = LetterState;

    open spec fn view(&self) -> LetterState {
        match self {
            LetterInfo::Absent => LetterState::Absent,
            LetterInfo::Present(v) => LetterState::Present(v@),
        }
    }
}

/// The symbol that a feedback character stands for: `y` a hit, `m` present
/// elsewhere, anything else a miss.
pub open spec fn feedback_of(c: char) -> FeedbackKind {
    if c == 'y' {
        FeedbackKind::Hit
    } else if c == 'm' {
        FeedbackKind::Present
    } else {
        FeedbackKind::Miss
    }
}

/// The cell state that a feedback symbol sets at the guessed position.
pub open spec fn mark_of(s: FeedbackKind) -> CellState {
    if s == FeedbackKind::Hit {
        CellState::Confirmed
    } else {
        CellState::Absent
    }
}

/// `n` cells, all `fill` but the one at `p`, which is `mark`.
pub open spec fn cells_with(n: nat, p: int, fill: CellState, mark: CellState) -> Seq<CellState> {
    Seq::new(n, |i: int| if i == p { mark } else { fill })
}

/// Every cell that is still `Possible` becomes `Absent`.
pub open spec fn rule_out_possible(cells: Seq<CellState>) -> Seq<CellState> {
    cells.map_values(|c: CellState| if c == CellState::Possible { CellState::Absent } else { c })
}

/// A fresh cell vector: all `Possible` but position `p`, which holds what the
/// feedback `s` says of it.
pub fn generate_new_vec(n: usize, p: usize, result: &FeedbackKind) -> (r: Vec<CellState>)
    requires
        p < n,
    ensures
        r@ == cells_with(n as nat, p as int, CellState::Possible, mark_of(*result)),
{
    let mark = match result {
        FeedbackKind::Hit => CellState::Confirmed,
        _ => CellState::Absent,
    };
    let mut r: Vec<CellState> = Vec::new();
    let mut i: usize = 0;
    while i < n
        invariant
            i <= n,
            r@ == cells_with(i as nat, p as int, CellState::Possible, mark),
        decreases n - i,
    {
        if i == p {
            r.push(mark);
        } else {
            r.push(CellState::Possible);
        }
        i = i + 1;
        assert(r@ =~= cells_with(i as nat, p as int, CellState::Possible, mark));
    }
    r
}

/// Reads a feedback string, one symbol per character.
pub fn word_to_result(word: &str) -> (r: Vec<FeedbackKind>)
    ensures
        r@ == word@.map_values(|c: char| feedback_of(c)),
{
    let n = word.unicode_len();
    let mut r: Vec<FeedbackKind> = Vec::new();
    let mut i: usize = 0;
    while i < n
        invariant
            i <= n,
            n == word@.len(),
            r@ == word@.subrange(0, i as int).map_values(|c: char| feedback_of(c)),
        decreases n - i,
    {
        let c = word.get_char(i);
        let s = if c == 'y' {
            FeedbackKind::Hit
        } else if c == 'm' {
            FeedbackKind::Present
        } else {
            FeedbackKind::Miss
        };
        r.push(s);
        i = i + 1;
        assert(r@ =~= word@.subrange(0, i as int).map_values(|c: char| feedback_of(c)));
    }
    assert(word@.subrange(0, n as int) =~= word@);
    r
}

/// A copy of `v` in which every `Possible` cell is `Absent`.
pub(crate) fn ruled_out_vec(v: &Vec<CellState>) -> (r: Vec<CellState>)
    ensures
        r@ == rule_out_possible(v@),
{
    let mut r: Vec<CellState> = Vec::new();
    let mut i: usize = 0;
    while i < v.len()
        invariant
            i <= v@.len(),
            r@ == rule_out_possible(v@.subrange(0, i as int)),
        decreases v@.len() - i,
    {
        let c = v[i];
        if c == CellState::Possible {
            r.push(CellState::Absent);
        } else {
            r.push(c);
        }
        i = i + 1;
        assert(r@ =~= rule_out_possible(v@.subrange(0, i as int)));
    }
    assert(v@.subrange(0, v@.len() as int) =~= v@);
    r
}

/// A copy of `v` with `x` at position `p`.
pub(crate) fn with_cell(v: &Vec<CellState>, p: usize, x: CellState) -> (r: Vec<CellState>)
    requires
        p < v@.len(),
    ensures
        r@ == v@.update(p as int, x),
{
    let mut r: Vec<CellState> = Vec::new();
    let mut i: usize = 0;
    while i < v.len()
        invariant
            i <= v@.len(),
            p < v@.len(),
            r@ == v@.update(p as int, x).subrange(0, i as int),
        decreases v@.len() - i,
    {
        if i == p {
            r.push(x);
        } else {
            r.push(v[i]);
        }
        i = i + 1;
        assert(r@ =~= v@.update(p as int, x).subrange(0, i as int));
    }
    assert(v@.update(p as int, x).subrange(0, v@.len() as int) =~= v@.update(p as int, x));
    r
}

/// `n` cells, all `Absent` but position `p`, which holds `mark`.
fn lone_vec(n: usize, p: usize, mark: CellState) -> (r: Vec<CellState>)
    requires
        p < n,
    ensures
        r@ == cells_with(n as nat, p as int, CellState::Absent, mark),
{
    let mut r: Vec<CellState> = Vec::new();
    let mut i: usize = 0;
    while i < n
        invariant
            i <= n,
            r@ == cells_with(i as nat, p as int, CellState::Absent, mark),
        decreases n - i,
    {
        if i == p {
            r.push(mark);
        } else {
            r.push(CellState::Absent);
        }
        i = i + 1;
        assert(r@ =~= cells_with(i as nat, p as int, CellState::Absent, mark));
    }
    r
}

/// The mathematical value of an optional record.
pub open spec fn record_view(rec: Option<&LetterInfo>) -> Option<LetterState> {
    match rec {
        Some(info) => Some(info@),
        None => None,
    }
}

/// The record of a letter after the symbol `s` for it at position `p`, given
/// its record `rec` before (`None` if the letter had none).
pub(crate) fn merged_record(rec: Option<&LetterInfo>, s: FeedbackKind, p: usize, n: usize) -> (r: LetterInfo)
    requires
        p < n,
        rec matches Some(LetterInfo::Present(v)) ==> v@.len() == n,
    ensures
        r@ == merge_feedback(record_view(rec), s, p as int, n as nat),
        r matches LetterInfo::Present(v) ==> v@.len() == n,
{
    match rec {
        None => match s {
            FeedbackKind::Miss => LetterInfo::Absent,
            _ => LetterInfo::Present(generate_new_vec(n, p, &s)),
        },
        Some(LetterInfo::Absent) => match s {
            FeedbackKind::Miss => LetterInfo::Absent,
            FeedbackKind::Present => LetterInfo::Present(lone_vec(n, p, CellState::Absent)),
            FeedbackKind::Hit => LetterInfo::Present(lone_vec(n, p, CellState::Confirmed)),
        },
        Some(LetterInfo::Present(v)) => match s {
            FeedbackKind::Miss => LetterInfo::Present(ruled_out_vec(v)),
            FeedbackKind::Present => LetterInfo::Present(with_cell(v, p, CellState::Absent)),
            FeedbackKind::Hit => LetterInfo::Present(with_cell(v, p, CellState::Confirmed)),
        },
    }
}

} // verus!
