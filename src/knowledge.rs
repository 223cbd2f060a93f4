//! The mathematical model of the accumulated knowledge, and what feedback and
//! checks do to it.

use vstd::prelude::*;
use crate::cells::{CellState, FeedbackKind, LetterState, cells_with, mark_of, rule_out_possible};
use crate::outcome::{CheckFailure, Violation};

verus! {

/// Everything learned so far in one game.
pub struct Knowledge {
    /// The number of letters in the solution.
    pub word_length: nat,
    /// The letter known at each position, if any.
    pub fixed: Seq<Option<char>>,
    /// The record of each letter seen in a guess.
    pub letters: Map<char, LetterState>,
}

impl Knowledge {
    /// The shape that every reachable state has: one fixed slot per position and
    /// one cell per position in each record of a present letter.
    pub open spec fn valid(self) -> bool {
        &&& self.fixed.len() == self.word_length
        &&& forall|c: char|
            #![trigger self.letters[c]]
            self.letters.contains_key(c) ==> match self.letters[c] {
                LetterState::Absent => true,
                LetterState::Present(cells) => cells.len() == self.word_length,
            }
    }

    /// The state before any feedback.
    pub open spec fn initial(n: nat) -> Knowledge {
        Knowledge {
            word_length: n,
            fixed: Seq::new(n, |i: int| None),
            letters: Map::empty(),
        }
    }

    /// Some letter has a record.
    pub open spec fn has_information(self) -> bool {
        exists|c: char| self.letters.contains_key(c)
    }

    /// The record of `c`, if it has one.
    pub open spec fn record(self, c: char) -> Option<LetterState> {
        if self.letters.contains_key(c) {
            Some(self.letters[c])
        } else {
            None
        }
    }

    /// The state after the feedback `f` for the guess `g`.
    pub open spec fn updated(self, g: Seq<char>, f: Seq<FeedbackKind>) -> Knowledge {
        Knowledge {
            word_length: self.word_length,
            fixed: fixed_after(self.fixed, g, f),
            letters: exclude_hits(absorb(self.letters, g, f, self.word_length, g.len()), g, f),
        }
    }

    /// What a check of the candidate `cand` reports.
    pub open spec fn check_outcome(self, cand: Seq<char>) -> Result<(), CheckFailure> {
        if !self.has_information() {
            Err(CheckFailure::NoInformationYet)
        } else if cand.len() != self.word_length {
            Err(CheckFailure::LengthMismatch(self.word_length))
        } else {
            let vs = self.violations(cand);
            if vs.len() == 0 {
                Ok(())
            } else {
                Err(CheckFailure::Violations(vs))
            }
        }
    }

    /// The violations of a candidate of the right length: the fixed positions
    /// first, then the letters, each in position order.
    pub open spec fn violations(self, cand: Seq<char>) -> Seq<Violation> {
        fixed_violations(self.fixed, cand, cand.len()) + letter_violations(self.letters, cand, cand.len())
    }
}

/// The new record of a letter whose record was `rec`, after the symbol `s` for
/// it at position `p`.
pub open spec fn merge_feedback(rec: Option<LetterState>, s: FeedbackKind, p: int, n: nat) -> LetterState {
    match rec {
        None => if s == FeedbackKind::Miss {
            LetterState::Absent
        } else {
            LetterState::Present(cells_with(n, p, CellState::Possible, mark_of(s)))
        },
        Some(LetterState::Absent) => if s == FeedbackKind::Miss {
            LetterState::Absent
        } else {
            LetterState::Present(cells_with(n, p, CellState::Absent, mark_of(s)))
        },
        Some(LetterState::Present(cells)) => if s == FeedbackKind::Miss {
            LetterState::Present(rule_out_possible(cells))
        } else {
            LetterState::Present(cells.update(p, mark_of(s)))
        },
    }
}

/// The records after the first `k` symbols of a round, taken in order.
pub open spec fn absorb(
    letters: Map<char, LetterState>,
    g: Seq<char>,
    f: Seq<FeedbackKind>,
    n: nat,
    k: nat,
) -> Map<char, LetterState>
    decreases k,
{
    if k == 0 {
        letters
    } else {
        let prev = absorb(letters, g, f, n, (k - 1) as nat);
        let c = g[k - 1];
        let rec = if prev.contains_key(c) { Some(prev[c]) } else { None };
        prev.insert(c, merge_feedback(rec, f[k - 1], k - 1, n))
    }
}

/// Position `q` was hit, by a letter other than `c`.
pub open spec fn hit_by_other(g: Seq<char>, f: Seq<FeedbackKind>, c: char, q: int) -> bool {
    0 <= q < g.len() && f[q] == FeedbackKind::Hit && g[q] != c
}

/// Mutual exclusion: in the record of each present letter, every position that
/// another letter hit is ruled out.
pub open spec fn exclude_hits(
    letters: Map<char, LetterState>,
    g: Seq<char>,
    f: Seq<FeedbackKind>,
) -> Map<char, LetterState> {
    Map::new(
        |c: char| letters.contains_key(c),
        |c: char|
            match letters[c] {
                LetterState::Absent => LetterState::Absent,
                LetterState::Present(cells) => LetterState::Present(
                    Seq::new(
                        cells.len(),
                        |q: int| if hit_by_other(g, f, c, q) { CellState::Absent } else { cells[q] },
                    ),
                ),
            },
    )
}

/// The fixed letters after a round: each hit fixes its position.
pub open spec fn fixed_after(fixed: Seq<Option<char>>, g: Seq<char>, f: Seq<FeedbackKind>) -> Seq<
    Option<char>,
> {
    Seq::new(
        fixed.len(),
        |q: int|
            if q < g.len() && f[q] == FeedbackKind::Hit {
                Some(g[q])
            } else {
                fixed[q]
            },
    )
}

/// The candidate breaks the fixed letter at position `p`.
pub open spec fn fixed_broken(fixed: Seq<Option<char>>, cand: Seq<char>, p: int) -> bool {
    match fixed[p] {
        Some(x) => x != cand[p],
        None => false,
    }
}

/// The violations of the fixed letters among the first `k` positions.
pub open spec fn fixed_violations(fixed: Seq<Option<char>>, cand: Seq<char>, k: nat) -> Seq<Violation>
    decreases k,
{
    if k == 0 {
        Seq::empty()
    } else {
        let prev = fixed_violations(fixed, cand, (k - 1) as nat);
        let p = k - 1;
        match fixed[p] {
            Some(x) => if x != cand[p] {
                prev.push(Violation::FixedMismatch { position: p as usize, expected: x, found: cand[p] })
            } else {
                prev
            },
            None => prev,
        }
    }
}

/// The violation, if any, of the letter records by the letter at position `p`.
pub open spec fn letter_broken(letters: Map<char, LetterState>, cand: Seq<char>, p: int) -> Option<
    Violation,
> {
    let c = cand[p];
    if !letters.contains_key(c) {
        None
    } else {
        match letters[c] {
            LetterState::Absent => Some(Violation::MustBeAbsent { position: p as usize, letter: c }),
            LetterState::Present(cells) => if cells[p] == CellState::Absent {
                Some(Violation::RuledOut { position: p as usize, letter: c })
            } else {
                None
            },
        }
    }
}

/// The violations of the letter records among the first `k` positions.
pub open spec fn letter_violations(letters: Map<char, LetterState>, cand: Seq<char>, k: nat) -> Seq<
    Violation,
>
    decreases k,
{
    if k == 0 {
        Seq::empty()
    } else {
        let prev = letter_violations(letters, cand, (k - 1) as nat);
        match letter_broken(letters, cand, k - 1) {
            Some(v) => prev.push(v),
            None => prev,
        }
    }
}

} // verus!
