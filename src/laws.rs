//! Properties of the knowledge model that hold across calls.

use vstd::prelude::*;
use crate::cells::{CellState, FeedbackKind, LetterState, rule_out_possible};
use crate::knowledge::{
    Knowledge, absorb, fixed_broken, fixed_violations, hit_by_other, letter_broken,
    letter_violations, merge_feedback,
};
use crate::outcome::{CheckFailure, Violation};

verus! {

/// Every present record in `letters` has `n` cells.
pub open spec fn cells_sized(letters: Map<char, LetterState>, n: nat) -> bool {
    forall|c: char|
        #![trigger letters[c]]
        letters.contains_key(c) ==> match letters[c] {
            LetterState::Absent => true,
            LetterState::Present(cells) => cells.len() == n,
        }
}

proof fn lemma_absorb_sized(m: Map<char, LetterState>, g: Seq<char>, f: Seq<FeedbackKind>, n: nat, i: nat)
    requires
        cells_sized(m, n),
        i <= g.len() == f.len() == n,
    ensures
        cells_sized(absorb(m, g, f, n, i), n),
    decreases i,
{
    if i > 0 {
        lemma_absorb_sized(m, g, f, n, (i - 1) as nat);
    }
}

/// After a round with a hit of letter `g[p]` at position `p`, that position
/// holds `g[p]`, and every other present letter is ruled out there.
pub proof fn lemma_hit_excludes_other_letters(
    k: Knowledge,
    g: Seq<char>,
    f: Seq<FeedbackKind>,
    p: int,
    other: char,
)
    requires
        k.valid(),
        g.len() == k.word_length,
        f.len() == k.word_length,
        0 <= p < g.len(),
        f[p] == FeedbackKind::Hit,
        other != g[p],
    ensures
        k.updated(g, f).fixed[p] == Some(g[p]),
        k.updated(g, f).letters.contains_key(other) ==> (k.updated(g, f).letters[other] matches LetterState::Present(
            cells,
        ) ==> cells[p] == CellState::Absent),
{
    let n = k.word_length;
    let m = absorb(k.letters, g, f, n, g.len());
    lemma_absorb_sized(k.letters, g, f, n, g.len());
    if m.contains_key(other) {
        assert(hit_by_other(g, f, other, p));
    }
}

/// Nothing in the feedback `f` for the guess `g` contradicts a cell that is
/// already confirmed or ruled out: no `Present` where that letter is
/// confirmed, no `Hit` where that letter is ruled out, and no `Hit` where
/// another letter is confirmed.
pub open spec fn agrees_with(k: Knowledge, g: Seq<char>, f: Seq<FeedbackKind>) -> bool {
    forall|q: int|
        #![trigger f[q]]
        0 <= q < g.len() ==> {
            &&& (f[q] == FeedbackKind::Present && k.letters.contains_key(g[q])) ==> (
            k.letters[g[q]] matches LetterState::Present(cells) ==> cells[q] != CellState::Confirmed)
            &&& (f[q] == FeedbackKind::Hit && k.letters.contains_key(g[q])) ==> (
            k.letters[g[q]] matches LetterState::Present(cells) ==> cells[q] != CellState::Absent)
            &&& f[q] == FeedbackKind::Hit ==> forall|c: char|
                #![trigger k.letters[c]]
                c != g[q] && k.letters.contains_key(c) ==> (k.letters[c] matches LetterState::Present(
                    cells,
                ) ==> cells[q] != CellState::Confirmed)
        }
}

/// `after` keeps every ruled-out and every confirmed cell of `before`.
pub open spec fn narrows(before: Seq<CellState>, after: Seq<CellState>) -> bool {
    &&& after.len() == before.len()
    &&& forall|q: int|
        0 <= q < before.len() ==> (#[trigger] before[q] == CellState::Absent ==> after[q]
            == CellState::Absent) && (before[q] == CellState::Confirmed ==> after[q]
            == CellState::Confirmed)
}

proof fn lemma_absorb_narrows(
    k: Knowledge,
    g: Seq<char>,
    f: Seq<FeedbackKind>,
    i: nat,
    c: char,
)
    requires
        k.valid(),
        g.len() == f.len() == k.word_length,
        i <= g.len(),
        agrees_with(k, g, f),
        k.letters.contains_key(c),
        k.letters[c] is Present,
    ensures
        absorb(k.letters, g, f, k.word_length, i).contains_key(c),
        absorb(k.letters, g, f, k.word_length, i)[c] matches LetterState::Present(cells) && narrows(
            k.letters[c]->Present_0,
            cells,
        ),
    decreases i,
{
    let n = k.word_length;
    if i > 0 {
        lemma_absorb_narrows(k, g, f, (i - 1) as nat, c);
        let prev = absorb(k.letters, g, f, n, (i - 1) as nat);
        let r = i - 1;
        if g[r] == c {
            let s = f[r];
            let before = prev[c]->Present_0;
            let after = absorb(k.letters, g, f, n, i)[c]->Present_0;
            assert(after == merge_feedback(Some(prev[c]), s, r, n)->Present_0);
            if s == FeedbackKind::Miss {
                assert(after == rule_out_possible(before));
            } else {
                assert(after == before.update(r, if s == FeedbackKind::Hit {
                    CellState::Confirmed
                } else {
                    CellState::Absent
                }));
            }
        }
    }
}

/// Feedback that agrees with what is known never brings a ruled-out cell back,
/// nor rules out a confirmed one: each present record stays present and keeps
/// its `Absent` and `Confirmed` cells.
pub proof fn lemma_update_narrows(k: Knowledge, g: Seq<char>, f: Seq<FeedbackKind>, c: char)
    requires
        k.valid(),
        g.len() == k.word_length,
        f.len() == k.word_length,
        agrees_with(k, g, f),
        k.letters.contains_key(c),
        k.letters[c] is Present,
    ensures
        k.updated(g, f).letters.contains_key(c),
        k.updated(g, f).letters[c] matches LetterState::Present(cells) && narrows(
            k.letters[c]->Present_0,
            cells,
        ),
{
    let n = k.word_length;
    lemma_absorb_narrows(k, g, f, g.len(), c);
    let m = absorb(k.letters, g, f, n, g.len());
    let cells0 = k.letters[c]->Present_0;
    let mid = m[c]->Present_0;
    let after = k.updated(g, f).letters[c]->Present_0;
    assert forall|q: int| 0 <= q < cells0.len() implies (#[trigger] cells0[q] == CellState::Absent
        ==> after[q] == CellState::Absent) && (cells0[q] == CellState::Confirmed ==> after[q]
        == CellState::Confirmed) by {
        if cells0[q] == CellState::Confirmed && hit_by_other(g, f, c, q) {
            assert(agrees_with(k, g, f) && 0 <= q < g.len() && f[q] == FeedbackKind::Hit);
        }
    }
}

/// Every occurrence of `c` in the guess `g` got a miss.
pub open spec fn misses_only(g: Seq<char>, f: Seq<FeedbackKind>, c: char) -> bool {
    forall|q: int| 0 <= q < g.len() && #[trigger] g[q] == c ==> f[q] == FeedbackKind::Miss
}

/// What a miss makes of a record.
spec fn after_miss(rec: Option<LetterState>) -> LetterState {
    match rec {
        Some(LetterState::Present(cells)) => LetterState::Present(rule_out_possible(cells)),
        _ => LetterState::Absent,
    }
}

proof fn lemma_absorb_misses(
    m: Map<char, LetterState>,
    g: Seq<char>,
    f: Seq<FeedbackKind>,
    n: nat,
    i: nat,
    c: char,
)
    requires
        i <= g.len() == f.len(),
        misses_only(g, f, c),
    ensures
        (exists|q: int| 0 <= q < i && #[trigger] g[q] == c) ==> absorb(m, g, f, n, i).contains_key(c)
            && absorb(m, g, f, n, i)[c] == after_miss(
            if m.contains_key(c) {
                Some(m[c])
            } else {
                None
            },
        ),
        (forall|q: int| 0 <= q < i ==> #[trigger] g[q] != c) ==> absorb(m, g, f, n, i).contains_key(c)
            == m.contains_key(c) && (m.contains_key(c) ==> absorb(m, g, f, n, i)[c] == m[c]),
    decreases i,
{
    if i > 0 {
        lemma_absorb_misses(m, g, f, n, (i - 1) as nat, c);
        let r = i - 1;
        if g[r] == c {
            let prev = absorb(m, g, f, n, (i - 1) as nat);
            if exists|q: int| 0 <= q < r && #[trigger] g[q] == c {
                match prev[c] {
                    LetterState::Present(cells) => {
                        assert(rule_out_possible(cells) =~= cells);
                    },
                    LetterState::Absent => {},
                }
            } else {
                assert forall|q: int| 0 <= q < r implies #[trigger] g[q] != c by {}
            }
            assert(f[r] == FeedbackKind::Miss);
        } else {
            if exists|q: int| 0 <= q < i && #[trigger] g[q] == c {
                let q = choose|q: int| 0 <= q < i && #[trigger] g[q] == c;
                assert(q < r);
            }
            if forall|q: int| 0 <= q < i ==> #[trigger] g[q] != c {
                assert forall|q: int| 0 <= q < r implies #[trigger] g[q] != c by {}
            }
        }
    }
}

/// A letter that got only misses in a round is left as it was when the same
/// guess and feedback come a second time.
pub proof fn lemma_repeated_miss_changes_nothing(
    k: Knowledge,
    g: Seq<char>,
    f: Seq<FeedbackKind>,
    c: char,
)
    requires
        k.valid(),
        g.len() == k.word_length,
        f.len() == k.word_length,
        misses_only(g, f, c),
        exists|q: int| 0 <= q < g.len() && #[trigger] g[q] == c,
    ensures
        k.updated(g, f).updated(g, f).record(c) == k.updated(g, f).record(c),
{
    let n = k.word_length;
    let k1 = k.updated(g, f);
    let k2 = k1.updated(g, f);
    lemma_absorb_misses(k.letters, g, f, n, g.len(), c);
    lemma_absorb_misses(k1.letters, g, f, n, g.len(), c);
    match after_miss(k.record(c)) {
        LetterState::Absent => {},
        LetterState::Present(cells) => {
            let a = k1.letters[c]->Present_0;
            let b = k2.letters[c]->Present_0;
            assert(a =~= b);
        },
    }
}

/// The violation reported when the candidate breaks the fixed letter at `p`.
pub open spec fn fixed_violation_at(fixed: Seq<Option<char>>, cand: Seq<char>, p: int) -> Violation {
    Violation::FixedMismatch { position: p as usize, expected: fixed[p]->Some_0, found: cand[p] }
}

/// How many of the first `m` positions break their fixed letter.
pub open spec fn fixed_count(fixed: Seq<Option<char>>, cand: Seq<char>, m: nat) -> nat
    decreases m,
{
    if m == 0 {
        0
    } else {
        fixed_count(fixed, cand, (m - 1) as nat) + if fixed_broken(fixed, cand, m - 1) {
            1nat
        } else {
            0nat
        }
    }
}

/// How many of the first `m` positions hold a letter that is absent, or ruled
/// out there.
pub open spec fn letter_count(letters: Map<char, LetterState>, cand: Seq<char>, m: nat) -> nat
    decreases m,
{
    if m == 0 {
        0
    } else {
        letter_count(letters, cand, (m - 1) as nat) + if letter_broken(letters, cand, m - 1) is Some {
            1nat
        } else {
            0nat
        }
    }
}

/// The number of constraints that the candidate breaks.
pub open spec fn broken_count(k: Knowledge, cand: Seq<char>) -> nat {
    fixed_count(k.fixed, cand, cand.len()) + letter_count(k.letters, cand, cand.len())
}

proof fn lemma_fixed_violations(fixed: Seq<Option<char>>, cand: Seq<char>, m: nat)
    ensures
        fixed_violations(fixed, cand, m).len() == fixed_count(fixed, cand, m),
        forall|p: int|
            0 <= p < m && #[trigger] fixed_broken(fixed, cand, p) ==> fixed_violations(
                fixed,
                cand,
                m,
            ).contains(fixed_violation_at(fixed, cand, p)),
        forall|j: int|
            0 <= j < fixed_violations(fixed, cand, m).len() ==> exists|p: int|
                0 <= p < m && fixed_broken(fixed, cand, p) && #[trigger] fixed_violations(
                    fixed,
                    cand,
                    m,
                )[j] == fixed_violation_at(fixed, cand, p),
    decreases m,
{
    if m > 0 {
        let r = m - 1;
        lemma_fixed_violations(fixed, cand, (m - 1) as nat);
        let prev = fixed_violations(fixed, cand, (m - 1) as nat);
        let cur = fixed_violations(fixed, cand, m);
        if fixed_broken(fixed, cand, r) {
            assert(cur == prev.push(fixed_violation_at(fixed, cand, r)));
        } else {
            assert(cur == prev);
        }
        assert forall|p: int| 0 <= p < m && #[trigger] fixed_broken(fixed, cand, p) implies cur.contains(
            fixed_violation_at(fixed, cand, p),
        ) by {
            if p < r {
                let i = choose|i: int| 0 <= i < prev.len() && prev[i] == fixed_violation_at(fixed, cand, p);
                assert(cur[i] == prev[i]);
            } else {
                assert(cur[prev.len() as int] == fixed_violation_at(fixed, cand, p));
            }
        }
        assert forall|j: int| 0 <= j < cur.len() implies exists|p: int|
            0 <= p < m && fixed_broken(fixed, cand, p) && #[trigger] cur[j] == fixed_violation_at(
                fixed,
                cand,
                p,
            ) by {
            if j < prev.len() {
                assert(cur[j] == prev[j]);
            } else {
                assert(cur[j] == fixed_violation_at(fixed, cand, r));
            }
        }
    }
}

proof fn lemma_letter_violations(letters: Map<char, LetterState>, cand: Seq<char>, m: nat)
    ensures
        letter_violations(letters, cand, m).len() == letter_count(letters, cand, m),
        forall|p: int|
            0 <= p < m && #[trigger] letter_broken(letters, cand, p) is Some ==> letter_violations(
                letters,
                cand,
                m,
            ).contains(letter_broken(letters, cand, p)->Some_0),
        forall|j: int|
            #![trigger letter_violations(letters, cand, m)[j]]
            0 <= j < letter_violations(letters, cand, m).len() ==> exists|p: int|
                0 <= p < m && #[trigger] letter_broken(letters, cand, p) == Some(
                    letter_violations(letters, cand, m)[j],
                ),
    decreases m,
{
    if m > 0 {
        let r = m - 1;
        lemma_letter_violations(letters, cand, (m - 1) as nat);
        let prev = letter_violations(letters, cand, (m - 1) as nat);
        let cur = letter_violations(letters, cand, m);
        assert forall|p: int| 0 <= p < m && #[trigger] letter_broken(letters, cand, p) is Some implies cur.contains(
            letter_broken(letters, cand, p)->Some_0,
        ) by {
            if p < r {
                let i = choose|i: int| 0 <= i < prev.len() && prev[i] == letter_broken(letters, cand, p)->Some_0;
                assert(cur[i] == prev[i]);
            } else {
                assert(cur[prev.len() as int] == letter_broken(letters, cand, p)->Some_0);
            }
        }
        assert forall|j: int| #![trigger cur[j]] 0 <= j < cur.len() implies exists|p: int|
            0 <= p < m && #[trigger] letter_broken(letters, cand, p) == Some(cur[j]) by {
            if j < prev.len() {
                assert(cur[j] == prev[j]);
                let p = choose|p: int| 0 <= p < r && #[trigger] letter_broken(letters, cand, p) == Some(prev[j]);
                assert(letter_broken(letters, cand, p) == Some(cur[j]));
            } else {
                assert(letter_broken(letters, cand, r) == Some(cur[j]));
            }
        }
    }
}

/// A check reports every broken constraint, each once and none other: one
/// violation per position whose fixed letter differs, and one per position
/// whose letter is absent or ruled out there.
pub proof fn lemma_check_reports_every_violation(k: Knowledge, cand: Seq<char>)
    requires
        k.has_information(),
        cand.len() == k.word_length,
    ensures
        broken_count(k, cand) == 0 ==> k.check_outcome(cand) == Ok::<(), CheckFailure>(()),
        broken_count(k, cand) > 0 ==> k.check_outcome(cand) == Err::<(), CheckFailure>(
            CheckFailure::Violations(k.violations(cand)),
        ),
        k.violations(cand).len() == broken_count(k, cand),
        forall|p: int|
            0 <= p < cand.len() && #[trigger] fixed_broken(k.fixed, cand, p) ==> k.violations(
                cand,
            ).contains(fixed_violation_at(k.fixed, cand, p)),
        forall|p: int|
            0 <= p < cand.len() && #[trigger] letter_broken(k.letters, cand, p) is Some ==> k.violations(
                cand,
            ).contains(letter_broken(k.letters, cand, p)->Some_0),
        forall|j: int|
            0 <= j < k.violations(cand).len() ==> exists|p: int|
                0 <= p < cand.len() && (#[trigger] k.violations(cand)[j] == fixed_violation_at(
                    k.fixed,
                    cand,
                    p,
                ) && fixed_broken(k.fixed, cand, p) || letter_broken(k.letters, cand, p) == Some(
                    k.violations(cand)[j],
                )),
{
    let n = cand.len();
    let a = fixed_violations(k.fixed, cand, n);
    let b = letter_violations(k.letters, cand, n);
    let vs = k.violations(cand);
    lemma_fixed_violations(k.fixed, cand, n);
    lemma_letter_violations(k.letters, cand, n);
    assert forall|p: int| 0 <= p < n && #[trigger] fixed_broken(k.fixed, cand, p) implies vs.contains(
        fixed_violation_at(k.fixed, cand, p),
    ) by {
        let i = choose|i: int| 0 <= i < a.len() && a[i] == fixed_violation_at(k.fixed, cand, p);
        assert(vs[i] == a[i]);
    }
    assert forall|p: int| 0 <= p < n && #[trigger] letter_broken(k.letters, cand, p) is Some implies vs.contains(
        letter_broken(k.letters, cand, p)->Some_0,
    ) by {
        let i = choose|i: int| 0 <= i < b.len() && b[i] == letter_broken(k.letters, cand, p)->Some_0;
        assert(vs[a.len() + i] == b[i]);
    }
    assert forall|j: int| 0 <= j < vs.len() implies exists|p: int|
        0 <= p < n && (#[trigger] vs[j] == fixed_violation_at(k.fixed, cand, p) && fixed_broken(
            k.fixed,
            cand,
            p,
        ) || letter_broken(k.letters, cand, p) == Some(vs[j])) by {
        if j < a.len() {
            assert(vs[j] == a[j]);
            let p = choose|p: int| 0 <= p < n && fixed_broken(k.fixed, cand, p) && #[trigger] a[j] == fixed_violation_at(k.fixed, cand, p);
        } else {
            assert(vs[j] == b[j - a.len()]);
            let p = choose|p: int| 0 <= p < n && #[trigger] letter_broken(k.letters, cand, p) == Some(b[j - a.len()]);
        }
    }
}

/// A candidate of the wrong length is answered with the word length alone,
/// whatever it holds, once some feedback has been recorded.
pub proof fn lemma_length_gate(k: Knowledge, cand: Seq<char>)
    requires
        k.has_information(),
        cand.len() != k.word_length,
    ensures
        k.check_outcome(cand) == Err::<(), CheckFailure>(CheckFailure::LengthMismatch(k.word_length)),
{
}

/// Before any feedback, every candidate is answered with "no information yet".
pub proof fn lemma_fresh_store_has_no_information(n: nat, cand: Seq<char>)
    ensures
        Knowledge::initial(n).check_outcome(cand) == Err::<(), CheckFailure>(CheckFailure::NoInformationYet),
{
}

} // verus!
