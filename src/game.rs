//! The game state: fixed letters and letter records, with feedback merging and
//! candidate checking.

use vstd::prelude::*;
use vstd::string::*;
use crate::cells::{
    CellState, FeedbackKind, LetterInfo, LetterState, feedback_of, merged_record, record_view,
    with_cell, word_to_result,
};
use crate::knowledge::{Knowledge, absorb, fixed_violations, letter_violations, merge_feedback};
use crate::entries::{
    entries_map, has_key, key_index, keys_unique, lemma_entries_map_at, lemma_entries_map_push,
    lemma_entries_map_set,
};
use crate::render::{absent_text, debug_text, fixed_text, present_text, push_char, show_vec_present_types};
use crate::outcome::{CheckError, CheckFailure, Violation, outcome_view};

verus! {

/// The records after the letter `letter` is fixed at position `pos`: every
/// other present letter is ruled out there.
pub open spec fn exclude_at(letters: Map<char, LetterState>, pos: int, letter: char) -> Map<
    char,
    LetterState,
> {
    Map::new(
        |c: char| letters.contains_key(c),
        |c: char|
            match letters[c] {
                LetterState::Absent => LetterState::Absent,
                LetterState::Present(cells) => if c != letter {
                    LetterState::Present(cells.update(pos, CellState::Absent))
                } else {
                    LetterState::Present(cells)
                },
            },
    )
}

/// The records after the first `j` hits of `hs` have ruled their positions out
/// for every other present letter.
spec fn exclude_prefix(letters: Map<char, LetterState>, hs: Seq<(char, usize)>, j: int) -> Map<
    char,
    LetterState,
> {
    Map::new(
        |c: char| letters.contains_key(c),
        |c: char|
            match letters[c] {
                LetterState::Absent => LetterState::Absent,
                LetterState::Present(cells) => LetterState::Present(
                    Seq::new(
                        cells.len(),
                        |q: int|
                            if exists|jj: int| 0 <= jj < j && hs[jj].1 == q && #[trigger] hs[jj].0 != c {
                                CellState::Absent
                            } else {
                                cells[q]
                            },
                    ),
                ),
            },
    )
}

/// The fixed letters of the guess `g` after the first `j` hits of `hs`.
spec fn fix_prefix(fixed: Seq<Option<char>>, g: Seq<char>, hs: Seq<(char, usize)>, j: int) -> Seq<
    Option<char>,
> {
    Seq::new(
        fixed.len(),
        |q: int|
            if exists|jj: int| 0 <= jj < j && #[trigger] hs[jj].1 == q {
                Some(g[q])
            } else {
                fixed[q]
            },
    )
}

proof fn lemma_exclude_none(m: Map<char, LetterState>, hs: Seq<(char, usize)>)
    ensures
        exclude_prefix(m, hs, 0) == m,
{
    assert forall|c: char| #[trigger] m.contains_key(c) implies exclude_prefix(m, hs, 0)[c] == m[c] by {
        match m[c] {
            LetterState::Absent => {},
            LetterState::Present(cells) => {
                if let LetterState::Present(e) = exclude_prefix(m, hs, 0)[c] {
                    assert(e =~= cells);
                }
            },
        }
    }
    assert(exclude_prefix(m, hs, 0) =~= m);
}

proof fn lemma_exclude_step(m: Map<char, LetterState>, hs: Seq<(char, usize)>, j: int)
    requires
        0 <= j < hs.len(),
        forall|c: char|
            #![trigger m[c]]
            m.contains_key(c) ==> match m[c] {
                LetterState::Absent => true,
                LetterState::Present(cells) => hs[j].1 < cells.len(),
            },
    ensures
        exclude_prefix(m, hs, j + 1) == exclude_at(exclude_prefix(m, hs, j), hs[j].1 as int, hs[j].0),
{
    let a = exclude_prefix(m, hs, j + 1);
    let b = exclude_at(exclude_prefix(m, hs, j), hs[j].1 as int, hs[j].0);
    assert forall|c: char| #[trigger] m.contains_key(c) implies a[c] == b[c] by {
        match m[c] {
            LetterState::Absent => {},
            LetterState::Present(cells) => {
                if let LetterState::Present(x) = a[c] {
                    if let LetterState::Present(y) = b[c] {
                        assert forall|q: int| 0 <= q < cells.len() implies x[q] == y[q] by {
                            if exists|jj: int| 0 <= jj < j + 1 && hs[jj].1 == q && #[trigger] hs[jj].0 != c {
                                let jj = choose|jj: int| 0 <= jj < j + 1 && hs[jj].1 == q && #[trigger] hs[jj].0 != c;
                                if jj < j {
                                    assert(hs[jj].0 != c);
                                }
                            }
                            if exists|jj: int| 0 <= jj < j && hs[jj].1 == q && #[trigger] hs[jj].0 != c {
                                let jj = choose|jj: int| 0 <= jj < j && hs[jj].1 == q && #[trigger] hs[jj].0 != c;
                                assert(hs[jj].0 != c);
                            }
                            if hs[j].1 == q && hs[j].0 != c {
                                assert(hs[j].0 != c);
                            }
                        }
                        assert(x =~= y);
                    }
                }
            },
        }
    }
    assert(a =~= b);
}

/// The state of one game: the letter known at each position, and a record for
/// each letter seen in a guess.
pub struct WordleGame {
    perfect_guess_so_far: Vec<Option<char>>,
    information: Vec<(char, LetterInfo)>,
    num: usize,
}

impl View for WordleGame {
    type V = Knowledge;

    closed spec fn view(&self) -> Knowledge {
        Knowledge {
            word_length: self.num as nat,
            fixed: self.perfect_guess_so_far@,
            letters: entries_map(self.information@),
        }
    }
}

impl WordleGame {
    /// The representation is consistent: its model is valid, and no letter has
    /// two records.
    pub closed spec fn wf(&self) -> bool {
        &&& self.perfect_guess_so_far@.len() == self.num
        &&& keys_unique(self.information@)
        &&& forall|i: int|
            0 <= i < self.information@.len() ==> match #[trigger] self.information@[i].1 {
                LetterInfo::Absent => true,
                LetterInfo::Present(v) => v@.len() == self.num,
            }
    }

    /// The model of a consistent state is valid.
    pub proof fn lemma_valid(&self)
        requires
            self.wf(),
        ensures
            self@.valid(),
    {
        assert forall|c: char| #[trigger] self@.letters.contains_key(c) implies match self@.letters[c] {
            LetterState::Absent => true,
            LetterState::Present(cells) => cells.len() == self@.word_length,
        } by {
            let i = key_index(self.information@, c);
            lemma_entries_map_at(self.information@, i);
        }
    }

    /// A game with words of `num` letters, before any feedback.
    pub fn init(num: usize) -> (r: WordleGame)
        ensures
            r.wf(),
            r@ == Knowledge::initial(num as nat),
    {
        let mut fixed: Vec<Option<char>> = Vec::new();
        let mut i: usize = 0;
        while i < num
            invariant
                i <= num,
                fixed@ == Seq::new(i as nat, |j: int| None::<char>),
            decreases num - i,
        {
            fixed.push(None);
            i = i + 1;
            assert(fixed@ =~= Seq::new(i as nat, |j: int| None::<char>));
        }
        let r = WordleGame { perfect_guess_so_far: fixed, information: Vec::new(), num };
        assert(r@.letters =~= Map::empty());
        r
    }

    /// The number of letters in the solution.
    pub fn word_length(&self) -> (r: usize)
        ensures
            r == self@.word_length,
    {
        self.num
    }

    /// The letter known at position `p`, if any.
    pub fn fixed_letter(&self, p: usize) -> (r: Option<char>)
        requires
            self.wf(),
            p < self@.word_length,
        ensures
            r == self@.fixed[p as int],
    {
        self.perfect_guess_so_far[p]
    }

    /// The record of `letter`, if it has one.
    pub fn letter_info(&self, letter: char) -> (r: Option<&LetterInfo>)
        requires
            self.wf(),
        ensures
            record_view(r) == self@.record(letter),
    {
        match self.find_letter(letter) {
            Some(i) => {
                proof {
                    lemma_entries_map_at(self.information@, i as int);
                }
                Some(&self.information[i].1)
            },
            None => None,
        }
    }

    /// The index of the record of `letter`, if it has one.
    fn find_letter(&self, letter: char) -> (r: Option<usize>)
        ensures
            match r {
                Some(i) => i < self.information@.len() && self.information@[i as int].0 == letter,
                None => !has_key(self.information@, letter),
            },
    {
        let mut i: usize = 0;
        while i < self.information.len()
            invariant
                i <= self.information@.len(),
                forall|j: int| 0 <= j < i ==> self.information@[j].0 != letter,
            decreases self.information@.len() - i,
        {
            if self.information[i].0 == letter {
                return Some(i);
            }
            i = i + 1;
        }
        None
    }

    /// Merges the symbol `s` for `letter` at position `p` into its record.
    fn absorb_one(&mut self, letter: char, p: usize, s: FeedbackKind)
        requires
            old(self).wf(),
            p < old(self).num,
        ensures
            final(self).wf(),
            final(self).num == old(self).num,
            final(self).perfect_guess_so_far == old(self).perfect_guess_so_far,
            final(self)@.letters == old(self)@.letters.insert(
                letter,
                merge_feedback(old(self)@.record(letter), s, p as int, old(self).num as nat),
            ),
    {
        match self.find_letter(letter) {
            Some(i) => {
                proof {
                    lemma_entries_map_at(self.information@, i as int);
                }
                let rec = merged_record(Some(&self.information[i].1), s, p, self.num);
                proof {
                    lemma_entries_map_set(self.information@, i as int, (letter, rec));
                }
                self.information.set(i, (letter, rec));
            },
            None => {
                let rec = merged_record(None, s, p, self.num);
                proof {
                    lemma_entries_map_push(self.information@, (letter, rec));
                }
                self.information.push((letter, rec));
            },
        }
    }

    /// Fixes `letter` at position `pos`, and rules every other present letter
    /// out there.
    fn set_other_keys(&mut self, pos: usize, letter: char)
        requires
            old(self).wf(),
            pos < old(self).num,
        ensures
            final(self).wf(),
            final(self).num == old(self).num,
            final(self)@.fixed == old(self)@.fixed.update(pos as int, Some(letter)),
            final(self)@.letters == exclude_at(old(self)@.letters, pos as int, letter),
    {
        let ghost before = self.information@;
        let ghost m = exclude_at(entries_map(before), pos as int, letter);
        self.perfect_guess_so_far.set(pos, Some(letter));
        let ghost fixed = self.perfect_guess_so_far@;
        let mut k: usize = 0;
        while k < self.information.len()
            invariant
                k <= self.information@.len(),
                self.information@.len() == before.len(),
                pos < self.num,
                keys_unique(before),
                self.perfect_guess_so_far@.len() == self.num,
                self.perfect_guess_so_far@ == fixed,
                m == exclude_at(entries_map(before), pos as int, letter),
                forall|j: int|
                    0 <= j < before.len() ==> match #[trigger] before[j].1 {
                        LetterInfo::Absent => true,
                        LetterInfo::Present(v) => v@.len() == self.num,
                    },
                forall|j: int| 0 <= j < before.len() ==> #[trigger] self.information@[j].0 == before[j].0,
                forall|j: int|
                    0 <= j < before.len() ==> match #[trigger] self.information@[j].1 {
                        LetterInfo::Absent => true,
                        LetterInfo::Present(v) => v@.len() == self.num,
                    },
                forall|j: int|
                    k <= j < before.len() ==> #[trigger] self.information@[j].1@ == before[j].1@,
                forall|j: int|
                    0 <= j < k ==> #[trigger] self.information@[j].1@ == m[before[j].0],
            decreases before.len() - k,
        {
            proof {
                lemma_entries_map_at(before, k as int);
                assert(m.contains_key(before[k as int].0));
                assert(self.information@[k as int].1@ == before[k as int].1@);
                assert(entries_map(before)[before[k as int].0] == before[k as int].1@);
            }
            let key = self.information[k].0;
            if key != letter {
                let changed = match &self.information[k].1 {
                    LetterInfo::Absent => None,
                    LetterInfo::Present(v) => Some(with_cell(v, pos, CellState::Absent)),
                };
                match changed {
                    Some(w) => {
                        self.information.set(k, (key, LetterInfo::Present(w)));
                    },
                    None => {},
                }
            }
            assert(self.information@[k as int].1@ == m[before[k as int].0]);
            k = k + 1;
        }
        proof {
            let after = self.information@;
            assert(keys_unique(after));
            assert forall|c: char| #[trigger] entries_map(after).contains_key(c) <==> m.contains_key(c) by {
                if has_key(before, c) {
                    let j = key_index(before, c);
                    assert(after[j].0 == c);
                }
                if has_key(after, c) {
                    let j = key_index(after, c);
                    assert(before[j].0 == c);
                }
            }
            assert forall|c: char| #[trigger] entries_map(after).contains_key(c) implies entries_map(after)[c] == m[c] by {
                let j = key_index(after, c);
                assert(before[j].0 == c);
                lemma_entries_map_at(after, j);
            }
            assert(entries_map(after) =~= m);
        }
    }

    /// Merges the feedback `wordle_result` for the guess `new_word`, one
    /// character each: `y` a hit, `m` present elsewhere, anything else a miss.
    /// Each symbol is merged into its letter's record in order; then each hit
    /// fixes its position and rules every other letter out there.
    pub fn update(&mut self, new_word: &str, wordle_result: &str)
        requires
            old(self).wf(),
            new_word@.len() == old(self)@.word_length,
            wordle_result@.len() == old(self)@.word_length,
        ensures
            final(self).wf(),
            final(self)@ == old(self)@.updated(
                new_word@,
                wordle_result@.map_values(|c: char| feedback_of(c)),
            ),
    {
        let results = word_to_result(wordle_result);
        let ghost start = self@;
        let ghost g = new_word@;
        let ghost f = results@;
        let n = new_word.unicode_len();
        let mut hits: Vec<(char, usize)> = Vec::new();
        let mut i: usize = 0;
        while i < n
            invariant
                i <= n,
                n == g.len(),
                n == f.len(),
                g == new_word@,
                f == results@,
                n == self.num,
                self.wf(),
                self@.word_length == start.word_length,
                self@.fixed == start.fixed,
                self@.letters == absorb(start.letters, g, f, start.word_length, i as nat),
                forall|jj: int|
                    0 <= jj < hits@.len() ==> {
                        let h = #[trigger] hits@[jj];
                        &&& h.1 < i
                        &&& f[h.1 as int] == FeedbackKind::Hit
                        &&& g[h.1 as int] == h.0
                    },
                forall|q: int|
                    0 <= q < i && #[trigger] f[q] == FeedbackKind::Hit ==> exists|jj: int|
                        0 <= jj < hits@.len() && #[trigger] hits@[jj].1 == q,
            decreases n - i,
        {
            let letter = new_word.get_char(i);
            let result = results[i];
            self.absorb_one(letter, i, result);
            let ghost earlier = hits@;
            if result == FeedbackKind::Hit {
                hits.push((letter, i));
                assert(hits@[hits@.len() - 1].1 == i);
            }
            proof {
                assert forall|q: int|
                    0 <= q < i + 1 && #[trigger] f[q] == FeedbackKind::Hit implies exists|jj: int|
                        0 <= jj < hits@.len() && #[trigger] hits@[jj].1 == q by {
                    if q < i {
                        let jj = choose|jj: int| 0 <= jj < earlier.len() && #[trigger] earlier[jj].1 == q;
                        assert(hits@[jj] == earlier[jj]);
                    } else {
                        assert(hits@[hits@.len() - 1].1 == q);
                    }
                }
            }
            i = i + 1;
        }
        let ghost absorbed = self@.letters;
        proof {
            self.lemma_valid();
            lemma_exclude_none(absorbed, hits@);
            assert(self@.fixed =~= fix_prefix(start.fixed, g, hits@, 0));
        }
        let mut j: usize = 0;
        while j < hits.len()
            invariant
                j <= hits@.len(),
                n == g.len(),
                n == f.len(),
                n == self.num,
                self.wf(),
                self@.word_length == start.word_length,
                forall|jj: int|
                    0 <= jj < hits@.len() ==> {
                        let h = #[trigger] hits@[jj];
                        &&& h.1 < n
                        &&& f[h.1 as int] == FeedbackKind::Hit
                        &&& g[h.1 as int] == h.0
                    },
                self@.fixed == fix_prefix(start.fixed, g, hits@, j as int),
                forall|q: int|
                    0 <= q < n && #[trigger] f[q] == FeedbackKind::Hit ==> exists|jj: int|
                        0 <= jj < hits@.len() && #[trigger] hits@[jj].1 == q,
                self@.letters == exclude_prefix(absorbed, hits@, j as int),
                forall|c: char|
                    #![trigger absorbed[c]]
                    absorbed.contains_key(c) ==> match absorbed[c] {
                        LetterState::Absent => true,
                        LetterState::Present(cells) => cells.len() == n,
                    },
            decreases hits@.len() - j,
        {
            let (letter, pos) = hits[j];
            proof {
                lemma_exclude_step(absorbed, hits@, j as int);
            }
            self.set_other_keys(pos, letter);
            j = j + 1;
            proof {
                let fx = fix_prefix(start.fixed, g, hits@, j as int);
                assert forall|q: int| 0 <= q < fx.len() implies #[trigger] fx[q] == self@.fixed[q] by {
                    if exists|jj: int| 0 <= jj < j && #[trigger] hits@[jj].1 == q {
                        let jj = choose|jj: int| 0 <= jj < j && #[trigger] hits@[jj].1 == q;
                        if jj < j - 1 {
                            assert(hits@[jj].1 == q);
                        }
                    }
                    if exists|jj: int| 0 <= jj < j - 1 && #[trigger] hits@[jj].1 == q {
                        let jj = choose|jj: int| 0 <= jj < j - 1 && #[trigger] hits@[jj].1 == q;
                        assert(hits@[jj].1 == q);
                    }
                }
                assert(fx =~= self@.fixed);
            }
        }
        proof {
            let fin = start.updated(g, f);
            assert forall|q: int| 0 <= q < n implies #[trigger] self@.fixed[q] == fin.fixed[q] by {
                if f[q] == FeedbackKind::Hit {
                    let jj = choose|jj: int| 0 <= jj < hits@.len() && #[trigger] hits@[jj].1 == q;
                    assert(hits@[jj].1 == q);
                }
                if exists|jj: int| 0 <= jj < hits@.len() && #[trigger] hits@[jj].1 == q {
                    let jj = choose|jj: int| 0 <= jj < hits@.len() && #[trigger] hits@[jj].1 == q;
                    assert(hits@[jj].1 == q);
                }
            }
            assert(self@.fixed =~= fin.fixed);
            assert forall|c: char| #[trigger] absorbed.contains_key(c) implies exclude_prefix(absorbed, hits@, hits@.len() as int)[c] == fin.letters[c] by {
                match absorbed[c] {
                    LetterState::Absent => {},
                    LetterState::Present(cells) => {
                        if let LetterState::Present(x) = exclude_prefix(absorbed, hits@, hits@.len() as int)[c] {
                            if let LetterState::Present(y) = fin.letters[c] {
                                assert forall|q: int| 0 <= q < cells.len() implies x[q] == y[q] by {
                                    if exists|jj: int| 0 <= jj < hits@.len() && hits@[jj].1 == q && #[trigger] hits@[jj].0 != c {
                                        let jj = choose|jj: int| 0 <= jj < hits@.len() && hits@[jj].1 == q && #[trigger] hits@[jj].0 != c;
                                        assert(hits@[jj].0 != c);
                                    }
                                    if 0 <= q < n && f[q] == FeedbackKind::Hit && g[q] != c {
                                        let jj = choose|jj: int| 0 <= jj < hits@.len() && #[trigger] hits@[jj].1 == q;
                                        assert(hits@[jj].0 != c);
                                    }
                                }
                                assert(x =~= y);
                            }
                        }
                    },
                }
            }
            assert(self@.letters =~= fin.letters);
        }
    }

    /// A human-readable dump: the fixed letters (`*` where unknown), the absent
    /// letters, and a row of cell symbols for each present letter. The letters
    /// come in an order of their own, each once.
    pub fn render_debug(&self) -> (r: String)
        requires
            self.wf(),
        ensures
            exists|order: Seq<char>|
                #![trigger debug_text(self@, order)]
                {
                    &&& order.no_duplicates()
                    &&& forall|c: char| order.contains(c) <==> self@.letters.contains_key(c)
                    &&& r@ == debug_text(self@, order)
                },
    {
        let ghost model = self@;
        let ghost order = self.information@.map_values(|e: (char, LetterInfo)| e.0);
        let mut r = String::new();
        r.append("Necessary letters: ");
        let ghost head = r@;
        let mut p: usize = 0;
        while p < self.num
            invariant
                p <= self.num,
                self.wf(),
                model == self@,
                r@ == head + fixed_text(model.fixed.subrange(0, p as int)),
            decreases self.num - p,
        {
            let c = match self.perfect_guess_so_far[p] {
                Some(x) => x,
                None => '*',
            };
            push_char(&mut r, c);
            p = p + 1;
            assert(r@ =~= head + fixed_text(model.fixed.subrange(0, p as int)));
        }
        assert(model.fixed.subrange(0, self.num as int) =~= model.fixed);
        r.append("\nAdditional Info:Absentees");
        let ghost mid = r@;
        let mut i: usize = 0;
        while i < self.information.len()
            invariant
                i <= self.information@.len(),
                self.wf(),
                model == self@,
                order == self.information@.map_values(|e: (char, LetterInfo)| e.0),
                r@ == mid + absent_text(model, order, i as nat),
            decreases self.information@.len() - i,
        {
            proof {
                lemma_entries_map_at(self.information@, i as int);
            }
            match &self.information[i].1 {
                LetterInfo::Absent => {
                    r.append(",");
                    push_char(&mut r, self.information[i].0);
                },
                LetterInfo::Present(_) => {},
            }
            i = i + 1;
        }
        r.append("\n");
        let ghost tail = r@;
        i = 0;
        while i < self.information.len()
            invariant
                i <= self.information@.len(),
                self.wf(),
                model == self@,
                order == self.information@.map_values(|e: (char, LetterInfo)| e.0),
                r@ == tail + present_text(model, order, i as nat),
            decreases self.information@.len() - i,
        {
            proof {
                lemma_entries_map_at(self.information@, i as int);
            }
            match &self.information[i].1 {
                LetterInfo::Absent => {},
                LetterInfo::Present(v) => {
                    r.append("\n");
                    push_char(&mut r, self.information[i].0);
                    r.append("->");
                    let row = show_vec_present_types(v);
                    r.append(row.as_str());
                },
            }
            i = i + 1;
        }
        proof {
            assert(order.no_duplicates());
            assert forall|c: char| order.contains(c) <==> model.letters.contains_key(c) by {
                if order.contains(c) {
                    let j = choose|j: int| 0 <= j < order.len() && order[j] == c;
                    lemma_entries_map_at(self.information@, j);
                }
                if model.letters.contains_key(c) {
                    let j = key_index(self.information@, c);
                    assert(order[j] == c);
                }
            }
            assert(r@ =~= debug_text(model, order));
        }
        r
    }

    /// Checks whether the candidate `word` agrees with everything learned so
    /// far, and reports every constraint that it breaks.
    pub fn check(&self, word: &str) -> (r: Result<(), CheckError>)
        requires
            self.wf(),
        ensures
            outcome_view(r) == self@.check_outcome(word@),
            !self@.has_information() ==> r matches Err(CheckError::NoInformationYet),
            self@.has_information() && word@.len() != self@.word_length ==> outcome_view(r) == Err::<
                (),
                CheckFailure,
            >(CheckFailure::LengthMismatch(self@.word_length)),
    {
        let ghost model = self@;
        if self.information.len() == 0 {
            assert(!model.has_information());
            return Err(CheckError::NoInformationYet);
        }
        proof {
            lemma_entries_map_at(self.information@, 0);
            assert(model.letters.contains_key(self.information@[0].0));
        }
        let n = word.unicode_len();
        if n != self.num {
            return Err(CheckError::LengthMismatch { expected: self.num });
        }
        let mut found: Vec<Violation> = Vec::new();
        let mut p: usize = 0;
        while p < n
            invariant
                p <= n,
                n == word@.len(),
                n == self.num,
                self.wf(),
                model == self@,
                found@ == fixed_violations(model.fixed, word@, p as nat),
            decreases n - p,
        {
            let c = word.get_char(p);
            match self.perfect_guess_so_far[p] {
                Some(x) => {
                    if x != c {
                        found.push(Violation::FixedMismatch { position: p, expected: x, found: c });
                    }
                },
                None => {},
            }
            p = p + 1;
        }
        let ghost fixed_part = found@;
        p = 0;
        while p < n
            invariant
                p <= n,
                n == word@.len(),
                n == self.num,
                self.wf(),
                model == self@,
                found@ == fixed_part + letter_violations(model.letters, word@, p as nat),
            decreases n - p,
        {
            let c = word.get_char(p);
            match self.find_letter(c) {
                Some(i) => {
                    proof {
                        lemma_entries_map_at(self.information@, i as int);
                    }
                    match &self.information[i].1 {
                        LetterInfo::Absent => {
                            found.push(Violation::MustBeAbsent { position: p, letter: c });
                        },
                        LetterInfo::Present(v) => {
                            if v[p] == CellState::Absent {
                                found.push(Violation::RuledOut { position: p, letter: c });
                            }
                        },
                    }
                },
                None => {},
            }
            p = p + 1;
            assert(found@ =~= fixed_part + letter_violations(model.letters, word@, p as nat));
        }
        if found.len() == 0 {
            Ok(())
        } else {
            Err(CheckError::Violations(found))
        }
    }
}

} // verus!
