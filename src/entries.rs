//! The letter records as a list of entries with distinct letters, and the map
//! of records that such a list holds.

use vstd::prelude::*;
use crate::cells::{LetterInfo, LetterState};

verus! {

/// No two entries share a letter.
pub open spec fn keys_unique(s: Seq<(char, LetterInfo)>) -> bool {
    forall|i: int, j: int| 0 <= i < s.len() && 0 <= j < s.len() && s[i].0 == s[j].0 ==> i == j
}

/// Some entry belongs to `c`.
pub open spec fn has_key(s: Seq<(char, LetterInfo)>, c: char) -> bool {
    exists|i: int| 0 <= i < s.len() && s[i].0 == c
}

/// The index of the entry of `c`.
pub open spec fn key_index(s: Seq<(char, LetterInfo)>, c: char) -> int {
    choose|i: int| 0 <= i < s.len() && s[i].0 == c
}

/// The letter records that a list of entries holds.
pub open spec fn entries_map(s: Seq<(char, LetterInfo)>) -> Map<char, LetterState> {
    Map::new(|c: char| has_key(s, c), |c: char| s[key_index(s, c)].1@)
}

pub(crate) proof fn lemma_entries_map_at(s: Seq<(char, LetterInfo)>, i: int)
    requires
        keys_unique(s),
        0 <= i < s.len(),
    ensures
        entries_map(s).contains_key(s[i].0),
        entries_map(s)[s[i].0] == s[i].1@,
{
    let c = s[i].0;
    assert(has_key(s, c));
    let j = key_index(s, c);
    assert(s[j].0 == c);
}

pub(crate) proof fn lemma_entries_map_set(s: Seq<(char, LetterInfo)>, i: int, e: (char, LetterInfo))
    requires
        keys_unique(s),
        0 <= i < s.len(),
        e.0 == s[i].0,
    ensures
        keys_unique(s.update(i, e)),
        entries_map(s.update(i, e)) == entries_map(s).insert(e.0, e.1@),
{
    let t = s.update(i, e);
    assert(keys_unique(t));
    lemma_entries_map_at(t, i);
    assert forall|c: char| #[trigger] entries_map(t).contains_key(c) <==> entries_map(s).insert(e.0, e.1@).contains_key(c) by {
        if has_key(s, c) {
            let j = key_index(s, c);
            assert(t[j].0 == c);
        }
        if has_key(t, c) {
            let j = key_index(t, c);
            assert(s[j].0 == c);
        }
    }
    assert forall|c: char| #[trigger] entries_map(t).contains_key(c) && c != e.0 implies entries_map(t)[c] == entries_map(s)[c] by {
        let j = key_index(t, c);
        assert(s[j].0 == c);
        lemma_entries_map_at(t, j);
        lemma_entries_map_at(s, j);
    }
    assert(entries_map(t) =~= entries_map(s).insert(e.0, e.1@));
}

pub(crate) proof fn lemma_entries_map_push(s: Seq<(char, LetterInfo)>, e: (char, LetterInfo))
    requires
        keys_unique(s),
        !has_key(s, e.0),
    ensures
        keys_unique(s.push(e)),
        entries_map(s.push(e)) == entries_map(s).insert(e.0, e.1@),
{
    let t = s.push(e);
    assert(keys_unique(t));
    lemma_entries_map_at(t, s.len() as int);
    assert forall|c: char| #[trigger] entries_map(t).contains_key(c) <==> entries_map(s).insert(e.0, e.1@).contains_key(c) by {
        if has_key(s, c) {
            let j = key_index(s, c);
            assert(t[j].0 == c);
        }
        if has_key(t, c) && c != e.0 {
            let j = key_index(t, c);
            assert(s[j].0 == c);
        }
    }
    assert forall|c: char| #[trigger] entries_map(t).contains_key(c) && c != e.0 implies entries_map(t)[c] == entries_map(s)[c] by {
        let j = key_index(t, c);
        assert(s[j].0 == c);
        lemma_entries_map_at(t, j);
        lemma_entries_map_at(s, j);
    }
    assert(entries_map(t) =~= entries_map(s).insert(e.0, e.1@));
}

} // verus!
