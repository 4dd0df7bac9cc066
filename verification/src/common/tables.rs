//! The notebook (keyword to program) and the program table (program
//! identifier to program), each a map kept as a list of pairs in ascending
//! order of key.
use vstd::prelude::*;

use crate::assoc::{
    keys_distinct, lemma_pairs_map_dom, lemma_pairs_map_len, lemma_pairs_map_update,
    lemma_pairs_map_insert_new, lemma_pairs_map_value, pairs_map, Order,
};
use crate::ids::{bytes_before, lemma_bytes_before_transitive, ProgramId};
use crate::sample::address::{
    keyword_order, lemma_text_before_differs, lemma_text_before_transitive, text_before, Keyword,
};

use super::types::{Message, WasmProgram, WasmProgramView};

verus! {

/// The programs that keywords are bound to.
#[derive(Debug)]
pub struct Notebook {
    entries: Vec<(Keyword, ProgramId)>,
}

/// Whether the keywords of the list come in ascending order, as the keys of
/// an ordered map are walked.
pub open spec fn keywords_ascending<V>(s: Seq<(Seq<char>, V)>) -> bool {
    forall|i: int, j: int| 0 <= i < j < s.len() ==> text_before(#[trigger] s[i].0, #[trigger] s[j].0)
}

/// The spec pair for a notebook entry.
pub open spec fn notebook_pair(e: (Keyword, ProgramId)) -> (Seq<char>, Seq<u8>) {
    (e.0@, e.1@)
}

impl Notebook {
    /// The entries as pairs of values.
    pub closed spec fn pairs(self) -> Seq<(Seq<char>, Seq<u8>)> {
        self.entries@.map_values(|e: (Keyword, ProgramId)| notebook_pair(e))
    }

    #[verifier::type_invariant]
    closed spec fn inv(self) -> bool {
        &&& keys_distinct(self.pairs())
        &&& keywords_ascending(self.pairs())
    }

    /// An empty notebook.
    pub fn new() -> (r: Notebook)
        ensures
            r@ == Map::<Seq<char>, Seq<u8>>::empty(),
    {
        let r = Notebook { entries: Vec::new() };
        assert(r.pairs() =~= Seq::<(Seq<char>, Seq<u8>)>::empty());
        r
    }

    /// The program bound to a keyword.
    pub fn get(&self, keyword: &Keyword) -> (r: Option<ProgramId>)
        ensures
            match r {
                Some(id) => self@.contains_key(keyword@) && self@[keyword@] == id@,
                None => !self@.contains_key(keyword@),
            },
    {
        proof {
            use_type_invariant(self);
        }
        let mut i: usize = 0;
        while i < self.entries.len()
            invariant
                i <= self.entries@.len(),
                forall|j: int| 0 <= j < i ==> #[trigger] self.pairs()[j].0 != keyword@,
                self.pairs().len() == self.entries@.len(),
                keys_distinct(self.pairs()),
            decreases self.entries@.len() - i,
        {
            if self.entries[i].0 == *keyword {
                let id = self.entries[i].1;
                proof {
                    assert(self.pairs()[i as int] == notebook_pair(self.entries@[i as int]));
                    lemma_pairs_map_value(self.pairs(), i as int);
                }
                return Some(id);
            }
            assert(self.pairs()[i as int] == notebook_pair(self.entries@[i as int]));
            i = i + 1;
        }
        proof {
            lemma_pairs_map_dom(self.pairs(), keyword@);
        }
        None
    }

    /// Where a binding of the given keyword stands or would stand: every
    /// keyword before the place comes before it, and either it is at the
    /// place, or it comes before every keyword from there on.
    fn slot(&self, keyword: &Keyword) -> (r: (usize, bool))
        ensures
            r.0 <= self.entries@.len(),
            self.pairs().len() == self.entries@.len(),
            forall|j: int| 0 <= j < r.0 ==> text_before(#[trigger] self.pairs()[j].0, keyword@),
            r.1 ==> r.0 < self.entries@.len() && self.pairs()[r.0 as int].0 == keyword@,
            !r.1 ==> forall|j: int|
                r.0 <= j < self.entries@.len() ==> text_before(
                    keyword@,
                    #[trigger] self.pairs()[j].0,
                ),
    {
        proof {
            use_type_invariant(self);
        }
        let mut i: usize = 0;
        while i < self.entries.len()
            invariant
                i <= self.entries@.len(),
                forall|j: int| 0 <= j < i ==> text_before(#[trigger] self.pairs()[j].0, keyword@),
                self.pairs().len() == self.entries@.len(),
                keywords_ascending(self.pairs()),
            decreases self.entries@.len() - i,
        {
            assert(self.pairs()[i as int] == notebook_pair(self.entries@[i as int]));
            match keyword_order(&self.entries[i].0, keyword) {
                Order::Before => {
                    i = i + 1;
                },
                Order::Same => {
                    return (i, true);
                },
                Order::After => {
                    proof {
                        assert forall|j: int| i <= j < self.entries@.len() implies text_before(
                            keyword@,
                            #[trigger] self.pairs()[j].0,
                        ) by {
                            if j > i {
                                lemma_text_before_transitive(
                                    keyword@,
                                    self.pairs()[i as int].0,
                                    self.pairs()[j].0,
                                );
                            }
                        }
                    }
                    return (i, false);
                },
            }
        }
        (i, false)
    }

    /// Binds a keyword to a program, replacing an earlier binding.
    pub fn insert(&mut self, keyword: Keyword, id: ProgramId)
        ensures
            final(self)@ == old(self)@.insert(keyword@, id@),
    {
        proof {
            use_type_invariant(&*self);
        }
        let (i, same) = self.slot(&keyword);
        let ghost old_pairs = self.pairs();
        let ghost k = keyword@;
        let mut entries: Vec<(Keyword, ProgramId)> = Vec::new();
        std::mem::swap(&mut entries, &mut self.entries);
        assert(entries@.map_values(|e: (Keyword, ProgramId)| notebook_pair(e)) == old_pairs);
        if same {
            proof {
                lemma_pairs_map_update(old_pairs, i as int, id@);
            }
            entries.set(i, (keyword, id));
            assert(entries@.map_values(|e: (Keyword, ProgramId)| notebook_pair(e))
                =~= old_pairs.update(i as int, (old_pairs[i as int].0, id@)));
        } else {
            proof {
                assert forall|j: int| 0 <= j < old_pairs.len() implies #[trigger] old_pairs[j].0 != k by {
                    if j < i {
                        lemma_text_before_differs(old_pairs[j].0, k);
                    } else {
                        lemma_text_before_differs(k, old_pairs[j].0);
                    }
                }
                lemma_pairs_map_insert_new(old_pairs, i as int, k, id@);
            }
            entries.insert(i, (keyword, id));
            let ghost t = old_pairs.insert(i as int, (k, id@));
            assert(entries@.map_values(|e: (Keyword, ProgramId)| notebook_pair(e)) =~= t);
            assert forall|a: int, b: int| 0 <= a < b < t.len() implies text_before(#[trigger] t[a].0, #[trigger] t[b].0) by {
                if a < i && b < i {
                    assert(t[a] == old_pairs[a] && t[b] == old_pairs[b]);
                } else if a < i && b == i {
                    assert(t[a] == old_pairs[a]);
                } else if a < i {
                    assert(t[a] == old_pairs[a] && t[b] == old_pairs[b - 1]);
                } else if a == i {
                    assert(t[b] == old_pairs[b - 1]);
                } else {
                    assert(t[a] == old_pairs[a - 1] && t[b] == old_pairs[b - 1]);
                }
            }
        }
        *self = Notebook { entries };
    }

    /// The bindings, one pair per keyword, in ascending order of keyword.
    pub fn entries(&self) -> (r: &Vec<(Keyword, ProgramId)>)
        ensures
            pairs_map(r@.map_values(|e: (Keyword, ProgramId)| notebook_pair(e))) == self@,
            keys_distinct(r@.map_values(|e: (Keyword, ProgramId)| notebook_pair(e))),
            keywords_ascending(r@.map_values(|e: (Keyword, ProgramId)| notebook_pair(e))),
    {
        proof {
            use_type_invariant(self);
        }
        &self.entries
    }
}

impl View for Notebook {
    type V = Map<Seq<char>, Seq<u8>>;

    closed spec fn view(&self) -> Map<Seq<char>, Seq<u8>> {
        pairs_map(self.pairs())
    }
}

/// The programs of a test, by identifier.
#[derive(Debug)]
pub struct Programs {
    entries: Vec<(ProgramId, WasmProgram)>,
}

/// The spec pair for a program table entry.
pub open spec fn program_pair(e: (ProgramId, WasmProgram)) -> (Seq<u8>, WasmProgramView) {
    (e.0@, e.1@)
}

/// Whether the identifiers of the list come in ascending order of their
/// bytes, as the keys of an ordered map are walked.
pub open spec fn ids_ascending<V>(s: Seq<(Seq<u8>, V)>) -> bool {
    forall|i: int, j: int| 0 <= i < j < s.len() ==> bytes_before(#[trigger] s[i].0, #[trigger] s[j].0)
}

/// Bytes that come before others differ from them.
proof fn lemma_before_differs(a: Seq<u8>, b: Seq<u8>)
    requires
        bytes_before(a, b),
    ensures
        a != b,
{
    let k = choose|k: int|
        0 <= k < a.len() && k < b.len() && a[k] < b[k] && forall|j: int|
            0 <= j < k ==> #[trigger] a[j] == b[j];
    assert(a[k] != b[k]);
}

/// Whether every program has its init message.
pub open spec fn all_initialized(m: Map<Seq<u8>, WasmProgramView>) -> bool {
    forall|k: Seq<u8>| #[trigger] m.contains_key(k) ==> m[k].init is Some
}

impl Programs {
    /// The entries as pairs of values.
    pub closed spec fn pairs(self) -> Seq<(Seq<u8>, WasmProgramView)> {
        self.entries@.map_values(|e: (ProgramId, WasmProgram)| program_pair(e))
    }

    #[verifier::type_invariant]
    closed spec fn inv(self) -> bool {
        &&& keys_distinct(self.pairs())
        &&& ids_ascending(self.pairs())
    }

    /// An empty table.
    pub fn new() -> (r: Programs)
        ensures
            r@ == Map::<Seq<u8>, WasmProgramView>::empty(),
    {
        let r = Programs { entries: Vec::new() };
        assert(r.pairs() =~= Seq::<(Seq<u8>, WasmProgramView)>::empty());
        r
    }

    /// The number of programs.
    pub fn len(&self) -> (r: usize)
        ensures
            r == self@.len(),
            self@.dom().finite(),
    {
        proof {
            use_type_invariant(self);
            lemma_pairs_map_len(self.pairs());
        }
        self.entries.len()
    }

    /// The position of a program in the list, if it is there.
    fn position(&self, id: &ProgramId) -> (r: Option<usize>)
        ensures
            match r {
                Some(i) => i < self.entries@.len() && self.pairs()[i as int].0 == id@,
                None => !self@.contains_key(id@),
            },
            self.pairs().len() == self.entries@.len(),
    {
        proof {
            use_type_invariant(self);
        }
        let mut i: usize = 0;
        while i < self.entries.len()
            invariant
                i <= self.entries@.len(),
                forall|j: int| 0 <= j < i ==> #[trigger] self.pairs()[j].0 != id@,
                self.pairs().len() == self.entries@.len(),
            decreases self.entries@.len() - i,
        {
            assert(self.pairs()[i as int] == program_pair(self.entries@[i as int]));
            if self.entries[i].0.same_as(id) {
                return Some(i);
            }
            i = i + 1;
        }
        proof {
            lemma_pairs_map_dom(self.pairs(), id@);
        }
        None
    }

    /// Where a program with the given identifier stands or would stand:
    /// every identifier before the place comes before it, and either it is
    /// at the place, or it comes before every identifier from there on.
    fn slot(&self, id: &ProgramId) -> (r: (usize, bool))
        ensures
            r.0 <= self.entries@.len(),
            self.pairs().len() == self.entries@.len(),
            forall|j: int| 0 <= j < r.0 ==> bytes_before(#[trigger] self.pairs()[j].0, id@),
            r.1 ==> r.0 < self.entries@.len() && self.pairs()[r.0 as int].0 == id@,
            !r.1 ==> forall|j: int|
                r.0 <= j < self.entries@.len() ==> bytes_before(id@, #[trigger] self.pairs()[j].0),
    {
        proof {
            use_type_invariant(self);
        }
        let mut i: usize = 0;
        while i < self.entries.len()
            invariant
                i <= self.entries@.len(),
                forall|j: int| 0 <= j < i ==> bytes_before(#[trigger] self.pairs()[j].0, id@),
                self.pairs().len() == self.entries@.len(),
                ids_ascending(self.pairs()),
            decreases self.entries@.len() - i,
        {
            assert(self.pairs()[i as int] == program_pair(self.entries@[i as int]));
            match self.entries[i].0.order_to(id) {
                Order::Before => {
                    i = i + 1;
                },
                Order::Same => {
                    return (i, true);
                },
                Order::After => {
                    proof {
                        assert forall|j: int| i <= j < self.entries@.len() implies bytes_before(
                            id@,
                            #[trigger] self.pairs()[j].0,
                        ) by {
                            if j > i {
                                lemma_bytes_before_transitive(id@, self.pairs()[i as int].0, self.pairs()[j].0);
                            }
                        }
                    }
                    return (i, false);
                },
            }
        }
        (i, false)
    }

    /// Adds a program, replacing one with the same identifier.
    pub fn insert(&mut self, id: ProgramId, program: WasmProgram)
        ensures
            final(self)@ == old(self)@.insert(id@, program@),
    {
        proof {
            use_type_invariant(&*self);
        }
        let (i, same) = self.slot(&id);
        let ghost old_pairs = self.pairs();
        let ghost pv = program@;
        let mut entries: Vec<(ProgramId, WasmProgram)> = Vec::new();
        std::mem::swap(&mut entries, &mut self.entries);
        assert(entries@.map_values(|e: (ProgramId, WasmProgram)| program_pair(e)) == old_pairs);
        if same {
            proof {
                lemma_pairs_map_update(old_pairs, i as int, pv);
            }
            entries.set(i, (id, program));
            assert(entries@.map_values(|e: (ProgramId, WasmProgram)| program_pair(e))
                =~= old_pairs.update(i as int, (old_pairs[i as int].0, pv)));
        } else {
            proof {
                assert forall|j: int| 0 <= j < old_pairs.len() implies #[trigger] old_pairs[j].0 != id@ by {
                    if j < i {
                        lemma_before_differs(old_pairs[j].0, id@);
                    } else {
                        lemma_before_differs(id@, old_pairs[j].0);
                    }
                }
                lemma_pairs_map_insert_new(old_pairs, i as int, id@, pv);
            }
            entries.insert(i, (id, program));
            let ghost t = old_pairs.insert(i as int, (id@, pv));
            assert(entries@.map_values(|e: (ProgramId, WasmProgram)| program_pair(e)) =~= t);
            assert forall|a: int, b: int| 0 <= a < b < t.len() implies bytes_before(#[trigger] t[a].0, #[trigger] t[b].0) by {
                if a < i && b < i {
                    assert(t[a] == old_pairs[a] && t[b] == old_pairs[b]);
                } else if a < i && b == i {
                    assert(t[a] == old_pairs[a]);
                } else if a < i {
                    assert(t[a] == old_pairs[a] && t[b] == old_pairs[b - 1]);
                } else if a == i {
                    assert(t[b] == old_pairs[b - 1]);
                } else {
                    assert(t[a] == old_pairs[a - 1] && t[b] == old_pairs[b - 1]);
                }
            }
        }
        *self = Programs { entries };
    }

    /// Sets the init message of the program with the given identifier;
    /// returns whether there is such a program.
    pub fn set_init(&mut self, id: &ProgramId, init: Message) -> (r: bool)
        ensures
            r == old(self)@.contains_key(id@),
            r ==> final(self)@ == old(self)@.insert(
                id@,
                WasmProgramView { init: Some(init@), ..old(self)@[id@] },
            ),
            !r ==> final(self)@ == old(self)@,
    {
        proof {
            use_type_invariant(&*self);
        }
        let pos = self.position(id);
        match pos {
            None => false,
            Some(i) => {
                let ghost old_pairs = self.pairs();
                let ghost iv = init@;
                let mut entries: Vec<(ProgramId, WasmProgram)> = Vec::new();
                std::mem::swap(&mut entries, &mut self.entries);
                assert(entries@.map_values(|e: (ProgramId, WasmProgram)| program_pair(e)) == old_pairs);
                let (key, mut program) = entries.remove(i);
                proof {
                    assert(program_pair((key, program)) == old_pairs[i as int]);
                    lemma_pairs_map_value(old_pairs, i as int);
                }
                program.init = Some(init);
                let ghost pv = program@;
                entries.insert(i, (key, program));
                proof {
                    lemma_pairs_map_update(old_pairs, i as int, pv);
                    assert(entries@.map_values(|e: (ProgramId, WasmProgram)| program_pair(e))
                        =~= old_pairs.update(i as int, (old_pairs[i as int].0, pv)));
                    assert(pv == WasmProgramView { init: Some(iv), ..old_pairs[i as int].1 });
                }
                *self = Programs { entries };
                true
            },
        }
    }

    /// Whether the identifiers of the list come in ascending order of their
/// bytes, as the keys of an ordered map are walked.
pub open spec fn ids_ascending<V>(s: Seq<(Seq<u8>, V)>) -> bool {
    forall|i: int, j: int| 0 <= i < j < s.len() ==> bytes_before(#[trigger] s[i].0, #[trigger] s[j].0)
}

/// Bytes that come before others differ from them.
proof fn lemma_before_differs(a: Seq<u8>, b: Seq<u8>)
    requires
        bytes_before(a, b),
    ensures
        a != b,
{
    let k = choose|k: int|
        0 <= k < a.len() && k < b.len() && a[k] < b[k] && forall|j: int|
            0 <= j < k ==> #[trigger] a[j] == b[j];
    assert(a[k] != b[k]);
}

/// Whether every program has its init message.
    pub fn all_initialized(&self) -> (r: bool)
        ensures
            r == all_initialized(self@),
    {
        proof {
            use_type_invariant(self);
        }
        let mut i: usize = 0;
        while i < self.entries.len()
            invariant
                i <= self.entries@.len(),
                forall|j: int| 0 <= j < i ==> #[trigger] self.pairs()[j].1.init is Some,
                self.pairs().len() == self.entries@.len(),
                keys_distinct(self.pairs()),
            decreases self.entries@.len() - i,
        {
            assert(self.pairs()[i as int] == program_pair(self.entries@[i as int]));
            if self.entries[i].1.init.is_none() {
                proof {
                    lemma_pairs_map_value(self.pairs(), i as int);
                }
                return false;
            }
            i = i + 1;
        }
        proof {
            assert forall|k: Seq<u8>| #[trigger] self@.contains_key(k) implies self@[k].init is Some by {
                lemma_pairs_map_dom(self.pairs(), k);
                let j = choose|j: int| 0 <= j < self.pairs().len() && #[trigger] self.pairs()[j].0 == k;
                lemma_pairs_map_value(self.pairs(), j);
            }
        }
        true
    }

    /// The programs, one pair per identifier in ascending order of
    /// identifier, taken out of the table.
    pub fn into_entries(self) -> (r: Vec<(ProgramId, WasmProgram)>)
        ensures
            pairs_map(r@.map_values(|e: (ProgramId, WasmProgram)| program_pair(e))) == self@,
            keys_distinct(r@.map_values(|e: (ProgramId, WasmProgram)| program_pair(e))),
            ids_ascending(r@.map_values(|e: (ProgramId, WasmProgram)| program_pair(e))),
    {
        proof {
            use_type_invariant(&self);
        }
        self.entries
    }

    /// The programs, one pair per identifier, in ascending order of
    /// identifier.
    pub fn entries(&self) -> (r: &Vec<(ProgramId, WasmProgram)>)
        ensures
            pairs_map(r@.map_values(|e: (ProgramId, WasmProgram)| program_pair(e))) == self@,
            keys_distinct(r@.map_values(|e: (ProgramId, WasmProgram)| program_pair(e))),
            ids_ascending(r@.map_values(|e: (ProgramId, WasmProgram)| program_pair(e))),
    {
        proof {
            use_type_invariant(self);
        }
        &self.entries
    }
}

impl View for Programs {
    type V = Map<Seq<u8>, WasmProgramView>;

    closed spec fn view(&self) -> Map<Seq<u8>, WasmProgramView> {
        pairs_map(self.pairs())
    }
}

} // verus!
