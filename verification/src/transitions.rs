//! The transition model of a finite Markov decision process: for each
//! (state, action) pair that it knows, the weighted outcomes of taking that
//! action in that state.

use vstd::prelude::*;
use crate::defs::{Discrete, Transition};

verus! {

/// The outcomes of one (state, action) pair.
#[derive(Debug)]
pub struct Entry {
    pub state: Discrete,
    pub action: Discrete,
    pub outcomes: Vec<Transition>,
}

/// A finite mapping from (state, action) pairs to lists of outcomes, which
/// keeps its pairs in the order in which they were first inserted.
#[derive(Debug)]
pub struct Transitions {
    entries: Vec<Entry>,
}

/// Whether no (state, action) pair stands twice among the entries.
pub open spec fn distinct_keys(es: Seq<Entry>) -> bool {
    forall|i: int, j: int|
        0 <= i < j < es.len() ==> !(es[i].state == es[j].state && es[i].action == es[j].action)
}

/// Whether entry `i` is that of the pair (`s`, `a`).
pub open spec fn is_slot(es: Seq<Entry>, s: Discrete, a: Discrete, i: int) -> bool {
    0 <= i < es.len() && es[i].state == s && es[i].action == a
}

/// Whether the entries hold the pair (`s`, `a`).
pub open spec fn has_key(es: Seq<Entry>, s: Discrete, a: Discrete) -> bool {
    exists|i: int| is_slot(es, s, a, i)
}

/// Whether the entries hold a pair of state `s`.
pub open spec fn has_state(es: Seq<Entry>, s: Discrete) -> bool {
    exists|i: int| 0 <= i < es.len() && (#[trigger] es[i]).state == s
}

/// The positions, in order, of the entries of state `s` among the first
/// `upto` entries.
pub open spec fn slots_of(es: Seq<Entry>, s: Discrete, upto: int) -> Seq<usize>
    decreases upto,
{
    if upto <= 0 {
        Seq::empty()
    } else if es[upto - 1].state == s {
        slots_of(es, s, upto - 1).push((upto - 1) as usize)
    } else {
        slots_of(es, s, upto - 1)
    }
}

/// Every position that `slots_of` lists is that of an entry of state `s`,
/// and every such entry is listed.
pub proof fn lemma_slots_of(es: Seq<Entry>, s: Discrete, upto: int)
    requires
        0 <= upto <= es.len(),
        es.len() <= usize::MAX,
    ensures
        forall|k: int|
            0 <= k < slots_of(es, s, upto).len() ==> 0 <= (#[trigger] slots_of(es, s, upto)[k])
                < upto && es[slots_of(es, s, upto)[k] as int].state == s,
        forall|i: int|
            0 <= i < upto && (#[trigger] es[i]).state == s ==> slots_of(es, s, upto).contains(
                i as usize,
            ),
    decreases upto,
{
    if upto > 0 {
        lemma_slots_of(es, s, upto - 1);
        let before = slots_of(es, s, upto - 1);
        let now = slots_of(es, s, upto);
        if es[upto - 1].state == s {
            assert(now == before.push((upto - 1) as usize));
            assert(now[now.len() - 1] == (upto - 1) as usize);
            assert forall|i: int| 0 <= i < upto && (#[trigger] es[i]).state == s implies now.contains(
                i as usize,
            ) by {
                if i < upto - 1 {
                    let k = choose|k: int| 0 <= k < before.len() && before[k] == i as usize;
                    assert(now[k] == i as usize);
                }
            }
        }
    }
}

impl View for Transitions {
    type V = Seq<Entry>;

    closed spec fn view(&self) -> Seq<Entry> {
        self.entries@
    }
}

impl Transitions {
    #[verifier::type_invariant]
    spec fn keys_are_distinct(self) -> bool {
        distinct_keys(self.entries@)
    }

    /// A model without entries.
    pub fn new() -> (r: Self)
        ensures
            r@.len() == 0,
    {
        Transitions { entries: Vec::new() }
    }

    /// The number of (state, action) pairs.
    pub fn len(&self) -> (r: usize)
        ensures
            r == self@.len(),
    {
        self.entries.len()
    }

    /// Whether the model has no entry.
    pub fn is_empty(&self) -> (r: bool)
        ensures
            r == (self@.len() == 0),
    {
        self.entries.len() == 0
    }

    /// The position of the entry of the pair (`s`, `a`).
    pub fn find(&self, s: Discrete, a: Discrete) -> (r: Option<usize>)
        ensures
            distinct_keys(self@),
            match r {
                Some(i) => is_slot(self@, s, a, i as int),
                None => !has_key(self@, s, a),
            },
    {
        proof {
            use_type_invariant(self);
        }
        let mut i: usize = 0;
        while i < self.entries.len()
            invariant
                i <= self.entries.len(),
                distinct_keys(self.entries@),
                forall|k: int| 0 <= k < i ==> !is_slot(self.entries@, s, a, k),
            decreases self.entries.len() - i,
        {
            if self.entries[i].state == s && self.entries[i].action == a {
                return Some(i);
            }
            i = i + 1;
        }
        None
    }

    /// Whether the model holds the pair (`s`, `a`).
    pub fn contains_key(&self, s: Discrete, a: Discrete) -> (r: bool)
        ensures
            r == has_key(self@, s, a),
    {
        self.find(s, a).is_some()
    }

    /// The outcomes of taking action `a` in state `s`.
    pub fn get(&self, s: Discrete, a: Discrete) -> (r: Option<&Vec<Transition>>)
        ensures
            match r {
                Some(ts) => exists|i: int| is_slot(self@, s, a, i) && self@[i].outcomes == *ts,
                None => !has_key(self@, s, a),
            },
    {
        match self.find(s, a) {
            Some(i) => {
                assert(is_slot(self@, s, a, i as int));
                Some(&self.entries[i].outcomes)
            },
            None => None,
        }
    }

    /// The entry at position `i`, in the order of first insertion.
    pub fn entry(&self, i: usize) -> (r: &Entry)
        requires
            i < self@.len(),
        ensures
            *r == self@[i as int],
    {
        &self.entries[i]
    }

    /// Sets the outcomes of taking action `a` in state `s`. Where the model
    /// already held that pair, its entry keeps its position and the outcomes
    /// it held are handed back; else the pair becomes the last entry.
    pub fn insert(&mut self, s: Discrete, a: Discrete, outcomes: Vec<Transition>) -> (r: Option<
        Vec<Transition>,
    >)
        ensures
            distinct_keys(final(self)@),
            match r {
                Some(old_outcomes) => exists|i: int|
                    is_slot(old(self)@, s, a, i) && old_outcomes == old(self)@[i].outcomes
                        && final(self)@ == old(self)@.update(
                        i,
                        Entry { state: s, action: a, outcomes },
                    ),
                None => !has_key(old(self)@, s, a) && final(self)@ == old(self)@.push(
                    Entry { state: s, action: a, outcomes },
                ),
            },
    {
        proof {
            use_type_invariant(&*self);
        }
        let mut entry = Entry { state: s, action: a, outcomes };
        let found: Option<usize> = self.find(s, a);
        let ghost before = self@;
        let mut entries: Vec<Entry> = Vec::new();
        std::mem::swap(&mut self.entries, &mut entries);
        let replaced: Option<Vec<Transition>> = match found {
            Some(i) => {
                assert(is_slot(before, s, a, i as int));
                entries.set_and_swap(i, &mut entry);
                Some(entry.outcomes)
            },
            None => {
                assert forall|k: int| 0 <= k < before.len() implies !(before[k].state == s
                    && before[k].action == a) by {
                    assert(!is_slot(before, s, a, k));
                }
                entries.push(entry);
                None
            },
        };
        self.entries = entries;
        replaced
    }

    /// The positions, in order, of the entries of state `s`.
    pub fn slots(&self, s: Discrete) -> (r: Vec<usize>)
        ensures
            distinct_keys(self@),
            self@.len() <= usize::MAX,
            r@ == slots_of(self@, s, self@.len() as int),
    {
        proof {
            use_type_invariant(self);
        }
        let mut out: Vec<usize> = Vec::new();
        let mut i: usize = 0;
        while i < self.entries.len()
            invariant
                i <= self.entries.len(),
                out@ == slots_of(self.entries@, s, i as int),
            decreases self.entries.len() - i,
        {
            if self.entries[i].state == s {
                out.push(i);
            }
            i = i + 1;
        }
        out
    }
}

/// Whether the pair (`s`, `a`) comes before the pair (`t`, `b`): states
/// first, then actions.
pub open spec fn pair_before(s: int, a: int, t: int, b: int) -> bool {
    s < t || (s == t && a < b)
}

/// Whether the entries stand in the order of their pairs.
pub open spec fn in_pair_order(es: Seq<Entry>) -> bool {
    forall|i: int, j: int|
        0 <= i < j < es.len() ==> pair_before(
            es[i].state as int,
            es[i].action as int,
            es[j].state as int,
            es[j].action as int,
        )
}

/// Whether the table has a list of outcomes for each of `n_a` actions in
/// each of `n_s` states.
pub open spec fn covers(table: Seq<Vec<Vec<Transition>>>, n_s: int, n_a: int) -> bool {
    n_s > 0 && n_a > 0 ==> n_s <= table.len() && forall|s: int|
        0 <= s < n_s ==> n_a <= (#[trigger] table[s]).len()
}

/// Whether the entries hold the pair (`s`, `a`) with the outcomes that the
/// table lists for it.
pub open spec fn lists(es: Seq<Entry>, table: Seq<Vec<Vec<Transition>>>, s: int, a: int) -> bool {
    exists|i: int|
        #[trigger] is_slot(es, s as Discrete, a as Discrete, i) && es[i].outcomes@ == table[s][a]@
}

/// Whether the entries are those of the table: for each of `n_a` actions in
/// each of `n_s` states the outcomes that the table lists, in the order of
/// the pairs, and nothing else.
pub open spec fn tabulates(
    es: Seq<Entry>,
    table: Seq<Vec<Vec<Transition>>>,
    n_s: int,
    n_a: int,
) -> bool {
    &&& in_pair_order(es)
    &&& forall|i: int|
        0 <= i < es.len() ==> 0 <= (#[trigger] es[i]).state < n_s && 0 <= es[i].action < n_a
    &&& forall|s: int, a: int| 0 <= s < n_s && 0 <= a < n_a ==> #[trigger] lists(es, table, s, a)
}

/// A copy of a list of outcomes.
fn copy_outcomes(outcomes: &Vec<Transition>) -> (r: Vec<Transition>)
    ensures
        r@ == outcomes@,
{
    let mut out: Vec<Transition> = Vec::new();
    let mut k: usize = 0;
    while k < outcomes.len()
        invariant
            k <= outcomes.len(),
            out@ == outcomes@.subrange(0, k as int),
        decreases outcomes.len() - k,
    {
        out.push(outcomes[k]);
        assert(out@ =~= outcomes@.subrange(0, k + 1));
        k = k + 1;
    }
    assert(outcomes@.subrange(0, outcomes@.len() as int) =~= outcomes@);
    out
}

/// Builds the model of a process with `n_s` states and `n_a` actions from a
/// table that lists, by state and by action, the outcomes of each pair:
/// the outcomes of action `a` in state `s` are `table[s][a]`. `None` where
/// the table lacks a state or an action.
pub fn transitions(n_s: Discrete, n_a: Discrete, table: &Vec<Vec<Vec<Transition>>>) -> (r: Option<
    Transitions,
>)
    ensures
        r is Some <==> covers(table@, n_s as int, n_a as int),
        r is Some ==> tabulates(r->Some_0@, table@, n_s as int, n_a as int),
{
    let mut model: Transitions = Transitions::new();
    if n_s <= 0 || n_a <= 0 {
        return Some(model);
    }
    let mut s: Discrete = 0;
    while s < n_s
        invariant
            0 <= s <= n_s,
            0 < n_a,
            covers(table@, s as int, n_a as int),
            tabulates(model@, table@, s as int, n_a as int),
        decreases n_s - s,
    {
        if s as u64 >= table.len() as u64 {
            return None;
        }
        let row: &Vec<Vec<Transition>> = &table[s as usize];
        if (row.len() as u64) < n_a as u64 {
            assert(table@[s as int].len() < n_a);
            return None;
        }
        let mut a: Discrete = 0;
        while a < n_a
            invariant
                0 <= s < n_s,
                0 <= a <= n_a,
                s < table.len(),
                *row == table@[s as int],
                n_a <= row.len(),
                in_pair_order(model@),
                forall|i: int|
                    0 <= i < model@.len() ==> 0 <= (#[trigger] model@[i]).state <= s && 0
                        <= model@[i].action < n_a && (model@[i].state == s ==> model@[i].action
                        < a),
                forall|t: int, b: int|
                    0 <= t <= s && 0 <= b < n_a && (t == s ==> b < a) ==> #[trigger] lists(
                        model@,
                        table@,
                        t,
                        b,
                    ),
            decreases n_a - a,
        {
            let ghost before = model@;
            let outcomes: Vec<Transition> = copy_outcomes(&row[a as usize]);
            let replaced: Option<Vec<Transition>> = model.insert(s, a, outcomes);
            proof {
                assert(replaced is None) by {
                    if replaced is Some {
                        let i = choose|i: int| is_slot(before, s, a, i);
                        assert(before[i].state == s && before[i].action == a);
                    }
                }
                assert forall|t: int, b: int|
                    0 <= t <= s && 0 <= b < n_a && (t == s ==> b < a + 1) implies #[trigger] lists(
                    model@,
                    table@,
                    t,
                    b,
                ) by {
                    if t == s && b == a {
                        let last = before.len() as int;
                        assert(is_slot(model@, t as Discrete, b as Discrete, last));
                        assert(model@[last].outcomes@ == table@[t][b]@);
                    } else {
                        assert(lists(before, table@, t, b));
                        let i = choose|i: int|
                            #[trigger] is_slot(before, t as Discrete, b as Discrete, i)
                                && before[i].outcomes@ == table@[t][b]@;
                        assert(model@[i] == before[i]);
                        assert(is_slot(model@, t as Discrete, b as Discrete, i));
                    }
                }
                assert forall|i: int, j: int| 0 <= i < j < model@.len() implies pair_before(
                    model@[i].state as int,
                    model@[i].action as int,
                    model@[j].state as int,
                    model@[j].action as int,
                ) by {
                    assert(model@[i] == before[i]);
                    if j < before.len() {
                        assert(model@[j] == before[j]);
                    }
                }
            }
            a = a + 1;
        }
        s = s + 1;
    }
    Some(model)
}

} // verus!
