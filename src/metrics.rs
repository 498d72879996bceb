use vstd::prelude::*;

use vstd::string::StringExecFns;

use crate::keyed::Keyed;
use crate::text::{append_digits, decimal};

pub mod amap;

verus! {

/// The count stored under `k`, or zero for a key never seen.
pub open spec fn count_of(m: Map<Seq<char>, u64>, k: Seq<char>) -> nat {
    if m.dom().contains(k) {
        m[k] as nat
    } else {
        0
    }
}

/// `e` lists every key of `m` exactly once, beside its value.
pub open spec fn lists<V>(m: Map<Seq<char>, V>, e: Seq<(Seq<char>, V)>) -> bool {
    &&& forall|i: int|
        0 <= i < e.len() ==> m.dom().contains(#[trigger] e[i].0) && m[e[i].0] == e[i].1
    &&& forall|k: Seq<char>| #[trigger] m.dom().contains(k) ==> exists|i: int| 0 <= i < e.len() && e[i].0 == k
    &&& forall|i: int, j: int| 0 <= i < j < e.len() ==> #[trigger] e[i].0 != #[trigger] e[j].0
}

/// One line per entry: the key, `": "`, the value in decimal, a newline.
pub open spec fn lines_text(e: Seq<(Seq<char>, int)>) -> Seq<char>
    decreases e.len(),
{
    if e.len() == 0 {
        seq![]
    } else {
        lines_text(e.drop_last()) + e.last().0 + seq![':', ' '] + decimal(e.last().1) + seq!['\n']
    }
}

/// The entries with their counts as integers.
pub open spec fn widen(e: Seq<(Seq<char>, u64)>) -> Seq<(Seq<char>, int)> {
    e.map_values(|p: (Seq<char>, u64)| (p.0, p.1 as int))
}

/// Appends the line `key: ` to `s`.
fn append_key(s: String, key: &String) -> (r: String)
    ensures
        r@ == s@ + key@ + seq![':', ' '],
{
    proof {
        reveal_strlit(": ");
    }
    let ghost s0 = s@;
    let s = s.concat(key.as_str());
    let r = s.concat(": ");
    assert(r@ =~= s0 + key@ + seq![':', ' ']);
    r
}

/// Appends a newline to `s`.
fn end_line(s: String) -> (r: String)
    ensures
        r@ == s@ + seq!['\n'],
{
    proof {
        reveal_strlit("\n");
    }
    let r = s.concat("\n");
    assert(r@ =~= s@ + seq!['\n']);
    r
}

/// Named counters: `inc` and `dec` move one key's count by one, creating
/// the key at zero first if it is new.
#[derive(Debug)]
pub struct Metrics {
    data: Keyed<u64>,
}

impl View for Metrics {
    type V = Map<Seq<char>, u64>;

    closed spec fn view(&self) -> Map<Seq<char>, u64> {
        self.data.view()
    }
}

impl Metrics {
    pub closed spec fn wf(&self) -> bool {
        self.data.wf()
    }

    /// No counters yet.
    pub fn new() -> (m: Metrics)
        ensures
            m.wf(),
            m@ == Map::<Seq<char>, u64>::empty(),
    {
        Metrics { data: Keyed::new() }
    }

    /// Adds one to the count of `key`.
    pub fn inc(&mut self, key: &str)
        requires
            old(self).wf(),
            count_of(old(self)@, key@) < u64::MAX,
        ensures
            final(self).wf(),
            final(self)@ == old(self)@.insert(key@, (count_of(old(self)@, key@) + 1) as u64),
    {
        match self.data.find(key) {
            Some(i) => {
                let v = self.data.value_at(i);
                self.data.set_at(i, v + 1);
            },
            None => {
                self.data.add(key, 1);
            },
        }
    }

    /// Takes one from the count of `key`, which must be positive.
    pub fn dec(&mut self, key: &str)
        requires
            old(self).wf(),
            count_of(old(self)@, key@) >= 1,
        ensures
            final(self).wf(),
            final(self)@ == old(self)@.insert(key@, (count_of(old(self)@, key@) - 1) as u64),
    {
        match self.data.find(key) {
            Some(i) => {
                let v = self.data.value_at(i);
                self.data.set_at(i, v - 1);
            },
            None => {},
        }
    }

    /// Every key with its count, each key once.
    pub fn snapshot(&self) -> (r: Vec<(String, u64)>)
        requires
            self.wf(),
        ensures
            r@.len() == self@.dom().len(),
            forall|i: int|
                0 <= i < r@.len() ==> self@.dom().contains(#[trigger] r@[i].0@) && self@[r@[i].0@]
                    == r@[i].1,
            forall|k: Seq<char>|
                #[trigger] self@.dom().contains(k) ==> exists|i: int|
                    0 <= i < r@.len() && r@[i].0@ == k,
            forall|i: int, j: int|
                0 <= i < j < r@.len() ==> #[trigger] r@[i].0@ != #[trigger] r@[j].0@,
    {
        self.data.entries()
    }

    /// One `key: count` line per counter.
    pub fn to_string(&self) -> (r: String)
        requires
            self.wf(),
        ensures
            exists|e: Seq<(Seq<char>, u64)>|
                lists(self@, e) && r@ == lines_text(
                    widen(e),
                ),
    {
        let entries = self.snapshot();
        let ghost e = entries@.map_values(|p: (String, u64)| (p.0@, p.1));
        let mut s = String::new();
        let mut i: usize = 0;
        while i < entries.len()
            invariant
                i <= entries@.len(),
                e == entries@.map_values(|p: (String, u64)| (p.0@, p.1)),
                s@ == lines_text(
                    widen(e.take(i as int)),
                ),
            decreases entries@.len() - i,
        {
            let ghost before = widen(e.take(i as int));
            let ghost after = widen(e.take(i + 1));
            s = append_key(s, &entries[i].0);
            s = append_digits(s, entries[i].1);
            s = end_line(s);
            assert(after.drop_last() =~= before);
            i = i + 1;
        }
        assert(e.take(entries@.len() as int) =~= e);
        assert(s@ == lines_text(widen(e)));
        assert forall|t: int| 0 <= t < e.len() implies self@.dom().contains(#[trigger] e[t].0)
            && self@[e[t].0] == e[t].1 by {
            assert(e[t].0 == entries@[t].0@);
        }
        assert forall|k: Seq<char>| #[trigger] self@.dom().contains(k) implies exists|t: int|
            0 <= t < e.len() && e[t].0 == k by {
            let t = choose|t: int| 0 <= t < entries@.len() && entries@[t].0@ == k;
            assert(e[t].0 == k);
        }
        assert forall|a: int, b: int| 0 <= a < b < e.len() implies #[trigger] e[a].0 != #[trigger] e[b].0 by {
            assert(entries@[a].0@ != entries@[b].0@);
        }
        assert(lists(self@, e) && s@ == lines_text(widen(e)));
        s
    }
}

} // verus!
