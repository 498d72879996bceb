use vstd::prelude::*;

use crate::keyed::Keyed;
use crate::metrics::{append_key, end_line, lines_text, lists};
use crate::text::append_decimal;

verus! {

/// The entries with their counts as integers.
pub open spec fn widen_signed(e: Seq<(Seq<char>, i64)>) -> Seq<(Seq<char>, int)> {
    e.map_values(|p: (Seq<char>, i64)| (p.0, p.1 as int))
}

/// Signed counters over a fixed set of names, chosen when the counters are
/// made; counts wrap around on overflow.
#[derive(Debug)]
pub struct AmapMetrics {
    data: Keyed<i64>,
}

impl View for AmapMetrics {
    type V = Map<Seq<char>, i64>;

    closed spec fn view(&self) -> Map<Seq<char>, i64> {
        self.data.view()
    }
}

impl AmapMetrics {
    pub closed spec fn wf(&self) -> bool {
        self.data.wf()
    }

    /// One counter at zero for each distinct name in `init_data`.
    pub fn new(init_data: &[&str]) -> (m: AmapMetrics)
        ensures
            m.wf(),
            m@ == Map::new(
                |k: Seq<char>| exists|i: int| 0 <= i < init_data@.len() && init_data@[i]@ == k,
                |k: Seq<char>| 0i64,
            ),
    {
        let mut data: Keyed<i64> = Keyed::new();
        let mut i: usize = 0;
        while i < init_data.len()
            invariant
                data.wf(),
                i <= init_data@.len(),
                data.view() == Map::new(
                    |k: Seq<char>| exists|t: int| 0 <= t < i && init_data@[t]@ == k,
                    |k: Seq<char>| 0i64,
                ),
            decreases init_data@.len() - i,
        {
            let name: &str = init_data[i];
            let ghost before = data.view();
            if data.find(name).is_none() {
                data.add(name, 0);
            }
            proof {
                let target = Map::new(
                    |k: Seq<char>| exists|t: int| 0 <= t < i + 1 && init_data@[t]@ == k,
                    |k: Seq<char>| 0i64,
                );
                assert forall|k: Seq<char>|
                    data.view().dom().contains(k) <==> #[trigger] target.dom().contains(k) by {
                    if target.dom().contains(k) {
                        let t = choose|t: int| 0 <= t < i + 1 && init_data@[t]@ == k;
                        if t < i {
                            assert(before.dom().contains(k));
                        }
                    }
                }
                assert(data.view() =~= target);
            }
            i = i + 1;
        }
        AmapMetrics { data }
    }

    /// Adds one, wrapping around, to the counter named `key`, which must be
    /// one of the names the counters were made with.
    pub fn inc(&mut self, key: &str)
        requires
            old(self).wf(),
            old(self)@.dom().contains(key@),
        ensures
            final(self).wf(),
            final(self)@ == old(self)@.insert(key@, old(self)@[key@].wrapping_add(1)),
    {
        match self.data.find(key) {
            Some(i) => {
                let v = self.data.value_at(i);
                self.data.set_at(i, v.wrapping_add(1));
            },
            None => {},
        }
    }

    /// The counter named `key`, if there is one.
    pub fn get(&self, key: &str) -> (r: Option<i64>)
        requires
            self.wf(),
        ensures
            r is Some <==> self@.dom().contains(key@),
            r matches Some(v) ==> v == self@[key@],
    {
        match self.data.find(key) {
            Some(i) => Some(self.data.value_at(i)),
            None => None,
        }
    }

    /// One `name: count` line per counter.
    pub fn to_string(&self) -> (r: String)
        requires
            self.wf(),
        ensures
            exists|e: Seq<(Seq<char>, i64)>| lists(self@, e) && r@ == lines_text(widen_signed(e)),
    {
        let entries = self.data.entries();
        let ghost e = entries@.map_values(|p: (String, i64)| (p.0@, p.1));
        let mut s = String::new();
        let mut i: usize = 0;
        while i < entries.len()
            invariant
                i <= entries@.len(),
                e == entries@.map_values(|p: (String, i64)| (p.0@, p.1)),
                s@ == lines_text(widen_signed(e.take(i as int))),
            decreases entries@.len() - i,
        {
            let ghost before = widen_signed(e.take(i as int));
            let ghost after = widen_signed(e.take(i + 1));
            s = append_key(s, &entries[i].0);
            s = append_decimal(s, entries[i].1);
            s = end_line(s);
            assert(after.drop_last() =~= before);
            i = i + 1;
        }
        assert(e.take(entries@.len() as int) =~= e);
        assert forall|t: int| 0 <= t < e.len() implies self@.dom().contains(#[trigger] e[t].0)
            && self@[e[t].0] == e[t].1 by {
            assert(e[t].0 == entries@[t].0@);
        }
        assert forall|k: Seq<char>| #[trigger] self@.dom().contains(k) implies exists|t: int|
            0 <= t < e.len() && e[t].0 == k by {
            let t = choose|t: int| 0 <= t < entries@.len() && entries@[t].0@ == k;
            assert(e[t].0 == k);
        }
        assert forall|a: int, b: int| 0 <= a < b < e.len() implies #[trigger] e[a].0 != #[trigger] e[b].0 by {
            assert(entries@[a].0@ != entries@[b].0@);
        }
        assert(lists(self@, e) && s@ == lines_text(widen_signed(e)));
        s
    }
}

} // verus!
