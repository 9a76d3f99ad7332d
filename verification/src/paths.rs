//! A map from dotted paths, kept in the order of the paths.
//!
//! The order is part of what the map is for: a settings file written from it
//! comes out the same on every machine.

use vstd::prelude::*;

use crate::text::{before, comes_before, order_carries, order_is_total};

verus! {

/// Values by path.
pub struct PathMap<V> {
    entries: Vec<(String, V)>,
}

/// Entries in the order of their paths, no path twice.
pub open spec fn sorted<T>(s: Seq<(Seq<char>, T)>) -> bool {
    forall|i: int, j: int| 0 <= i < j < s.len() ==> before(#[trigger] s[i].0, #[trigger] s[j].0)
}

/// Whether a path is among the entries.
pub open spec fn listed<T>(s: Seq<(Seq<char>, T)>, k: Seq<char>) -> bool {
    exists|i: int| 0 <= i < s.len() && #[trigger] s[i].0 == k
}

/// The value that the entries give a path.
pub open spec fn value_for<T>(s: Seq<(Seq<char>, T)>, k: Seq<char>) -> T {
    s[choose|i: int| 0 <= i < s.len() && #[trigger] s[i].0 == k].1
}

/// The entries as a map.
pub open spec fn as_map<T>(s: Seq<(Seq<char>, T)>) -> Map<Seq<char>, T> {
    Map::new(|k: Seq<char>| listed(s, k), |k: Seq<char>| value_for(s, k))
}

proof fn found_entry<T>(s: Seq<(Seq<char>, T)>, i: int)
    requires
        sorted(s),
        0 <= i < s.len(),
    ensures
        listed(s, s[i].0),
        value_for(s, s[i].0) == s[i].1,
{
    let j = choose|j: int| 0 <= j < s.len() && #[trigger] s[j].0 == s[i].0;
    order_is_total(s[i].0, s[j].0);
}

/// The number of entries is the size of the map.
proof fn map_size<T>(s: Seq<(Seq<char>, T)>)
    requires
        sorted(s),
    ensures
        as_map(s).dom().finite(),
        as_map(s).len() == s.len(),
{
    let keys = Seq::new(s.len(), |i: int| s[i].0);
    assert(keys.no_duplicates()) by {
        assert forall|i: int, j: int|
            0 <= i < keys.len() && 0 <= j < keys.len() && i != j implies keys[i] != keys[j] by {
            order_is_total(s[i].0, s[j].0);
            order_is_total(s[j].0, s[i].0);
        }
    }
    keys.unique_seq_to_set();
    assert(as_map(s).dom() =~= keys.to_set()) by {
        assert forall|k: Seq<char>| as_map(s).dom().contains(k) == keys.to_set().contains(k) by {
            if listed(s, k) {
                let i = choose|i: int| 0 <= i < s.len() && #[trigger] s[i].0 == k;
                assert(keys[i] == k);
            }
            if keys.contains(k) {
                let i = keys.index_of(k);
                assert(s[i].0 == k);
            }
        }
    }
}

/// A map has one list of entries: two lists in order that make the same map are
/// the same.
pub proof fn order_is_unique<T>(a: Seq<(Seq<char>, T)>, b: Seq<(Seq<char>, T)>)
    requires
        sorted(a),
        sorted(b),
        as_map(a) == as_map(b),
    ensures
        a == b,
    decreases a.len(),
{
    map_size(a);
    map_size(b);
    if a.len() > 0 {
        let n = a.len() - 1;
        found_entry(a, n);
        found_entry(b, n);
        // The greatest path is the greatest in both.
        assert(a[n].0 == b[n].0) by {
            assert(as_map(b).dom().contains(a[n].0));
            assert(as_map(a).dom().contains(b[n].0));
            let i = choose|i: int| 0 <= i < b.len() && #[trigger] b[i].0 == a[n].0;
            let j = choose|j: int| 0 <= j < a.len() && #[trigger] a[j].0 == b[n].0;
            if i != n {
                assert(before(b[i].0, b[n].0));
                if j != n {
                    assert(before(a[j].0, a[n].0));
                    order_is_total(a[n].0, b[n].0);
                } else {
                    order_is_total(a[n].0, b[n].0);
                }
            }
        }
        assert(a[n].1 == b[n].1) by {
            let k = a[n].0;
            assert(as_map(a).dom().contains(k) && as_map(b).dom().contains(k));
            assert(as_map(a)[k] == value_for(a, k) && as_map(b)[k] == value_for(b, k));
        }
        let (p, q) = (a.drop_last(), b.drop_last());
        without_last(a);
        without_last(b);
        order_is_unique(p, q);
        assert(a =~= p.push(a[n]));
        assert(b =~= q.push(b[n]));
    } else {
        assert(a =~= b);
    }
}

proof fn without_last<T>(s: Seq<(Seq<char>, T)>)
    requires
        sorted(s),
        s.len() > 0,
    ensures
        sorted(s.drop_last()),
        as_map(s.drop_last()) == as_map(s).remove(s.last().0),
{
    removed_entry(s, s.len() - 1);
    assert(s.remove(s.len() - 1) =~= s.drop_last());
}

/// Taking out an entry takes its path out of the map.
proof fn removed_entry<T>(s: Seq<(Seq<char>, T)>, i: int)
    requires
        sorted(s),
        0 <= i < s.len(),
    ensures
        sorted(s.remove(i)),
        as_map(s.remove(i)) == as_map(s).remove(s[i].0),
{
    let t = s.remove(i);
    let k = s[i].0;
    assert forall|x: int, y: int| 0 <= x < y < t.len() implies before(
        #[trigger] t[x].0,
        #[trigger] t[y].0,
    ) by {
        let x0 = if x < i {
            x
        } else {
            x + 1
        };
        let y0 = if y < i {
            y
        } else {
            y + 1
        };
        assert(t[x] == s[x0] && t[y] == s[y0]);
        assert(before(s[x0].0, s[y0].0));
    }
    assert forall|q: Seq<char>| as_map(t).dom().contains(q) == as_map(s).remove(k).dom().contains(
        q,
    ) by {
        if listed(t, q) {
            let x = choose|x: int| 0 <= x < t.len() && #[trigger] t[x].0 == q;
            let x0 = if x < i {
                x
            } else {
                x + 1
            };
            assert(s[x0].0 == q);
            order_is_total(s[x0].0, s[i].0);
            order_is_total(s[i].0, s[x0].0);
        }
        if listed(s, q) && q != k {
            let x0 = choose|x: int| 0 <= x < s.len() && #[trigger] s[x].0 == q;
            let x = if x0 < i {
                x0
            } else {
                x0 - 1
            };
            assert(t[x].0 == q);
        }
    }
    assert forall|q: Seq<char>| listed(t, q) implies value_for(t, q) == value_for(s, q) by {
        let x = choose|x: int| 0 <= x < t.len() && #[trigger] t[x].0 == q;
        let x0 = if x < i {
            x
        } else {
            x + 1
        };
        assert(t[x] == s[x0]);
        found_entry(t, x);
        found_entry(s, x0);
    }
    assert(as_map(t) =~= as_map(s).remove(k));
}

/// Changing an entry's value changes it in the map.
proof fn changed_entry<T>(s: Seq<(Seq<char>, T)>, i: int, v: T)
    requires
        sorted(s),
        0 <= i < s.len(),
    ensures
        sorted(s.update(i, (s[i].0, v))),
        as_map(s.update(i, (s[i].0, v))) == as_map(s).insert(s[i].0, v),
{
    let k = s[i].0;
    let t = s.update(i, (k, v));
    assert forall|x: int, y: int| 0 <= x < y < t.len() implies before(
        #[trigger] t[x].0,
        #[trigger] t[y].0,
    ) by {
        assert(before(s[x].0, s[y].0));
    }
    assert forall|q: Seq<char>| listed(t, q) == listed(s, q) by {
        if listed(t, q) {
            let x = choose|x: int| 0 <= x < t.len() && #[trigger] t[x].0 == q;
            assert(s[x].0 == q);
        }
        if listed(s, q) {
            let x = choose|x: int| 0 <= x < s.len() && #[trigger] s[x].0 == q;
            assert(t[x].0 == q);
        }
    }
    found_entry(s, i);
    assert forall|q: Seq<char>| listed(t, q) implies value_for(t, q) == as_map(s).insert(k, v)[q] by {
        let x = choose|x: int| 0 <= x < t.len() && #[trigger] t[x].0 == q;
        found_entry(t, x);
        found_entry(s, x);
        if x == i {
            assert(q == k);
        } else {
            order_is_total(s[x].0, s[i].0);
            order_is_total(s[i].0, s[x].0);
        }
    }
    assert(as_map(t) =~= as_map(s).insert(k, v));
}

/// Putting an entry where its path belongs puts it in the map.
proof fn added_entry<T>(s: Seq<(Seq<char>, T)>, i: int, k: Seq<char>, v: T)
    requires
        sorted(s),
        0 <= i <= s.len(),
        forall|j: int| 0 <= j < i ==> before(#[trigger] s[j].0, k),
        forall|j: int| i <= j < s.len() ==> before(k, #[trigger] s[j].0),
    ensures
        sorted(s.insert(i, (k, v))),
        as_map(s.insert(i, (k, v))) == as_map(s).insert(k, v),
{
    let t = s.insert(i, (k, v));
    assert forall|x: int, y: int| 0 <= x < y < t.len() implies before(
        #[trigger] t[x].0,
        #[trigger] t[y].0,
    ) by {
        if x < i && y > i {
            assert(t[x] == s[x] && t[y] == s[y - 1]);
            assert(before(s[x].0, s[y - 1].0));
        } else if x < i && y < i {
            assert(before(s[x].0, s[y].0));
        } else if x > i {
            assert(before(s[x - 1].0, s[y - 1].0));
        }
    }
    assert(t[i] == (k, v));
    found_entry(t, i);
    assert forall|q: Seq<char>| listed(t, q) == (listed(s, q) || q == k) by {
        if listed(t, q) {
            let x = choose|x: int| 0 <= x < t.len() && #[trigger] t[x].0 == q;
            if x < i {
                assert(s[x].0 == q);
            } else if x > i {
                assert(s[x - 1].0 == q);
            }
        }
        if listed(s, q) {
            let x = choose|x: int| 0 <= x < s.len() && #[trigger] s[x].0 == q;
            if x < i {
                assert(t[x].0 == q);
            } else {
                assert(t[x + 1].0 == q);
            }
        }
    }
    assert forall|q: Seq<char>| listed(t, q) implies value_for(t, q) == as_map(s).insert(k, v)[q] by {
        let x = choose|x: int| 0 <= x < t.len() && #[trigger] t[x].0 == q;
        found_entry(t, x);
        if x < i {
            found_entry(s, x);
            order_is_total(s[x].0, k);
        } else if x > i {
            found_entry(s, x - 1);
            order_is_total(k, s[x - 1].0);
        }
    }
    assert(as_map(t) =~= as_map(s).insert(k, v));
}

impl<V: View> PathMap<V> {
    /// The entries, in order.
    pub closed spec fn entries(&self) -> Seq<(Seq<char>, V::V)> {
        Seq::new(self.entries@.len(), |i: int| (self.entries@[i].0@, self.entries@[i].1@))
    }

    /// The entries are in order, no path twice.
    pub open spec fn wf(&self) -> bool {
        sorted(self.entries())
    }

    /// The value of each path that has one.
    pub open spec fn view(&self) -> Map<Seq<char>, V::V> {
        as_map(self.entries())
    }

    /// A map without entries.
    pub fn new() -> (r: PathMap<V>)
        ensures
            r.wf(),
            r.entries().len() == 0,
            r@ == Map::<Seq<char>, V::V>::empty(),
    {
        let r = PathMap { entries: Vec::new() };
        proof {
            assert(r@ =~= Map::<Seq<char>, V::V>::empty());
        }
        r
    }

    /// The number of entries.
    pub fn len(&self) -> (r: usize)
        requires
            self.wf(),
        ensures
            r == self@.len(),
            r == self.entries().len(),
    {
        proof {
            map_size(self.entries());
        }
        self.entries.len()
    }

    /// Whether there are none.
    pub fn is_empty(&self) -> (r: bool)
        requires
            self.wf(),
        ensures
            r == (self@.len() == 0),
            r == (self.entries().len() == 0),
    {
        self.len() == 0
    }

    /// The first entry whose path is not before `path`.
    fn place(&self, path: &str) -> (r: usize)
        requires
            self.wf(),
        ensures
            r <= self.entries().len() == self.entries@.len(),
            forall|j: int| 0 <= j < r ==> before(#[trigger] self.entries()[j].0, path@),
            r < self.entries().len() ==> !before(self.entries()[r as int].0, path@),
    {
        let mut i: usize = 0;
        while i < self.entries.len() && comes_before(self.entries[i].0.as_str(), path)
            invariant
                i <= self.entries@.len() == self.entries().len(),
                forall|j: int| 0 <= j < i ==> before(#[trigger] self.entries()[j].0, path@),
            decreases self.entries@.len() - i,
        {
            i = i + 1;
        }
        i
    }

    /// Where the entries from `r` on stand to `path`.
    proof fn beyond(&self, r: int, path: Seq<char>)
        requires
            self.wf(),
            0 <= r <= self.entries().len(),
            forall|j: int| 0 <= j < r ==> before(#[trigger] self.entries()[j].0, path),
            r < self.entries().len() ==> !before(self.entries()[r].0, path),
        ensures
            forall|j: int|
                r < j < self.entries().len() ==> before(path, #[trigger] self.entries()[j].0),
            r < self.entries().len() ==> (self.entries()[r].0 == path) == !before(
                path,
                self.entries()[r].0,
            ),
            listed(self.entries(), path) == (r < self.entries().len() && self.entries()[r].0
                == path),
    {
        let s = self.entries();
        if r < s.len() {
            order_is_total(s[r].0, path);
            assert forall|j: int| r < j < s.len() implies before(path, #[trigger] s[j].0) by {
                assert(before(s[r].0, s[j].0));
                if s[r].0 != path {
                    order_carries(path, s[r].0, s[j].0);
                }
            }
        }
        if listed(s, path) {
            let j = choose|j: int| 0 <= j < s.len() && #[trigger] s[j].0 == path;
            order_is_total(path, path);
            assert(j == r);
        }
    }

    /// The value of a path.
    pub fn get(&self, path: &str) -> (r: Option<&V>)
        requires
            self.wf(),
        ensures
            match r {
                Some(v) => self@.contains_key(path@) && self@[path@] == v@,
                None => !self@.contains_key(path@),
            },
    {
        let i: usize = self.place(path);
        proof {
            self.beyond(i as int, path@);
        }
        if i < self.entries.len() && !comes_before(path, self.entries[i].0.as_str()) {
            proof {
                found_entry(self.entries(), i as int);
            }
            Some(&self.entries[i].1)
        } else {
            None
        }
    }

    /// Whether a path has a value.
    pub fn contains_key(&self, path: &str) -> (r: bool)
        requires
            self.wf(),
        ensures
            r == self@.contains_key(path@),
    {
        self.get(path).is_some()
    }

    /// Give a path a value.
    pub fn insert(&mut self, path: String, value: V)
        requires
            old(self).wf(),
        ensures
            final(self).wf(),
            final(self)@ == old(self)@.insert(path@, value@),
    {
        let i: usize = self.place(path.as_str());
        let ghost s = self.entries();
        let ghost k = path@;
        proof {
            self.beyond(i as int, k);
        }
        if i < self.entries.len() && !comes_before(path.as_str(), self.entries[i].0.as_str()) {
            let ghost v = value@;
            self.entries.set(i, (path, value));
            proof {
                changed_entry(s, i as int, v);
                assert(self.entries() =~= s.update(i as int, (k, v)));
            }
        } else {
            let ghost v = value@;
            self.entries.insert(i, (path, value));
            proof {
                added_entry(s, i as int, k, v);
                assert(self.entries() =~= s.insert(i as int, (k, v)));
            }
        }
    }

    /// Take a path's value away.
    pub fn remove(&mut self, path: &str)
        requires
            old(self).wf(),
        ensures
            final(self).wf(),
            final(self)@ == old(self)@.remove(path@),
    {
        let i: usize = self.place(path);
        let ghost s = self.entries();
        proof {
            self.beyond(i as int, path@);
        }
        if i < self.entries.len() && !comes_before(path, self.entries[i].0.as_str()) {
            self.entries.remove(i);
            proof {
                removed_entry(s, i as int);
                assert(self.entries() =~= s.remove(i as int));
            }
        } else {
            proof {
                assert(as_map(s) =~= as_map(s).remove(path@));
            }
        }
    }

    /// The path of one entry.
    pub fn key(&self, i: usize) -> (r: &str)
        requires
            i < self.entries().len(),
        ensures
            r@ == self.entries()[i as int].0,
    {
        self.entries[i].0.as_str()
    }

    /// The value of one entry.
    pub fn value(&self, i: usize) -> (r: &V)
        requires
            i < self.entries().len(),
        ensures
            r@ == self.entries()[i as int].1,
    {
        &self.entries[i].1
    }
}

} // verus!
