//! Finding things in sequences: the first that answers, and how many differ.

use vstd::prelude::*;

verus! {

/// The place of the first element that `p` holds of.
pub open spec fn first_where<T>(s: Seq<T>, p: spec_fn(T) -> bool) -> Option<int>
    decreases s.len(),
{
    if s.len() == 0 {
        None
    } else {
        match first_where(s.drop_last(), p) {
            Some(i) => Some(i),
            None => if p(s.last()) {
                Some(s.len() - 1)
            } else {
                None
            },
        }
    }
}

/// Nothing before `n` answers.
pub open spec fn none_before<T>(s: Seq<T>, p: spec_fn(T) -> bool, n: int) -> bool {
    forall|i: int| 0 <= i < n ==> !p(#[trigger] s[i])
}

/// An element that answers, after none that does, is the first.
pub proof fn first_is<T>(s: Seq<T>, p: spec_fn(T) -> bool, i: int)
    requires
        0 <= i < s.len(),
        p(s[i]),
        none_before(s, p, i),
    ensures
        first_where(s, p) == Some(i),
    decreases s.len(),
{
    if i == s.len() - 1 {
        let front = s.drop_last();
        assert forall|j: int| 0 <= j < front.len() implies !p(#[trigger] front[j]) by {
            assert(front[j] == s[j]);
        }
        first_is_none(front, p);
    } else {
        let front = s.drop_last();
        assert forall|j: int| 0 <= j < i implies !p(#[trigger] front[j]) by {
            assert(front[j] == s[j]);
        }
        first_is(front, p, i);
    }
}

/// Where nothing answers there is no first.
pub proof fn first_is_none<T>(s: Seq<T>, p: spec_fn(T) -> bool)
    requires
        none_before(s, p, s.len() as int),
    ensures
        first_where(s, p) is None,
    decreases s.len(),
{
    if s.len() > 0 {
        let front = s.drop_last();
        assert forall|j: int| 0 <= j < front.len() implies !p(#[trigger] front[j]) by {
            assert(front[j] == s[j]);
        }
        first_is_none(front, p);
        assert(!p(s[s.len() - 1]));
    }
}

/// What the first place found means.
pub proof fn first_means<T>(s: Seq<T>, p: spec_fn(T) -> bool)
    ensures
        match first_where(s, p) {
            Some(i) => 0 <= i < s.len() && p(s[i]) && none_before(s, p, i),
            None => none_before(s, p, s.len() as int),
        },
    decreases s.len(),
{
    if s.len() > 0 {
        let front = s.drop_last();
        first_means(front, p);
        match first_where(front, p) {
            Some(i) => {
                assert(front[i] == s[i]);
                assert forall|j: int| 0 <= j < i implies !p(#[trigger] s[j]) by {
                    assert(front[j] == s[j]);
                }
            },
            None => {
                assert forall|j: int| 0 <= j < s.len() - 1 implies !p(#[trigger] s[j]) by {
                    assert(front[j] == s[j]);
                }
            },
        }
    }
}

/// Whether `x` is among the first `n` of `s`.
fn seen_before(s: &Vec<u64>, n: usize, x: u64) -> (r: bool)
    requires
        n <= s@.len(),
    ensures
        r == s@.take(n as int).contains(x),
{
    let mut i: usize = 0;
    while i < n
        invariant
            i <= n <= s@.len(),
            forall|j: int| 0 <= j < i ==> s@[j] != x,
        decreases n - i,
    {
        if s[i] == x {
            proof {
                assert(s@.take(n as int)[i as int] == x);
            }
            return true;
        }
        i = i + 1;
    }
    proof {
        if s@.take(n as int).contains(x) {
            let j = s@.take(n as int).index_of(x);
            assert(s@[j] == x);
        }
    }
    false
}

/// How many different values `s` holds.
pub fn count_distinct(s: &Vec<u64>) -> (r: usize)
    ensures
        r == s@.to_set().len(),
{
    let mut count: usize = 0;
    let mut i: usize = 0;
    proof {
        assert(s@.take(0).to_set() =~= Set::<u64>::empty());
    }
    while i < s.len()
        invariant
            i <= s.len(),
            count <= i,
            count == s@.take(i as int).to_set().len(),
            s@.take(i as int).to_set().finite(),
        decreases s.len() - i,
    {
        let x: u64 = s[i];
        let old_one: bool = seen_before(s, i, x);
        proof {
            let before = s@.take(i as int);
            let after = s@.take(i + 1);
            assert(after =~= before.push(x));
            assert(after.to_set() =~= before.to_set().insert(x)) by {
                assert forall|y: u64| #[trigger] after.to_set().contains(y)
                    <==> before.to_set().insert(x).contains(y) by {
                    if after.contains(y) {
                        let j = after.index_of(y);
                        if j < i {
                            assert(before[j] == y);
                        }
                    }
                    if before.contains(y) {
                        let j = before.index_of(y);
                        assert(after[j] == y);
                    }
                    if y == x {
                        assert(after[i as int] == y);
                    }
                }
            }
        }
        if !old_one {
            count = count + 1;
        }
        i = i + 1;
    }
    proof {
        assert(s@.take(i as int) =~= s@);
    }
    count
}

} // verus!
