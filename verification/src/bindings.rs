//! Variable bindings: a name-to-scalar table, read during an evaluation and
//! rewritten between evaluations (graph mode rewrites the single entry `x`
//! once per sample).

use vstd::map::*;
use vstd::prelude::*;

use crate::eval::Scalar;

verus! {

/// First value bound to `name` at or after `i`.
pub open spec fn lookup_from(entries: Seq<(String, Scalar)>, name: Seq<char>, i: int) -> Option<
    Scalar,
>
    decreases entries.len() - i,
{
    if i < 0 || i >= entries.len() {
        None
    } else if entries[i].0@ == name {
        Some(entries[i].1)
    } else {
        lookup_from(entries, name, i + 1)
    }
}

/// A mutable table of variable bindings, viewed as a map from names to
/// scalars.
pub struct Bindings {
    entries: Vec<(String, Scalar)>,
}

impl View for Bindings {
    type V = Map<Seq<char>, Scalar>;

    closed spec fn view(&self) -> Map<Seq<char>, Scalar> {
        Map::new(
            |n: Seq<char>| lookup_from(self.entries@, n, 0) is Some,
            |n: Seq<char>|
                match lookup_from(self.entries@, n, 0) {
                    Some(v) => v,
                    None => Scalar { bits: 0 },
                },
        )
    }
}

/// Lookups at or after `i` agree on sequences that agree from `i` on.
proof fn lemma_lookup_agree(
    e1: Seq<(String, Scalar)>,
    e2: Seq<(String, Scalar)>,
    name: Seq<char>,
    i: int,
)
    requires
        e1.len() == e2.len(),
        forall|j: int| i <= j < e1.len() ==> e1[j] == e2[j],
    ensures
        lookup_from(e1, name, i) == lookup_from(e2, name, i),
    decreases e1.len() - i,
{
    if 0 <= i < e1.len() {
        lemma_lookup_agree(e1, e2, name, i + 1);
    }
}

/// Replacing the value at the first entry named `nm` changes exactly the
/// lookups of `nm`.
proof fn lemma_lookup_update(
    old_e: Seq<(String, Scalar)>,
    new_e: Seq<(String, Scalar)>,
    k: int,
    val: Scalar,
    name: Seq<char>,
    i: int,
)
    requires
        0 <= i <= k < old_e.len(),
        new_e.len() == old_e.len(),
        forall|j: int| 0 <= j < old_e.len() && j != k ==> old_e[j] == new_e[j],
        new_e[k].0@ == old_e[k].0@,
        new_e[k].1 == val,
        forall|j: int| i <= j < k ==> #[trigger] old_e[j].0@ != old_e[k].0@,
    ensures
        lookup_from(new_e, name, i) == (if name == old_e[k].0@ {
            Some(val)
        } else {
            lookup_from(old_e, name, i)
        }),
    decreases old_e.len() - i,
{
    if i == k {
        if old_e[k].0@ != name {
            lemma_lookup_agree(new_e, old_e, name, k + 1);
        }
    } else {
        lemma_lookup_update(old_e, new_e, k, val, name, i + 1);
    }
}

/// Appending an entry serves exactly the lookups the table did not already
/// answer.
proof fn lemma_lookup_push(
    e: Seq<(String, Scalar)>,
    pair: (String, Scalar),
    name: Seq<char>,
    i: int,
)
    requires
        0 <= i <= e.len(),
    ensures
        lookup_from(e.push(pair), name, i) == (if lookup_from(e, name, i) is Some {
            lookup_from(e, name, i)
        } else if pair.0@ == name {
            Some(pair.1)
        } else {
            None
        }),
    decreases e.len() - i,
{
    if i < e.len() {
        lemma_lookup_push(e, pair, name, i + 1);
    } else {
        assert(e.push(pair)[i] == pair);
        if pair.0@ != name {
            assert(lookup_from(e.push(pair), name, i) == lookup_from(e.push(pair), name, i + 1));
            assert(lookup_from(e.push(pair), name, i + 1) is None);
        }
    }
}

/// A table none of whose entries carries `name` answers no lookup of `name`.
proof fn lemma_lookup_none(e: Seq<(String, Scalar)>, name: Seq<char>, i: int)
    requires
        forall|j: int| i <= j < e.len() ==> #[trigger] e[j].0@ != name,
    ensures
        lookup_from(e, name, i) is None,
    decreases e.len() - i,
{
    if 0 <= i < e.len() {
        lemma_lookup_none(e, name, i + 1);
    }
}

impl Bindings {
    /// An empty table.
    pub fn new() -> (r: Self)
        ensures
            r@ == Map::<Seq<char>, Scalar>::empty(),
    {
        let r = Bindings { entries: Vec::new() };
        proof {
            assert(r@ =~= Map::<Seq<char>, Scalar>::empty());
        }
        r
    }

    /// The value bound to `name`, if any.
    pub fn get(&self, name: &String) -> (r: Option<Scalar>)
        ensures
            r == (if self@.dom().contains(name@) {
                Some(self@[name@])
            } else {
                None
            }),
    {
        let n = self.entries.len();
        let mut k: usize = 0;
        while k < n
            invariant
                k <= n == self.entries@.len(),
                lookup_from(self.entries@, name@, 0) == lookup_from(
                    self.entries@,
                    name@,
                    k as int,
                ),
            decreases n - k,
        {
            if self.entries[k].0 == *name {
                return Some(self.entries[k].1);
            }
            k = k + 1;
        }
        None
    }

    /// Binds `name` to `val`, replacing an existing binding of that name.
    pub fn set(&mut self, name: String, val: Scalar)
        ensures
            final(self)@ == old(self)@.insert(name@, val),
    {
        let ghost old_entries = self.entries@;
        let n = self.entries.len();
        let mut k: usize = 0;
        while k < n
            invariant
                k <= n == self.entries@.len(),
                old_entries == self.entries@,
                old_entries == old(self).entries@,
                forall|j: int| 0 <= j < k ==> #[trigger] self.entries@[j].0@ != name@,
            decreases n - k,
        {
            if self.entries[k].0 == name {
                self.entries[k] = (name, val);
                proof {
                    let mnew = self.view();
                    let mtarget = old(self).view().insert(name@, val);
                    assert_maps_equal!(mnew, mtarget, m => {
                        lemma_lookup_update(old_entries, self.entries@, k as int, val, m, 0);
                    });
                }
                return ;
            }
            k = k + 1;
        }
        let ghost pair_v = (name@, val);
        self.entries.push((name, val));
        proof {
            let mnew = self.view();
            let mtarget = old(self).view().insert(pair_v.0, val);
            assert_maps_equal!(mnew, mtarget, m => {
                lemma_lookup_push(old_entries, self.entries@[old_entries.len() as int], m, 0);
                if m == pair_v.0 {
                    lemma_lookup_none(old_entries, m, 0);
                }
            });
        }
    }
}

} // verus!
