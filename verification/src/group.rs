//! The session group: a keyed collection of independent client sessions,
//! and the scatter/gather aggregation over their answers.
//!
//! The sessions themselves — their transports and loop tasks — live
//! outside this crate.  The group's core keeps the keys, and aggregates
//! the per-session results: successes are concatenated in session order,
//! failures are skipped (the embedding logs them).

use vstd::prelude::*;
use crate::types::{ListToolsResult, ListToolsResultV, Tool, ToolV};

verus! {

/// The keys of the sessions a group holds.
pub struct ClientSessionGroup {
    pub keys: Vec<String>,
}

pub open spec fn group_has(keys: Seq<Seq<char>>, id: Seq<char>) -> bool {
    exists|i: int| 0 <= i < keys.len() && keys[i] == id
}

impl ClientSessionGroup {
    /// An empty group.
    pub fn new() -> (g: ClientSessionGroup)
        ensures
            g.keys.deep_view() =~= Seq::<Seq<char>>::empty(),
    {
        let g = ClientSessionGroup { keys: Vec::new() };
        proof {
            assert(g.keys.deep_view() =~= Seq::<Seq<char>>::empty());
        }
        g
    }

    /// Whether a session is registered under the given key.
    pub fn has_client(&self, id: &str) -> (r: bool)
        ensures
            r == group_has(self.keys.deep_view(), id@),
    {
        let n = self.keys.len();
        let mut i: usize = 0;
        while i < n
            invariant
                n == self.keys@.len(),
                i <= n,
                forall|k: int| 0 <= k < i ==> self.keys.deep_view()[k] != id@,
            decreases n - i,
        {
            if crate::codec::str_eq(self.keys[i].as_str(), id) {
                proof {
                    assert(self.keys.deep_view()[i as int] == id@);
                }
                return true;
            }
            i = i + 1;
        }
        false
    }

    /// Adds a session under a key.  Adding a key again replaces that
    /// session; the key set is unchanged.
    pub fn add_client(&mut self, id: String)
        ensures
            final(self).keys.deep_view() == (if group_has(old(self).keys.deep_view(), id@) {
                old(self).keys.deep_view()
            } else {
                old(self).keys.deep_view().push(id@)
            }),
    {
        if !self.has_client(id.as_str()) {
            let ghost prev = self.keys.deep_view();
            self.keys.push(id);
            proof {
                assert(self.keys.deep_view() =~= prev.push(id@));
            }
        }
    }

    /// Removes the session under a key; its loop task is then dropped by
    /// the embedding.
    pub fn remove_client(&mut self, id: &str)
        ensures
            !group_has(final(self).keys.deep_view(), id@),
            forall|k: Seq<char>|
                k != id@ ==> (group_has(final(self).keys.deep_view(), k) == group_has(
                    old(self).keys.deep_view(),
                    k,
                )),
    {
        let ghost prev = self.keys.deep_view();
        let mut kept: Vec<String> = Vec::new();
        let n = self.keys.len();
        let mut i: usize = 0;
        while i < n
            invariant
                n == self.keys@.len(),
                i <= n,
                prev == self.keys.deep_view(),
                prev.len() == n,
                forall|j: int| 0 <= j < kept.deep_view().len() ==> kept.deep_view()[j] != id@,
                forall|j: int|
                    0 <= j < kept.deep_view().len() ==> group_has(
                        prev,
                        #[trigger] kept.deep_view()[j],
                    ),
                forall|j: int|
                    0 <= j < i && prev[j] != id@ ==> group_has(
                        kept.deep_view(),
                        #[trigger] prev[j],
                    ),
            decreases n - i,
        {
            let ghost prevkept = kept.deep_view();
            if !crate::codec::str_eq(self.keys[i].as_str(), id) {
                let k = self.keys[i].clone();
                kept.push(k);
                proof {
                    assert(kept.deep_view() =~= prevkept.push(prev[i as int]));
                    assert forall|j: int| 0 <= j < kept.deep_view().len() implies group_has(
                        prev,
                        #[trigger] kept.deep_view()[j],
                    ) by {
                        if j < prevkept.len() {
                        } else {
                            assert(kept.deep_view()[j] == prev[i as int]);
                        }
                    }
                    assert forall|j: int| 0 <= j <= i && prev[j] != id@ implies group_has(
                        kept.deep_view(),
                        #[trigger] prev[j],
                    ) by {
                        if j < i {
                            let w = choose|l: int|
                                0 <= l < prevkept.len() && prevkept[l] == prev[j];
                            assert(kept.deep_view()[w] == prev[j]);
                        } else {
                            assert(kept.deep_view()[prevkept.len() as int] == prev[i as int]);
                        }
                    }
                }
            } else {
                proof {
                    assert(prev[i as int] == id@);
                }
            }
            i = i + 1;
        }
        self.keys = kept;
        proof {
            let f = self.keys.deep_view();
            if group_has(f, id@) {
                let w = choose|l: int| 0 <= l < f.len() && f[l] == id@;
                assert(f[w] != id@);
            }
            assert forall|k: Seq<char>| k != id@ implies (group_has(f, k) == group_has(prev, k))
                by {
                if group_has(prev, k) {
                    let w = choose|l: int| 0 <= l < prev.len() && prev[l] == k;
                    assert(group_has(f, prev[w]));
                }
                if group_has(f, k) {
                    let w = choose|l: int| 0 <= l < f.len() && f[l] == k;
                    assert(group_has(prev, f[w]));
                }
            }
        }
    }
}

/// The concatenation of the successful sessions' tools, in session order.
pub open spec fn spec_aggregate_tools(results: Seq<Option<ListToolsResultV>>) -> Seq<ToolV>
    decreases results,
{
    if results.len() == 0 {
        Seq::empty()
    } else {
        spec_aggregate_tools(results.drop_last()) + (match results.last() {
            Some(r) => r.tools,
            None => Seq::empty(),
        })
    }
}

/// Gathers the per-session answers of `tools/list`: the tools of every
/// session that answered, concatenated in session order; sessions that
/// failed contribute nothing.
pub fn aggregate_tools(results: &Vec<Option<ListToolsResult>>) -> (out: Vec<Tool>)
    ensures
        out.deep_view() == spec_aggregate_tools(results.deep_view()),
{
    let ghost rv = results.deep_view();
    let n = results.len();
    let mut out: Vec<Tool> = Vec::new();
    let mut idx: usize = 0;
    proof {
        assert(out.deep_view() =~= spec_aggregate_tools(rv.take(0)));
    }
    while idx < n
        invariant
            n == results@.len(),
            idx <= n,
            rv == results.deep_view(),
            rv.len() == n,
            out.deep_view() == spec_aggregate_tools(rv.take(idx as int)),
        decreases n - idx,
    {
        match &results[idx] {
            Some(r) => {
                let ghost prevout = out.deep_view();
                let m = r.tools.len();
                let mut k: usize = 0;
                while k < m
                    invariant
                        m == r.tools@.len(),
                        k <= m,
                        out.deep_view() == prevout + r.tools.deep_view().take(k as int),
                    decreases m - k,
                {
                    let ghost prev2 = out.deep_view();
                    let t = r.tools[k].dup();
                    out.push(t);
                    proof {
                        assert(out.deep_view() =~= prev2.push(r.tools@[k as int].deep_view()));
                        assert(prevout + r.tools.deep_view().take(k + 1) =~= out.deep_view());
                    }
                    k = k + 1;
                }
                proof {
                    assert(r.tools.deep_view().take(m as int) =~= r.tools.deep_view());
                    assert(rv.take(idx + 1).drop_last() =~= rv.take(idx as int));
                    assert(rv.take(idx + 1).last() == rv[idx as int]);
                    assert(rv[idx as int] == results@[idx as int].deep_view());
                    assert(out.deep_view() =~= spec_aggregate_tools(rv.take(idx + 1)));
                }
            },
            None => {
                proof {
                    assert(rv.take(idx + 1).drop_last() =~= rv.take(idx as int));
                    assert(rv.take(idx + 1).last() == rv[idx as int]);
                    assert(rv[idx as int] == results@[idx as int].deep_view());
                    assert(out.deep_view() + Seq::<ToolV>::empty() =~= out.deep_view());
                    assert(out.deep_view() =~= spec_aggregate_tools(rv.take(idx + 1)));
                }
            },
        }
        idx = idx + 1;
    }
    proof {
        assert(rv.take(n as int) =~= rv);
    }
    out
}

} // verus!
