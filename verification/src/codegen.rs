//! The code generator: plans the declarations of the generated client —
//! one record or newtype per type, one record per message, one client per
//! port — together with the XML names their serializers use.  Rendering
//! the plan as source text is left to the caller.

use vstd::prelude::*;

use crate::error::Error;
use crate::num::{dec_rep, is_digit_char};
use crate::types::{Field, FieldKind, NamespacedName, NameView, TypeKind};

verus! {

// ---------------------------------------------------------------------
// The identifier disambiguator
// ---------------------------------------------------------------------
/// The ghost value of a [`State`].
pub struct StateView {
    pub added: Seq<NameView>,
    pub names: Seq<(NameView, Seq<char>)>,
    pub counts: Seq<(Seq<char>, u64)>,
}

/// Shared generation state: which types are already emitted, the
/// identifier chosen for each namespaced name, and how often each local
/// name has collided.
pub struct State {
    added_types: Vec<NamespacedName>,
    rust_names: Vec<(NamespacedName, String)>,
    name_counts: Vec<(String, u64)>,
    ks: Ghost<Seq<nat>>,
}

impl View for State {
    type V = StateView;

    closed spec fn view(&self) -> StateView {
        StateView {
            added: crate::types::seq_view(self.added_types@),
            names: self.rust_names@.map_values(|p: (NamespacedName, String)| (p.0@, p.1@)),
            counts: self.name_counts@.map_values(|p: (String, u64)| (p.0@, p.1)),
        }
    }
}

/// The identifier issued for the `k`-th occurrence of a local name: the
/// bare name first, then the name with the occurrence number appended.
pub open spec fn spec_suffixed(local: Seq<char>, k: nat) -> Seq<char> {
    if k == 0 {
        local
    } else {
        local + dec_rep(k)
    }
}

/// The identifier already issued for `n`, if any.
pub open spec fn spec_lookup_name(names: Seq<(NameView, Seq<char>)>, n: NameView) -> Option<
    Seq<char>,
>
    decreases names.len(),
{
    if names.len() == 0 {
        None
    } else if names[0].0 == n {
        Some(names[0].1)
    } else {
        spec_lookup_name(names.drop_first(), n)
    }
}

/// The collision count recorded for a local name, if any.
pub open spec fn spec_lookup_count(counts: Seq<(Seq<char>, u64)>, local: Seq<char>) -> Option<u64>
    decreases counts.len(),
{
    if counts.len() == 0 {
        None
    } else if counts[0].0 == local {
        Some(counts[0].1)
    } else {
        spec_lookup_count(counts.drop_first(), local)
    }
}

/// Bumping the collision count of a local name.
pub open spec fn spec_bump_count(counts: Seq<(Seq<char>, u64)>, local: Seq<char>, c: u64) -> Seq<
    (Seq<char>, u64),
>
    decreases counts.len(),
{
    if counts.len() == 0 {
        counts
    } else if counts[0].0 == local {
        seq![(local, c)] + counts.drop_first()
    } else {
        seq![counts[0]] + spec_bump_count(counts.drop_first(), local, c)
    }
}

/// What asking for an identifier does: the identifier, and the state
/// afterwards.  The same name always gets the same identifier; a new name
/// whose local name is fresh gets the bare local name; a new name whose
/// local name has been seen gets the local name with the next occurrence
/// number appended.
pub open spec fn spec_rust_name(st: StateView, n: NameView) -> (Seq<char>, StateView) {
    match spec_lookup_name(st.names, n) {
        Some(id) => (id, st),
        None => match spec_lookup_count(st.counts, n.local) {
            Some(c) => {
                let id = n.local + dec_rep((c + 1) as nat);
                (
                    id,
                    StateView {
                        names: st.names.push((n, id)),
                        counts: spec_bump_count(st.counts, n.local, (c + 1) as u64),
                        ..st
                    },
                )
            },
            None => (
                n.local,
                StateView {
                    names: st.names.push((n, n.local)),
                    counts: st.counts.push((n.local, 0)),
                    ..st
                },
            ),
        },
    }
}

/// Whether a type is recorded as already emitted, and the record
/// afterwards.
pub open spec fn spec_is_new_type(st: StateView, n: NameView) -> (bool, StateView) {
    if exists|i: int| 0 <= i < st.added.len() && st.added[i] == n {
        (false, st)
    } else {
        (true, StateView { added: st.added.push(n), ..st })
    }
}

impl State {
    /// The well-formedness of the disambiguator: distinct keys, every
    /// issued identifier is its local name with its occurrence number,
    /// occurrence numbers are distinct per local name and bounded by the
    /// recorded count.
    pub closed spec fn wf(&self) -> bool {
        wf_raw(self@.names, self@.counts, self.ks@)
    }

    /// A fresh state: nothing emitted, nothing named.
    pub fn new() -> (r: Self)
        ensures
            r.wf(),
            r@.added =~= Seq::<NameView>::empty(),
            r@.names =~= Seq::<(NameView, Seq<char>)>::empty(),
            r@.counts =~= Seq::<(Seq<char>, u64)>::empty(),
    {
        let r = State {
            added_types: Vec::new(),
            rust_names: Vec::new(),
            name_counts: Vec::new(),
            ks: Ghost(Seq::empty()),
        };
        proof {
            assert(r@.added =~= Seq::<NameView>::empty());
            assert(r@.names =~= Seq::<(NameView, Seq<char>)>::empty());
            assert(r@.counts =~= Seq::<(Seq<char>, u64)>::empty());
        }
        r
    }

    /// Records `name` as emitted; `true` exactly when it was new.
    pub fn is_new_type(&mut self, name: NamespacedName) -> (r: bool)
        requires
            old(self).wf(),
        ensures
            final(self).wf(),
            (r, final(self)@) == spec_is_new_type(old(self)@, name@),
    {
        let n = self.added_types.len();
        let mut i: usize = 0;
        #[verifier::loop_isolation(false)]
        while i < n
            invariant
                0 <= i <= n,
                *self == *old(self),
                forall|k: int| 0 <= k < i ==> self@.added[k] != name@,
            decreases n - i,
        {
            proof {
                assert(self@.added[i as int] == self.added_types@[i as int]@);
            }
            if self.added_types[i] == name {
                return false;
            }
            i = i + 1;
        }
        proof {
            crate::types::lemma_seq_view_push(self.added_types@, name);
        }
        self.added_types.push(name);
        true
    }

    /// The identifier for `name`: stable per name, disambiguated per
    /// local name.
    pub fn rust_name(&mut self, name: &NamespacedName) -> (r: String)
        requires
            old(self).wf(),
        ensures
            final(self).wf(),
            (r@, final(self)@) == spec_rust_name(old(self)@, name@),
    {
        proof {
            lemma_lookup_name(self@.names, name@);
            lemma_lookup_count(self@.counts, name@.local);
        }
        let nn = self.rust_names.len();
        let mut i: usize = 0;
        #[verifier::loop_isolation(false)]
        while i < nn
            invariant
                0 <= i <= nn,
                nn == self.rust_names@.len(),
                *self == *old(self),
                forall|k: int| 0 <= k < i ==> (#[trigger] self@.names[k]).0 != name@,
            decreases nn - i,
        {
            proof {
                assert(self@.names[i as int] == (
                    self.rust_names@[i as int].0@,
                    self.rust_names@[i as int].1@,
                ));
            }
            if self.rust_names[i].0 == *name {
                return self.rust_names[i].1.clone();
            }
            i = i + 1;
        }
        proof {
            assert forall|k: int| 0 <= k < self@.names.len() implies (
            #[trigger] self@.names[k]).0 != name@ by {
                assert(self@.names[k] == (self.rust_names@[k].0@, self.rust_names@[k].1@));
            }
        }
        // the name is new: find its local name's collision count
        let nc = self.name_counts.len();
        let mut j: usize = 0;
        #[verifier::loop_isolation(false)]
        while j < nc
            invariant
                0 <= j <= nc,
                nc == self.name_counts@.len(),
                *self == *old(self),
                forall|k: int| 0 <= k < i ==> (#[trigger] self@.names[k]).0 != name@,
                forall|k: int| 0 <= k < j ==> (#[trigger] self@.counts[k]).0 != name@.local,
            decreases nc - j,
        {
            proof {
                assert(self@.counts[j as int] == (
                    self.name_counts@[j as int].0@,
                    self.name_counts@[j as int].1,
                ));
            }
            if crate::num::str_eq(self.name_counts[j].0.as_str(), name.local_name().as_str()) {
                // a collision: bump the count and append it
                let c = self.name_counts[j].1;
                proof {
                    assert(spec_lookup_count(self@.counts, name@.local) == Some(c));
                    assert(c < self@.names.len());
                    assert(self@.names.len() == nn);
                }
                let c2 = c + 1;
                let local = self.name_counts[j].0.clone();
                let ghost old_counts = self@.counts;
                let ghost old_names = self@.names;
                let ghost old_ks = self.ks@;
                self.name_counts.set(j, (local, c2));
                proof {
                    assert(self@.counts =~= old_counts.update(j as int, (name@.local, c2)));
                    lemma_bump_count(old_counts, name@.local, c2, j as int);
                }
                let suffix = crate::num::u64_to_string(c2);
                let id = name.local_name().clone().concat(suffix.as_str());
                proof {
                    assert(id@ == spec_suffixed(name@.local, (c2) as nat));
                }
                self.rust_names.push((name.clone(), id.clone()));
                proof {
                    self.ks@ = old_ks.push((c2) as nat);
                    assert(self@.names =~= old_names.push((name@, id@)));
                    lemma_wf_collision(old_names, old_counts, old_ks, name@, c, j as int);
                }
                return id;
            }
            j = j + 1;
        }
        proof {
            assert forall|k: int| 0 <= k < self@.counts.len() implies (
            #[trigger] self@.counts[k]).0 != name@.local by {
                assert(self@.counts[k] == (self.name_counts@[k].0@, self.name_counts@[k].1));
            }
        }
        // a fresh local name: the bare name
        let id = name.local_name().clone();
        let ghost old_names = self@.names;
        let ghost old_counts = self@.counts;
        let ghost old_ks = self.ks@;
        self.rust_names.push((name.clone(), id.clone()));
        self.name_counts.push((name.local_name().clone(), 0));
        proof {
            self.ks@ = old_ks.push(0nat);
            assert(self@.names =~= old_names.push((name@, id@)));
            assert(self@.counts =~= old_counts.push((name@.local, 0)));
            assert(id@ == spec_suffixed(name@.local, 0));
            lemma_wf_fresh(old_names, old_counts, old_ks, name@);
        }
        id
    }
}

/// Whether the recorded count for `local` bounds the occurrence number
/// `k`.
pub open spec fn count_ok(counts: Seq<(Seq<char>, u64)>, local: Seq<char>, k: nat) -> bool {
    match spec_lookup_count(counts, local) {
        Some(c) => k <= c,
        None => false,
    }
}

/// Well-formedness of the raw disambiguator data together with its ghost
/// occurrence numbers.
pub open spec fn wf_raw(
    names: Seq<(NameView, Seq<char>)>,
    counts: Seq<(Seq<char>, u64)>,
    ks: Seq<nat>,
) -> bool {
    &&& ks.len() == names.len()
    &&& (forall|i: int, j: int|
        0 <= i < j < names.len() ==> (#[trigger] names[i]).0 != (#[trigger] names[j]).0)
    &&& (forall|i: int, j: int|
        0 <= i < j < counts.len() ==> (#[trigger] counts[i]).0 != (#[trigger] counts[j]).0)
    &&& (forall|i: int|
        0 <= i < names.len() ==> (#[trigger] names[i]).1 == spec_suffixed(
            names[i].0.local,
            ks[i],
        ))
    &&& (forall|i: int, j: int|
        0 <= i < j < names.len() && (#[trigger] names[i]).0.local == (
        #[trigger] names[j]).0.local ==> ks[i] != ks[j])
    &&& (forall|i: int|
        0 <= i < names.len() ==> count_ok(counts, (#[trigger] names[i]).0.local, ks[i]))
    &&& (forall|i: int| 0 <= i < counts.len() ==> (#[trigger] counts[i]).1 < names.len())
}

/// Looking a count up after the first binding of `local` was replaced.
proof fn lemma_lookup_count_update(
    counts: Seq<(Seq<char>, u64)>,
    j: int,
    local: Seq<char>,
    c2: u64,
    other: Seq<char>,
)
    requires
        0 <= j < counts.len(),
        counts[j].0 == local,
        forall|k: int| 0 <= k < j ==> (#[trigger] counts[k]).0 != local,
    ensures
        spec_lookup_count(counts.update(j, (local, c2)), other) == (if other == local {
            Some(c2)
        } else {
            spec_lookup_count(counts, other)
        }),
    decreases counts.len(),
{
    let u = counts.update(j, (local, c2));
    if j == 0 {
        assert(u[0] == (local, c2));
        assert(u.drop_first() =~= counts.drop_first());
    } else {
        assert(u[0] == counts[0]);
        let t = counts.drop_first();
        assert(forall|k: int| 0 <= k < j - 1 ==> #[trigger] t[k] == counts[k + 1]);
        lemma_lookup_count_update(t, j - 1, local, c2, other);
        assert(u.drop_first() =~= t.update(j - 1, (local, c2)));
    }
}

/// Looking a count up after a fresh local name was appended.
proof fn lemma_lookup_count_push(
    counts: Seq<(Seq<char>, u64)>,
    local: Seq<char>,
    c: u64,
    other: Seq<char>,
)
    requires
        forall|k: int| 0 <= k < counts.len() ==> (#[trigger] counts[k]).0 != local,
    ensures
        spec_lookup_count(counts.push((local, c)), other) == (if other == local {
            Some(c)
        } else {
            spec_lookup_count(counts, other)
        }),
    decreases counts.len(),
{
    let u = counts.push((local, c));
    if counts.len() == 0 {
        assert(u[0] == (local, c));
        assert(u.drop_first() =~= Seq::<(Seq<char>, u64)>::empty());
    } else {
        assert(u[0] == counts[0]);
        let t = counts.drop_first();
        assert(forall|k: int| 0 <= k < t.len() ==> #[trigger] t[k] == counts[k + 1]);
        lemma_lookup_count_push(t, local, c, other);
        assert(u.drop_first() =~= t.push((local, c)));
    }
}

/// Inserting a collided name keeps the disambiguator well formed.
proof fn lemma_wf_collision(
    names: Seq<(NameView, Seq<char>)>,
    counts: Seq<(Seq<char>, u64)>,
    ks: Seq<nat>,
    n: NameView,
    c: u64,
    j: int,
)
    requires
        wf_raw(names, counts, ks),
        forall|k: int| 0 <= k < names.len() ==> (#[trigger] names[k]).0 != n,
        0 <= j < counts.len(),
        counts[j].0 == n.local,
        counts[j].1 == c,
        forall|k: int| 0 <= k < j ==> (#[trigger] counts[k]).0 != n.local,
        c < names.len(),
        c < u64::MAX,
    ensures
        wf_raw(
            names.push((n, spec_suffixed(n.local, (c + 1) as nat))),
            counts.update(j, (n.local, (c + 1) as u64)),
            ks.push((c + 1) as nat),
        ),
{
    let id = spec_suffixed(n.local, (c + 1) as nat);
    let names2 = names.push((n, id));
    let counts2 = counts.update(j, (n.local, (c + 1) as u64));
    let ks2 = ks.push((c + 1) as nat);
    let m = names.len() as int;
    assert(spec_lookup_count(counts, n.local) == Some(c)) by {
        lemma_lookup_count_update(counts, j, n.local, c, n.local);
        assert(counts.update(j, (n.local, c)) =~= counts);
    }
    assert forall|a: int, b: int| 0 <= a < b < names2.len() implies (#[trigger] names2[a]).0 != (
    #[trigger] names2[b]).0 by {
        if b < m {
            assert(names2[a] == names[a] && names2[b] == names[b]);
        } else {
            assert(names2[b] == (n, id));
            assert(names2[a] == names[a]);
        }
    }
    assert forall|i: int| 0 <= i < names2.len() implies (#[trigger] names2[i]).1 == spec_suffixed(
        names2[i].0.local,
        ks2[i],
    ) by {
        if i < m {
            assert(names2[i] == names[i] && ks2[i] == ks[i]);
        } else {
            assert(names2[i] == (n, id) && ks2[i] == (c + 1) as nat);
        }
    }
    assert forall|a: int, b: int|
        0 <= a < b < names2.len() && (#[trigger] names2[a]).0.local == (
        #[trigger] names2[b]).0.local implies ks2[a] != ks2[b] by {
        if b < m {
            assert(names2[a] == names[a] && names2[b] == names[b]);
        } else {
            assert(names2[a] == names[a]);
            assert(names2[b] == (n, id));
            assert(count_ok(counts, names[a].0.local, ks[a]));
            assert(ks[a] <= c);
        }
    }
    assert forall|a: int, b: int| 0 <= a < b < counts2.len() implies (#[trigger] counts2[a]).0
        != (#[trigger] counts2[b]).0 by {
        assert(counts2[a].0 == counts[a].0);
        assert(counts2[b].0 == counts[b].0);
    }
    assert forall|i: int| 0 <= i < names2.len() implies count_ok(
        counts2,
        (#[trigger] names2[i]).0.local,
        ks2[i],
    ) by {
        lemma_lookup_count_update(counts, j, n.local, (c + 1) as u64, names2[i].0.local);
        if i < m {
            assert(names2[i] == names[i] && ks2[i] == ks[i]);
            assert(count_ok(counts, names[i].0.local, ks[i]));
            if names[i].0.local == n.local {
                assert(spec_lookup_count(counts, names[i].0.local) == Some(c));
                assert(ks[i] <= c);
                assert(spec_lookup_count(counts2, names2[i].0.local) == Some((c + 1) as u64));
                assert(ks2[i] <= (c + 1) as u64);
                assert(count_ok(counts2, names2[i].0.local, ks2[i]));
            } else {
                assert(spec_lookup_count(counts2, names2[i].0.local) == spec_lookup_count(
                    counts,
                    names[i].0.local,
                ));
                assert(count_ok(counts2, names2[i].0.local, ks2[i]));
            }
        } else {
            assert(names2[i] == (n, id));
            assert(ks2[i] == (c + 1) as nat);
            assert(names2[i].0.local == n.local);
            assert(spec_lookup_count(counts2, names2[i].0.local) == Some((c + 1) as u64));
            assert(count_ok(counts2, names2[i].0.local, ks2[i]));
        }
    }
    assert forall|i: int| 0 <= i < counts2.len() implies (#[trigger] counts2[i]).1
        < names2.len() by {
        if i == j {
            assert(counts2[i] == (n.local, (c + 1) as u64));
        } else {
            assert(counts2[i] == counts[i]);
        }
    }
}

/// Inserting a name with a fresh local name keeps the disambiguator well
/// formed.
proof fn lemma_wf_fresh(
    names: Seq<(NameView, Seq<char>)>,
    counts: Seq<(Seq<char>, u64)>,
    ks: Seq<nat>,
    n: NameView,
)
    requires
        wf_raw(names, counts, ks),
        forall|k: int| 0 <= k < names.len() ==> (#[trigger] names[k]).0 != n,
        forall|k: int| 0 <= k < counts.len() ==> (#[trigger] counts[k]).0 != n.local,
    ensures
        wf_raw(names.push((n, n.local)), counts.push((n.local, 0)), ks.push(0nat)),
{
    let names2 = names.push((n, n.local));
    let counts2 = counts.push((n.local, 0));
    let ks2 = ks.push(0nat);
    let m = names.len() as int;
    assert forall|a: int, b: int| 0 <= a < b < names2.len() implies (#[trigger] names2[a]).0 != (
    #[trigger] names2[b]).0 by {
        if b < m {
            assert(names2[a] == names[a] && names2[b] == names[b]);
        } else {
            assert(names2[b] == (n, n.local));
            assert(names2[a] == names[a]);
        }
    }
    assert forall|a: int, b: int| 0 <= a < b < counts2.len() implies (#[trigger] counts2[a]).0 != (
    #[trigger] counts2[b]).0 by {
        if b < counts.len() {
            assert(counts2[a] == counts[a] && counts2[b] == counts[b]);
        } else {
            assert(counts2[b] == (n.local, 0u64));
            assert(counts2[a] == counts[a]);
        }
    }
    assert forall|i: int| 0 <= i < names2.len() implies (#[trigger] names2[i]).1 == spec_suffixed(
        names2[i].0.local,
        ks2[i],
    ) by {
        if i < m {
            assert(names2[i] == names[i] && ks2[i] == ks[i]);
        } else {
            assert(names2[i] == (n, n.local) && ks2[i] == 0nat);
        }
    }
    assert forall|a: int, b: int|
        0 <= a < b < names2.len() && (#[trigger] names2[a]).0.local == (
        #[trigger] names2[b]).0.local implies ks2[a] != ks2[b] by {
        if b < m {
            assert(names2[a] == names[a] && names2[b] == names[b]);
        } else {
            assert(names2[a] == names[a]);
            assert(names2[b] == (n, n.local));
            // an earlier entry with this local name would have recorded a
            // count for it
            assert(count_ok(counts, names[a].0.local, ks[a]));
            lemma_lookup_count_some_means_key(counts, names[a].0.local);
            assert(false);
        }
    }
    assert forall|i: int| 0 <= i < names2.len() implies count_ok(
        counts2,
        (#[trigger] names2[i]).0.local,
        ks2[i],
    ) by {
        lemma_lookup_count_push(counts, n.local, 0, names2[i].0.local);
        if i < m {
            assert(names2[i] == names[i] && ks2[i] == ks[i]);
            assert(count_ok(counts, names[i].0.local, ks[i]));
            if names[i].0.local == n.local {
                lemma_lookup_count_some_means_key(counts, names[i].0.local);
                assert(false);
            } else {
                assert(spec_lookup_count(counts2, names2[i].0.local) == spec_lookup_count(
                    counts,
                    names[i].0.local,
                ));
            }
        } else {
            assert(names2[i] == (n, n.local) && ks2[i] == 0nat);
            assert(spec_lookup_count(counts2, n.local) == Some(0u64));
        }
    }
    assert forall|i: int| 0 <= i < counts2.len() implies (#[trigger] counts2[i]).1
        < names2.len() by {
        if i < counts.len() {
            assert(counts2[i] == counts[i]);
        } else {
            assert(counts2[i] == (n.local, 0u64));
        }
    }
}

/// Whether a local name is safe for disambiguation: it does not end in a
/// decimal digit.
pub open spec fn no_trailing_digit(local: Seq<char>) -> bool {
    local.len() > 0 ==> !is_digit_char(local.last())
}

/// Two occurrence numbers of the same local name give distinct
/// identifiers.
proof fn lemma_suffixed_same_local(local: Seq<char>, k1: nat, k2: nat)
    requires
        k1 != k2,
    ensures
        spec_suffixed(local, k1) != spec_suffixed(local, k2),
{
    crate::num::lemma_dec_rep_digits(k1);
    crate::num::lemma_dec_rep_digits(k2);
    if k1 == 0 || k2 == 0 {
        assert(spec_suffixed(local, k1).len() != spec_suffixed(local, k2).len());
    } else {
        if spec_suffixed(local, k1) == spec_suffixed(local, k2) {
            let d1 = dec_rep(k1);
            let d2 = dec_rep(k2);
            assert(local + d1 == local + d2);
            assert((local + d1).len() == (local + d2).len());
            assert(local.len() + d1.len() == local.len() + d2.len());
            assert forall|x: int| 0 <= x < d1.len() implies d1[x] == d2[x] by {
                assert((local + d1)[local.len() + x] == d1[x]);
                assert((local + d2)[local.len() + x] == d2[x]);
            }
            assert(d1 =~= d2);
            crate::num::lemma_dec_rep_injective(k1, k2);
        }
    }
}

/// Distinct local names give distinct identifiers, whatever the
/// occurrence numbers, when neither local name ends in a digit.
proof fn lemma_suffixed_distinct_locals(l1: Seq<char>, k1: nat, l2: Seq<char>, k2: nat)
    requires
        l1 != l2,
        no_trailing_digit(l1),
        no_trailing_digit(l2),
    ensures
        spec_suffixed(l1, k1) != spec_suffixed(l2, k2),
{
    crate::num::lemma_dec_rep_digits(k1);
    crate::num::lemma_dec_rep_digits(k2);
    let s1 = spec_suffixed(l1, k1);
    let s2 = spec_suffixed(l2, k2);
    if s1 == s2 {
        if k1 == 0 && k2 == 0 {
            assert(false);
        } else if k1 == 0 {
            // l1 == l2 + digits: l1 would end in a digit
            let d2 = dec_rep(k2);
            assert(l1.len() == l2.len() + d2.len());
            assert(l1.last() == (l2 + d2)[l1.len() - 1]);
            assert((l2 + d2)[l1.len() - 1] == d2[d2.len() - 1]);
            assert(crate::num::is_digit_char(d2[d2.len() - 1]));
            assert(false);
        } else if k2 == 0 {
            let d1 = dec_rep(k1);
            assert(l2.len() == l1.len() + d1.len());
            assert(l2.last() == (l1 + d1)[l2.len() - 1]);
            assert((l1 + d1)[l2.len() - 1] == d1[d1.len() - 1]);
            assert(crate::num::is_digit_char(d1[d1.len() - 1]));
            assert(false);
        } else {
            let d1 = dec_rep(k1);
            let d2 = dec_rep(k2);
            assert(l1 + d1 == l2 + d2);
            assert((l1 + d1).len() == (l2 + d2).len());
            assert(l1.len() + d1.len() == l2.len() + d2.len());
            if l1.len() == l2.len() {
                assert forall|x: int| 0 <= x < l1.len() implies l1[x] == l2[x] by {
                    assert((l1 + d1)[x] == l1[x]);
                    assert((l2 + d2)[x] == l2[x]);
                }
                assert(l1 =~= l2);
                assert(false);
            } else if l1.len() < l2.len() {
                // the last character of l2 meets a digit of d1
                assert(l2.len() > 0);
                let pos = l2.len() - 1;
                assert((l2 + d2)[pos] == l2.last());
                assert(pos < l1.len() + d1.len());
                assert((l1 + d1)[pos] == d1[pos - l1.len()]);
                assert(crate::num::is_digit_char(d1[pos - l1.len()]));
                assert(false);
            } else {
                assert(l1.len() > 0);
                let pos = l1.len() - 1;
                assert((l1 + d1)[pos] == l1.last());
                assert(pos < l2.len() + d2.len());
                assert((l2 + d2)[pos] == d2[pos - l2.len()]);
                assert(crate::num::is_digit_char(d2[pos - l2.len()]));
                assert(false);
            }
        }
    }
}

/// The disambiguator is injective: distinct namespaced names carry
/// distinct identifiers, provided no requested local name ends in a
/// decimal digit.  (That the same name always gets the same identifier is
/// `spec_rust_name`'s first case.)
pub proof fn lemma_disambiguator_injective(st: &State)
    requires
        st.wf(),
        forall|i: int|
            0 <= i < st@.names.len() ==> no_trailing_digit((#[trigger] st@.names[i]).0.local),
    ensures
        forall|i: int, j: int|
            0 <= i < j < st@.names.len() ==> (#[trigger] st@.names[i]).1 != (
            #[trigger] st@.names[j]).1,
{
    let names = st@.names;
    let ks = st.ks@;
    assert forall|i: int, j: int| 0 <= i < j < names.len() implies (#[trigger] names[i]).1 != (
    #[trigger] names[j]).1 by {
        assert(names[i].1 == spec_suffixed(names[i].0.local, ks[i]));
        assert(names[j].1 == spec_suffixed(names[j].0.local, ks[j]));
        if names[i].0.local == names[j].0.local {
            lemma_suffixed_same_local(names[i].0.local, ks[i], ks[j]);
        } else {
            lemma_suffixed_distinct_locals(names[i].0.local, ks[i], names[j].0.local, ks[j]);
        }
    }
}

/// A recorded count means some entry carries the key.
proof fn lemma_lookup_count_some_means_key(counts: Seq<(Seq<char>, u64)>, local: Seq<char>)
    requires
        spec_lookup_count(counts, local) is Some,
    ensures
        exists|k: int| 0 <= k < counts.len() && (#[trigger] counts[k]).0 == local,
    decreases counts.len(),
{
    if counts.len() > 0 && counts[0].0 != local {
        lemma_lookup_count_some_means_key(counts.drop_first(), local);
        let k = choose|k: int|
            0 <= k < counts.drop_first().len() && (#[trigger] counts.drop_first()[k]).0 == local;
        assert(counts[k + 1] == counts.drop_first()[k]);
    }
}

/// `spec_lookup_name` finds the first match, and `None` means no match.
proof fn lemma_lookup_name(names: Seq<(NameView, Seq<char>)>, n: NameView)
    ensures
        match spec_lookup_name(names, n) {
            Some(id) => exists|i: int|
                0 <= i < names.len() && (#[trigger] names[i]).0 == n && names[i].1 == id && forall|
                    k: int,
                | 0 <= k < i ==> (#[trigger] names[k]).0 != n,
            None => forall|k: int| 0 <= k < names.len() ==> (#[trigger] names[k]).0 != n,
        },
    decreases names.len(),
{
    if names.len() > 0 && names[0].0 != n {
        let t = names.drop_first();
        lemma_lookup_name(t, n);
        match spec_lookup_name(t, n) {
            Some(id) => {
                let j = choose|i: int|
                    0 <= i < t.len() && (#[trigger] t[i]).0 == n && t[i].1 == id && forall|k: int|
                        0 <= k < i ==> (#[trigger] t[k]).0 != n;
                assert(names[j + 1] == t[j]);
                assert forall|k: int| 0 <= k < j + 1 implies (#[trigger] names[k]).0 != n by {
                    if k > 0 {
                        assert(names[k] == t[k - 1]);
                    }
                }
            },
            None => {
                assert forall|k: int| 0 <= k < names.len() implies (#[trigger] names[k]).0 != n by {
                    if k > 0 {
                        assert(names[k] == t[k - 1]);
                    }
                }
            },
        }
    }
}

/// `spec_lookup_count` finds the first match, and `None` means no match.
proof fn lemma_lookup_count(counts: Seq<(Seq<char>, u64)>, local: Seq<char>)
    ensures
        match spec_lookup_count(counts, local) {
            Some(c) => exists|i: int|
                0 <= i < counts.len() && (#[trigger] counts[i]).0 == local && counts[i].1 == c
                    && forall|k: int| 0 <= k < i ==> (#[trigger] counts[k]).0 != local,
            None => forall|k: int| 0 <= k < counts.len() ==> (#[trigger] counts[k]).0 != local,
        },
    decreases counts.len(),
{
    if counts.len() > 0 && counts[0].0 != local {
        let t = counts.drop_first();
        lemma_lookup_count(t, local);
        match spec_lookup_count(t, local) {
            Some(c) => {
                let j = choose|i: int|
                    0 <= i < t.len() && (#[trigger] t[i]).0 == local && t[i].1 == c && forall|
                        k: int,
                    | 0 <= k < i ==> (#[trigger] t[k]).0 != local;
                assert(counts[j + 1] == t[j]);
                assert forall|k: int| 0 <= k < j + 1 implies (#[trigger] counts[k]).0 != local by {
                    if k > 0 {
                        assert(counts[k] == t[k - 1]);
                    }
                }
            },
            None => {
                assert forall|k: int| 0 <= k < counts.len() implies (#[trigger] counts[k]).0
                    != local by {
                    if k > 0 {
                        assert(counts[k] == t[k - 1]);
                    }
                }
            },
        }
    }
}

/// Bumping a count recorded at `i` updates exactly that entry.
proof fn lemma_bump_count(counts: Seq<(Seq<char>, u64)>, local: Seq<char>, c: u64, i: int)
    requires
        0 <= i < counts.len(),
        counts[i].0 == local,
        forall|k: int| 0 <= k < i ==> (#[trigger] counts[k]).0 != local,
    ensures
        spec_bump_count(counts, local, c) == counts.update(i, (local, c)),
    decreases counts.len(),
{
    if i == 0 {
        assert(spec_bump_count(counts, local, c) =~= counts.update(0, (local, c)));
    } else {
        let t = counts.drop_first();
        assert(forall|k: int| 0 <= k < i - 1 ==> #[trigger] t[k] == counts[k + 1]);
        lemma_bump_count(t, local, c, i - 1);
        assert(spec_bump_count(counts, local, c) =~= counts.update(i, (local, c)));
    }
}


// ---------------------------------------------------------------------
// The generated-code plan
// ---------------------------------------------------------------------
/// The XSD built-ins the generator maps to target primitives.
#[derive(Debug, Clone, Copy, PartialEq, Eq, Structural)]
pub enum Primitive {
    /// `boolean`, a target boolean.
    Bool,
    /// `int`, a target signed integer.
    Int,
    /// `unsignedShort`, a sixteen-bit unsigned integer.
    UnsignedShort,
    /// `unsignedInt`, a target unsigned integer.
    UnsignedInt,
    /// `string` and `dateTime`, a target string.
    Text,
}

/// The built-in a local type name denotes, if any.
pub open spec fn spec_builtin(local: Seq<char>) -> Option<Primitive> {
    if local == "boolean"@ {
        Some(Primitive::Bool)
    } else if local == "int"@ {
        Some(Primitive::Int)
    } else if local == "unsignedShort"@ {
        Some(Primitive::UnsignedShort)
    } else if local == "unsignedInt"@ {
        Some(Primitive::UnsignedInt)
    } else if local == "dateTime"@ || local == "string"@ {
        Some(Primitive::Text)
    } else {
        None
    }
}

/// Maps a local type name to its built-in, if it is one.
pub fn get_ty_ident(local: &str) -> (r: Option<Primitive>)
    ensures
        r == spec_builtin(local@),
{
    if crate::num::str_eq(local, "boolean") {
        Some(Primitive::Bool)
    } else if crate::num::str_eq(local, "int") {
        Some(Primitive::Int)
    } else if crate::num::str_eq(local, "unsignedShort") {
        Some(Primitive::UnsignedShort)
    } else if crate::num::str_eq(local, "unsignedInt") {
        Some(Primitive::UnsignedInt)
    } else if crate::num::str_eq(local, "dateTime") || crate::num::str_eq(local, "string") {
        Some(Primitive::Text)
    } else {
        None
    }
}

/// The target type a primitive is rendered as.
pub open spec fn spec_prim_ident(p: Primitive) -> Seq<char> {
    match p {
        Primitive::Bool => "bool"@,
        Primitive::Int => "isize"@,
        Primitive::UnsignedShort => "u16"@,
        Primitive::UnsignedInt => "usize"@,
        Primitive::Text => "String"@,
    }
}

impl Primitive {
    /// The target type this primitive is rendered as.
    pub fn rust_ident(&self) -> (r: &'static str)
        ensures
            r@ == spec_prim_ident(*self),
    {
        match self {
            Primitive::Bool => "bool",
            Primitive::Int => "isize",
            Primitive::UnsignedShort => "u16",
            Primitive::UnsignedInt => "usize",
            Primitive::Text => "String",
        }
    }
}

/// A field's or alias's target type: a primitive, or a generated type by
/// identifier.
#[derive(Debug)]
pub enum RustType {
    Prim(Primitive),
    Named(String),
}

/// The ghost value of a [`RustType`].
pub enum RustTypeView {
    Prim(Primitive),
    Named(Seq<char>),
}

impl View for RustType {
    type V = RustTypeView;

    open spec fn view(&self) -> RustTypeView {
        match self {
            RustType::Prim(p) => RustTypeView::Prim(*p),
            RustType::Named(id) => RustTypeView::Named(id@),
        }
    }
}

/// One field of a generated record, with the XML names its serializer
/// uses: `write_name` is the prefixed tag written, `read_name` the local
/// name matched on read.
#[derive(Debug)]
pub struct FieldDecl {
    pub ident: String,
    pub ty: RustType,
    pub write_name: String,
    pub read_name: String,
}

/// The ghost value of a [`FieldDecl`].
pub struct FieldDeclView {
    pub ident: Seq<char>,
    pub ty: RustTypeView,
    pub write_name: Seq<char>,
    pub read_name: Seq<char>,
}

impl View for FieldDecl {
    type V = FieldDeclView;

    open spec fn view(&self) -> FieldDeclView {
        FieldDeclView {
            ident: self.ident@,
            ty: self.ty@,
            write_name: self.write_name@,
            read_name: self.read_name@,
        }
    }
}

/// One generated declaration.
#[derive(Debug)]
pub enum RustItem {
    /// A record with one field per member, serialized inside its own
    /// element.
    Record { ident: String, write_name: String, read_name: String, fields: Vec<FieldDecl> },
    /// A newtype over a primitive.
    Newtype { ident: String, write_name: String, read_name: String, prim: Primitive },
    /// A type alias.
    TypeAlias { ident: String, target: RustType },
}

/// The ghost value of a [`RustItem`].
pub enum RustItemView {
    Record {
        ident: Seq<char>,
        write_name: Seq<char>,
        read_name: Seq<char>,
        fields: Seq<FieldDeclView>,
    },
    Newtype { ident: Seq<char>, write_name: Seq<char>, read_name: Seq<char>, prim: Primitive },
    TypeAlias { ident: Seq<char>, target: RustTypeView },
}

impl View for RustItem {
    type V = RustItemView;

    open spec fn view(&self) -> RustItemView {
        match self {
            RustItem::Record { ident, write_name, read_name, fields } => RustItemView::Record {
                ident: ident@,
                write_name: write_name@,
                read_name: read_name@,
                fields: crate::types::seq_view(fields@),
            },
            RustItem::Newtype { ident, write_name, read_name, prim } => RustItemView::Newtype {
                ident: ident@,
                write_name: write_name@,
                read_name: read_name@,
                prim: *prim,
            },
            RustItem::TypeAlias { ident, target } => RustItemView::TypeAlias {
                ident: ident@,
                target: target@,
            },
        }
    }
}

/// One method of a generated client: its identifier and the generated
/// message types it takes and returns.
#[derive(Debug)]
pub struct OpDecl {
    pub ident: String,
    pub input: Option<String>,
    pub output: Option<String>,
}

/// The ghost value of an [`OpDecl`].
pub struct OpDeclView {
    pub ident: Seq<char>,
    pub input: Option<Seq<char>>,
    pub output: Option<Seq<char>>,
}

impl View for OpDecl {
    type V = OpDeclView;

    open spec fn view(&self) -> OpDeclView {
        OpDeclView {
            ident: self.ident@,
            input: match self.input {
                Some(ref s) => Some(s@),
                None => None,
            },
            output: match self.output {
                Some(ref s) => Some(s@),
                None => None,
            },
        }
    }
}

/// One generated client struct, bound to its endpoint.
#[derive(Debug)]
pub struct PortDecl {
    pub ident: String,
    pub location: String,
    pub operations: Vec<OpDecl>,
}

/// The ghost value of a [`PortDecl`].
pub struct PortDeclView {
    pub ident: Seq<char>,
    pub location: Seq<char>,
    pub operations: Seq<OpDeclView>,
}

impl View for PortDecl {
    type V = PortDeclView;

    open spec fn view(&self) -> PortDeclView {
        PortDeclView {
            ident: self.ident@,
            location: self.location@,
            operations: crate::types::seq_view(self.operations@),
        }
    }
}

/// One generated service: a namespace of client structs.
#[derive(Debug)]
pub struct ServiceDecl {
    pub ident: String,
    pub ports: Vec<PortDecl>,
}

/// The ghost value of a [`ServiceDecl`].
pub struct ServiceDeclView {
    pub ident: Seq<char>,
    pub ports: Seq<PortDeclView>,
}

impl View for ServiceDecl {
    type V = ServiceDeclView;

    open spec fn view(&self) -> ServiceDeclView {
        ServiceDeclView { ident: self.ident@, ports: crate::types::seq_view(self.ports@) }
    }
}

/// The whole plan of the generated client library.
#[derive(Debug)]
pub struct GeneratedCode {
    /// The `xmlns:ns{i}` declarations, one per interned namespace.
    pub namespaces: Vec<(String, String)>,
    pub types: Vec<RustItem>,
    pub messages: Vec<RustItem>,
    pub services: Vec<ServiceDecl>,
}

/// The ghost value of a [`GeneratedCode`].
pub struct GeneratedCodeView {
    pub namespaces: Seq<(Seq<char>, Seq<char>)>,
    pub types: Seq<RustItemView>,
    pub messages: Seq<RustItemView>,
    pub services: Seq<ServiceDeclView>,
}

impl View for GeneratedCode {
    type V = GeneratedCodeView;

    open spec fn view(&self) -> GeneratedCodeView {
        GeneratedCodeView {
            namespaces: crate::event::attrs_view(self.namespaces@),
            types: crate::types::seq_view(self.types@),
            messages: crate::types::seq_view(self.messages@),
            services: crate::types::seq_view(self.services@),
        }
    }
}

// ---------------------------------------------------------------------
// Planning
// ---------------------------------------------------------------------
/// The prefixed XML name `ns{i}:{local}` of a namespaced name.
pub open spec fn spec_xml_name(ns: int, local: Seq<char>) -> Seq<char> {
    "ns"@ + dec_rep(ns as nat) + seq![':'] + local
}

/// Builds the prefixed XML name `ns{i}:{local}`.
pub fn xml_name(idx: usize, local: &str) -> (r: String)
    ensures
        r@ == spec_xml_name(idx as int, local@),
{
    proof {
        reveal_strlit("ns");
        reveal_strlit(":");
    }
    let mut s: String = "ns".to_owned();
    s.append(crate::num::usize_to_string(idx).as_str());
    s.append(":");
    s.append(local);
    proof {
        assert(":"@ =~= seq![':']);
        assert(s@ =~= spec_xml_name(idx as int, local@));
    }
    s
}

/// Planning one field: a reference to a built-in is read and written in
/// place; a reference to a named type defers to that type's serializer;
/// an anonymous inline type with a single field collapses into this one.
pub open spec fn spec_field_decl(
    st: StateView,
    name: NameView,
    fk: crate::types::FieldKindView,
) -> Result<(FieldDeclView, StateView), ()>
    decreases fk,
{
    match fk {
        crate::types::FieldKindView::Type(tyn) => match spec_builtin(tyn.local) {
            Some(p) => Ok(
                (
                    FieldDeclView {
                        ident: name.local,
                        ty: RustTypeView::Prim(p),
                        write_name: spec_xml_name(name.ns, name.local),
                        read_name: name.local,
                    },
                    st,
                ),
            ),
            None => {
                let (id, st2) = spec_rust_name(st, tyn);
                Ok(
                    (
                        FieldDeclView {
                            ident: name.local,
                            ty: RustTypeView::Named(id),
                            write_name: spec_xml_name(name.ns, name.local),
                            read_name: name.local,
                        },
                        st2,
                    ),
                )
            },
        },
        crate::types::FieldKindView::Inner(k) => match k {
            crate::types::TypeKindView::Struct(fields) => {
                if fields.len() == 1 {
                    spec_field_decl(st, name, fields.last().ty)
                } else {
                    Err(())
                }
            },
            _ => Err(()),
        },
    }
}

/// Planning a field list in order.
pub open spec fn spec_fields_decl(
    st: StateView,
    fields: Seq<crate::types::FieldView>,
) -> Result<(Seq<FieldDeclView>, StateView), ()>
    decreases fields.len(),
{
    if fields.len() == 0 {
        Ok((Seq::empty(), st))
    } else {
        match spec_fields_decl(st, fields.drop_last()) {
            Ok((front, st1)) => match spec_field_decl(st1, fields.last().name, fields.last().ty) {
                Ok((fd, st2)) => Ok((front.push(fd), st2)),
                Err(_) => Err(()),
            },
            Err(_) => Err(()),
        }
    }
}

/// Planning one named type: deduplicated by name; a `Struct` becomes a
/// record, a `Simple` a newtype over its built-in base, an `Alias` a type
/// alias unless it aliases itself.
pub open spec fn spec_type_codegen(st: StateView, t: crate::types::TypeView) -> Result<
    (Option<RustItemView>, StateView),
    (),
> {
    let (is_new, st1) = spec_is_new_type(st, t.name);
    if !is_new {
        Ok((None, st1))
    } else {
        let (ident, st2) = spec_rust_name(st1, t.name);
        let write_name = spec_xml_name(t.name.ns, t.name.local);
        match t.kind {
            crate::types::TypeKindView::Simple(tyn) => match spec_builtin(tyn.local) {
                Some(p) => Ok(
                    (
                        Some(
                            RustItemView::Newtype {
                                ident,
                                write_name,
                                read_name: t.name.local,
                                prim: p,
                            },
                        ),
                        st2,
                    ),
                ),
                None => Err(()),
            },
            crate::types::TypeKindView::Struct(fields) => match spec_fields_decl(st2, fields) {
                Ok((fds, st3)) => Ok(
                    (
                        Some(
                            RustItemView::Record {
                                ident,
                                write_name,
                                read_name: t.name.local,
                                fields: fds,
                            },
                        ),
                        st3,
                    ),
                ),
                Err(_) => Err(()),
            },
            crate::types::TypeKindView::Alias(a) => {
                if a == t.name {
                    Ok((None, st2))
                } else {
                    match spec_builtin(a.local) {
                        Some(p) => Ok(
                            (
                                Some(
                                    RustItemView::TypeAlias {
                                        ident,
                                        target: RustTypeView::Prim(p),
                                    },
                                ),
                                st2,
                            ),
                        ),
                        None => {
                            let (aid, st3) = spec_rust_name(st2, a);
                            Ok(
                                (
                                    Some(
                                        RustItemView::TypeAlias {
                                            ident,
                                            target: RustTypeView::Named(aid),
                                        },
                                    ),
                                    st3,
                                ),
                            )
                        },
                    }
                }
            },
        }
    }
}

/// Planning the type list in order.
pub open spec fn spec_types_codegen(
    st: StateView,
    types: Seq<crate::types::TypeView>,
) -> Result<(Seq<RustItemView>, StateView), ()>
    decreases types.len(),
{
    if types.len() == 0 {
        Ok((Seq::empty(), st))
    } else {
        match spec_types_codegen(st, types.drop_last()) {
            Ok((front, st1)) => match spec_type_codegen(st1, types.last()) {
                Ok((Some(item), st2)) => Ok((front.push(item), st2)),
                Ok((None, st2)) => Ok((front, st2)),
                Err(_) => Err(()),
            },
            Err(_) => Err(()),
        }
    }
}

/// Planning one message: a record over its parts, serialized without a
/// wrapping element.
pub open spec fn spec_message_codegen(st: StateView, m: crate::types::MessageView) -> Result<
    (RustItemView, StateView),
    (),
> {
    let (ident, st1) = spec_rust_name(st, m.name);
    match spec_fields_decl(st1, m.parts) {
        Ok((fds, st2)) => Ok(
            (
                RustItemView::Record {
                    ident,
                    write_name: spec_xml_name(m.name.ns, m.name.local),
                    read_name: m.name.local,
                    fields: fds,
                },
                st2,
            ),
        ),
        Err(_) => Err(()),
    }
}

/// Planning the message list in order.
pub open spec fn spec_messages_codegen(
    st: StateView,
    messages: Seq<crate::types::MessageView>,
) -> Result<(Seq<RustItemView>, StateView), ()>
    decreases messages.len(),
{
    if messages.len() == 0 {
        Ok((Seq::empty(), st))
    } else {
        match spec_messages_codegen(st, messages.drop_last()) {
            Ok((front, st1)) => match spec_message_codegen(st1, messages.last()) {
                Ok((item, st2)) => Ok((front.push(item), st2)),
                Err(_) => Err(()),
            },
            Err(_) => Err(()),
        }
    }
}

/// Planning one operation: one client method per operation, taking and
/// returning the generated message types.
pub open spec fn spec_op_codegen(st: StateView, o: crate::types::OperationView) -> (
    OpDeclView,
    StateView,
) {
    let (ident, st1) = spec_rust_name(st, o.name);
    match o.input {
        Some(inn) => {
            let (iid, st2) = spec_rust_name(st1, inn);
            match o.output {
                Some(outn) => {
                    let (oid, st3) = spec_rust_name(st2, outn);
                    (OpDeclView { ident, input: Some(iid), output: Some(oid) }, st3)
                },
                None => (OpDeclView { ident, input: Some(iid), output: None }, st2),
            }
        },
        None => match o.output {
            Some(outn) => {
                let (oid, st2) = spec_rust_name(st1, outn);
                (OpDeclView { ident, input: None, output: Some(oid) }, st2)
            },
            None => (OpDeclView { ident, input: None, output: None }, st1),
        },
    }
}

/// Planning an operation list in order.
pub open spec fn spec_ops_codegen(st: StateView, ops: Seq<crate::types::OperationView>) -> (
    Seq<OpDeclView>,
    StateView,
)
    decreases ops.len(),
{
    if ops.len() == 0 {
        (Seq::empty(), st)
    } else {
        let (front, st1) = spec_ops_codegen(st, ops.drop_last());
        let (od, st2) = spec_op_codegen(st1, ops.last());
        (front.push(od), st2)
    }
}

/// Planning one port: a client struct bound to the port's address.
pub open spec fn spec_port_codegen(st: StateView, p: crate::resolve::ResolvedPortView) -> (
    PortDeclView,
    StateView,
) {
    let (ident, st1) = spec_rust_name(st, p.name);
    let (ops, st2) = spec_ops_codegen(st1, p.operations);
    (PortDeclView { ident, location: p.location, operations: ops }, st2)
}

/// Planning a port list in order.
pub open spec fn spec_ports_codegen(st: StateView, ports: Seq<crate::resolve::ResolvedPortView>) -> (
    Seq<PortDeclView>,
    StateView,
)
    decreases ports.len(),
{
    if ports.len() == 0 {
        (Seq::empty(), st)
    } else {
        let (front, st1) = spec_ports_codegen(st, ports.drop_last());
        let (pd, st2) = spec_port_codegen(st1, ports.last());
        (front.push(pd), st2)
    }
}

/// Planning one service.
pub open spec fn spec_service_codegen(st: StateView, s: crate::resolve::ResolvedServiceView) -> (
    ServiceDeclView,
    StateView,
) {
    let (ident, st1) = spec_rust_name(st, s.name);
    let (ports, st2) = spec_ports_codegen(st1, s.ports);
    (ServiceDeclView { ident, ports }, st2)
}

/// Planning the service list in order.
pub open spec fn spec_services_codegen(
    st: StateView,
    services: Seq<crate::resolve::ResolvedServiceView>,
) -> (Seq<ServiceDeclView>, StateView)
    decreases services.len(),
{
    if services.len() == 0 {
        (Seq::empty(), st)
    } else {
        let (front, st1) = spec_services_codegen(st, services.drop_last());
        let (sd, st2) = spec_service_codegen(st1, services.last());
        (front.push(sd), st2)
    }
}

/// The `xmlns:ns{i}` declarations, one per interned namespace, in index
/// order.
pub open spec fn spec_ns_decls(nss: Seq<Seq<char>>) -> Seq<(Seq<char>, Seq<char>)> {
    Seq::new(nss.len(), |i: int| ("xmlns:ns"@ + dec_rep(i as nat), nss[i]))
}

/// What planning a resolved definition produces: types, then messages,
/// then services, deduplicated and disambiguated by one shared state, in
/// input order throughout.
pub open spec fn spec_codegen(
    d: crate::resolve::ResolvedDefinitionView,
    nss: Seq<Seq<char>>,
    st0: StateView,
) -> Result<GeneratedCodeView, ()> {
    match spec_types_codegen(st0, d.types) {
        Ok((types, st1)) => match spec_messages_codegen(st1, d.messages) {
            Ok((messages, st2)) => {
                let (services, _) = spec_services_codegen(st2, d.services);
                Ok(
                    GeneratedCodeView {
                        namespaces: spec_ns_decls(nss),
                        types,
                        messages,
                        services,
                    },
                )
            },
            Err(_) => Err(()),
        },
        Err(_) => Err(()),
    }
}


/// Plans one field.
pub fn field_codegen(state: &mut State, name: &NamespacedName, fk: &FieldKind) -> (r: Result<
    FieldDecl,
    Error,
>)
    requires
        old(state).wf(),
    ensures
        final(state).wf(),
        match r {
            Ok(fd) => spec_field_decl(old(state)@, name@, fk@) == Ok::<_, ()>(
                (fd@, final(state)@),
            ),
            Err(e) => spec_field_decl(old(state)@, name@, fk@) is Err && (
            e matches Error::StructuralError) && final(state)@ == old(state)@,
        },
    decreases *fk,
{
    match fk {
        FieldKind::Type(tyn) => match get_ty_ident(tyn.local_name().as_str()) {
            Some(p) => Ok(
                FieldDecl {
                    ident: name.local_name().clone(),
                    ty: RustType::Prim(p),
                    write_name: xml_name(name.index(), name.local_name().as_str()),
                    read_name: name.local_name().clone(),
                },
            ),
            None => {
                let id = state.rust_name(tyn);
                Ok(
                    FieldDecl {
                        ident: name.local_name().clone(),
                        ty: RustType::Named(id),
                        write_name: xml_name(name.index(), name.local_name().as_str()),
                        read_name: name.local_name().clone(),
                    },
                )
            },
        },
        FieldKind::Inner(k) => match k {
            TypeKind::Struct(fields) => {
                if fields.len() == 1 {
                    let inner = &fields[0];
                    proof {
                        crate::types::lemma_view_fields(fields@);
                        assert(crate::types::view_fields(fields@).last() == crate::types::view_field(
                            fields@[0],
                        ));
                        assert(decreases_to!(*fk => fields@[0].ty));
                    }
                    field_codegen(state, name, &inner.ty)
                } else {
                    proof {
                        crate::types::lemma_view_fields(fields@);
                    }
                    Err(Error::StructuralError)
                }
            },
            _ => Err(Error::StructuralError),
        },
    }
}

/// Plans a field list in order.
pub fn fields_codegen(state: &mut State, fields: &Vec<Field>) -> (r: Result<Vec<FieldDecl>, Error>)
    requires
        old(state).wf(),
    ensures
        final(state).wf(),
        match r {
            Ok(fds) => spec_fields_decl(old(state)@, crate::types::view_fields(fields@)) == Ok::<
                _,
                (),
            >((crate::types::seq_view(fds@), final(state)@)),
            Err(e) => spec_fields_decl(old(state)@, crate::types::view_fields(fields@)) is Err && (
            e matches Error::StructuralError),
        },
{
    let ghost fv = crate::types::view_fields(fields@);
    proof {
        crate::types::lemma_view_fields(fields@);
    }
    let mut out: Vec<FieldDecl> = Vec::new();
    let n = fields.len();
    let mut i: usize = 0;
    proof {
        assert(crate::types::seq_view(out@) =~= Seq::<FieldDeclView>::empty());
        assert(fv.take(0) =~= Seq::<crate::types::FieldView>::empty());
    }
    #[verifier::loop_isolation(false)]
    while i < n
        invariant
            0 <= i <= n,
            state.wf(),
            spec_fields_decl(old(state)@, fv.take(i as int)) == Ok::<_, ()>(
                (crate::types::seq_view(out@), state@),
            ),
        decreases n - i,
    {
        let f = &fields[i];
        proof {
            assert(fv[i as int] == crate::types::view_field(fields@[i as int]));
            assert(fv.take(i as int).push(fv[i as int]) =~= fv.take(i as int + 1));
            assert(fv.take(i as int + 1).drop_last() =~= fv.take(i as int));
            assert(fv.take(i as int + 1).last() == fv[i as int]);
        }
        let ghost st_entry = state@;
        match field_codegen(state, &f.name, &f.ty) {
            Ok(fd) => {
                proof {
                    crate::types::lemma_seq_view_push(out@, fd);
                }
                out.push(fd);
            },
            Err(e) => {
                proof {
                    lemma_fields_decl_err(old(state)@, fv, i as int, st_entry);
                }
                return Err(e);
            },
        }
        i = i + 1;
    }
    proof {
        assert(fv.take(n as int) =~= fv);
    }
    Ok(out)
}

/// A failing field makes the whole field list fail.
proof fn lemma_fields_decl_err(
    st: StateView,
    fields: Seq<crate::types::FieldView>,
    j: int,
    stj: StateView,
)
    requires
        0 <= j < fields.len(),
        spec_fields_decl(st, fields.take(j)) matches Ok(p) && p.1 == stj,
        spec_field_decl(stj, fields[j].name, fields[j].ty) is Err,
    ensures
        spec_fields_decl(st, fields) is Err,
    decreases fields.len(),
{
    if j == fields.len() - 1 {
        assert(fields.take(j) =~= fields.drop_last());
    } else {
        assert(fields.drop_last().take(j) =~= fields.take(j));
        assert(fields.drop_last()[j] == fields[j]);
        lemma_fields_decl_err(st, fields.drop_last(), j, stj);
    }
}

/// Plans one named type.
pub fn type_codegen(state: &mut State, t: &crate::types::Type) -> (r: Result<
    Option<RustItem>,
    Error,
>)
    requires
        old(state).wf(),
    ensures
        final(state).wf(),
        match r {
            Ok(item) => spec_type_codegen(old(state)@, t@) == Ok::<_, ()>(
                (
                    match item {
                        Some(it) => Some(it@),
                        None => None,
                    },
                    final(state)@,
                ),
            ),
            Err(e) => spec_type_codegen(old(state)@, t@) is Err && (
            e matches Error::StructuralError),
        },
{
    if !state.is_new_type(t.name.clone()) {
        return Ok(None);
    }
    let ident = state.rust_name(&t.name);
    let write_name = xml_name(t.name.index(), t.name.local_name().as_str());
    match &t.kind {
        TypeKind::Simple(tyn) => match get_ty_ident(tyn.local_name().as_str()) {
            Some(p) => Ok(
                Some(
                    RustItem::Newtype {
                        ident,
                        write_name,
                        read_name: t.name.local_name().clone(),
                        prim: p,
                    },
                ),
            ),
            None => Err(Error::StructuralError),
        },
        TypeKind::Struct(fields) => match fields_codegen(state, fields) {
            Ok(fds) => Ok(
                Some(
                    RustItem::Record {
                        ident,
                        write_name,
                        read_name: t.name.local_name().clone(),
                        fields: fds,
                    },
                ),
            ),
            Err(e) => Err(e),
        },
        TypeKind::Alias(a) => {
            if *a == t.name {
                Ok(None)
            } else {
                match get_ty_ident(a.local_name().as_str()) {
                    Some(p) => Ok(
                        Some(RustItem::TypeAlias { ident, target: RustType::Prim(p) }),
                    ),
                    None => {
                        let aid = state.rust_name(a);
                        Ok(Some(RustItem::TypeAlias { ident, target: RustType::Named(aid) }))
                    },
                }
            }
        },
    }
}

/// Plans one message.
pub fn message_codegen(state: &mut State, m: &crate::types::Message) -> (r: Result<RustItem, Error>)
    requires
        old(state).wf(),
    ensures
        final(state).wf(),
        match r {
            Ok(item) => spec_message_codegen(old(state)@, m@) == Ok::<_, ()>(
                (item@, final(state)@),
            ),
            Err(e) => spec_message_codegen(old(state)@, m@) is Err && (
            e matches Error::StructuralError),
        },
{
    let ident = state.rust_name(&m.name);
    let write_name = xml_name(m.name.index(), m.name.local_name().as_str());
    match fields_codegen(state, &m.parts) {
        Ok(fds) => Ok(
            RustItem::Record {
                ident,
                write_name,
                read_name: m.name.local_name().clone(),
                fields: fds,
            },
        ),
        Err(e) => Err(e),
    }
}

/// Plans one operation.
pub fn operation_codegen(state: &mut State, o: &crate::types::Operation) -> (r: OpDecl)
    requires
        old(state).wf(),
    ensures
        final(state).wf(),
        spec_op_codegen(old(state)@, o@) == (r@, final(state)@),
{
    let ident = state.rust_name(&o.name);
    let input = match &o.input {
        Some(inn) => Some(state.rust_name(inn)),
        None => None,
    };
    let output = match &o.output {
        Some(outn) => Some(state.rust_name(outn)),
        None => None,
    };
    OpDecl { ident, input, output }
}

/// Plans one port.
pub fn port_codegen(state: &mut State, p: &crate::resolve::Port) -> (r: PortDecl)
    requires
        old(state).wf(),
    ensures
        final(state).wf(),
        spec_port_codegen(old(state)@, p@) == (r@, final(state)@),
{
    let ident = state.rust_name(&p.name);
    let ghost st1 = state@;
    let ghost pv = crate::types::seq_view(p.operations@);
    let mut operations: Vec<OpDecl> = Vec::new();
    let n = p.operations.len();
    let mut i: usize = 0;
    proof {
        assert(crate::types::seq_view(operations@) =~= Seq::<OpDeclView>::empty());
        assert(pv.take(0) =~= Seq::<crate::types::OperationView>::empty());
    }
    #[verifier::loop_isolation(false)]
    while i < n
        invariant
            0 <= i <= n,
            state.wf(),
            spec_ops_codegen(st1, pv.take(i as int)) == (
                crate::types::seq_view(operations@),
                state@,
            ),
        decreases n - i,
    {
        proof {
            crate::types::lemma_seq_view_index(p.operations@);
            assert(pv.take(i as int).push(pv[i as int]) =~= pv.take(i as int + 1));
            assert(pv.take(i as int + 1).drop_last() =~= pv.take(i as int));
            assert(pv.take(i as int + 1).last() == pv[i as int]);
        }
        let od = operation_codegen(state, &p.operations[i]);
        proof {
            crate::types::lemma_seq_view_push(operations@, od);
        }
        operations.push(od);
        i = i + 1;
    }
    proof {
        assert(pv.take(n as int) =~= pv);
    }
    PortDecl { ident, location: p.location.clone(), operations }
}

/// Plans one service.
pub fn service_codegen(state: &mut State, s: &crate::resolve::Service) -> (r: ServiceDecl)
    requires
        old(state).wf(),
    ensures
        final(state).wf(),
        spec_service_codegen(old(state)@, s@) == (r@, final(state)@),
{
    let ident = state.rust_name(&s.name);
    let ghost st1 = state@;
    let ghost sv = crate::types::seq_view(s.ports@);
    let mut ports: Vec<PortDecl> = Vec::new();
    let n = s.ports.len();
    let mut i: usize = 0;
    proof {
        assert(crate::types::seq_view(ports@) =~= Seq::<PortDeclView>::empty());
        assert(sv.take(0) =~= Seq::<crate::resolve::ResolvedPortView>::empty());
    }
    #[verifier::loop_isolation(false)]
    while i < n
        invariant
            0 <= i <= n,
            state.wf(),
            spec_ports_codegen(st1, sv.take(i as int)) == (
                crate::types::seq_view(ports@),
                state@,
            ),
        decreases n - i,
    {
        proof {
            crate::types::lemma_seq_view_index(s.ports@);
            assert(sv.take(i as int).push(sv[i as int]) =~= sv.take(i as int + 1));
            assert(sv.take(i as int + 1).drop_last() =~= sv.take(i as int));
            assert(sv.take(i as int + 1).last() == sv[i as int]);
        }
        let pd = port_codegen(state, &s.ports[i]);
        proof {
            crate::types::lemma_seq_view_push(ports@, pd);
        }
        ports.push(pd);
        i = i + 1;
    }
    proof {
        assert(sv.take(n as int) =~= sv);
    }
    ServiceDecl { ident, ports }
}

/// Plans the whole generated library from a resolved definition: types,
/// then messages, then services, sharing one disambiguator, together with
/// the `xmlns:ns{i}` declarations of every interned namespace.
#[verifier::rlimit(100)]
pub fn codegen(
    definition: &crate::resolve::Definition,
    namespaces: &crate::types::Namespaces,
) -> (r: Result<GeneratedCode, Error>)
    ensures
        match r {
            Ok(g) => spec_codegen(
                definition@,
                namespaces@,
                StateView { added: Seq::empty(), names: Seq::empty(), counts: Seq::empty() },
            ) == Ok::<_, ()>(g@),
            Err(e) => spec_codegen(
                definition@,
                namespaces@,
                StateView { added: Seq::empty(), names: Seq::empty(), counts: Seq::empty() },
            ) is Err && (e matches Error::StructuralError),
        },
{
    let mut state = State::new();
    proof {
        assert(state@ == (StateView {
            added: Seq::<NameView>::empty(),
            names: Seq::<(NameView, Seq<char>)>::empty(),
            counts: Seq::<(Seq<char>, u64)>::empty(),
        }));
    }
    let ghost st0 = state@;

    // types
    let ghost tv = crate::types::seq_view(definition.types@);
    let mut types: Vec<RustItem> = Vec::new();
    let nt = definition.types.len();
    let mut i: usize = 0;
    proof {
        assert(crate::types::seq_view(types@) =~= Seq::<RustItemView>::empty());
        assert(tv.take(0) =~= Seq::<crate::types::TypeView>::empty());
    }
    #[verifier::loop_isolation(false)]
    while i < nt
        invariant
            0 <= i <= nt,
            state.wf(),
            spec_types_codegen(st0, tv.take(i as int)) == Ok::<_, ()>(
                (crate::types::seq_view(types@), state@),
            ),
        decreases nt - i,
    {
        proof {
            crate::types::lemma_seq_view_index(definition.types@);
            assert(tv.take(i as int).push(tv[i as int]) =~= tv.take(i as int + 1));
            assert(tv.take(i as int + 1).drop_last() =~= tv.take(i as int));
            assert(tv.take(i as int + 1).last() == tv[i as int]);
        }
        let ghost st_entry = state@;
        match type_codegen(&mut state, &definition.types[i]) {
            Ok(Some(item)) => {
                proof {
                    crate::types::lemma_seq_view_push(types@, item);
                }
                types.push(item);
            },
            Ok(None) => {},
            Err(e) => {
                proof {
                    lemma_types_codegen_err(st0, tv, i as int, st_entry);
                }
                return Err(e);
            },
        }
        i = i + 1;
    }
    proof {
        assert(tv.take(nt as int) =~= tv);
    }

    // messages
    let ghost st1 = state@;
    let ghost mv = crate::types::seq_view(definition.messages@);
    let mut messages: Vec<RustItem> = Vec::new();
    let nm = definition.messages.len();
    let mut j: usize = 0;
    proof {
        assert(crate::types::seq_view(messages@) =~= Seq::<RustItemView>::empty());
        assert(mv.take(0) =~= Seq::<crate::types::MessageView>::empty());
    }
    #[verifier::loop_isolation(false)]
    while j < nm
        invariant
            0 <= j <= nm,
            state.wf(),
            spec_messages_codegen(st1, mv.take(j as int)) == Ok::<_, ()>(
                (crate::types::seq_view(messages@), state@),
            ),
        decreases nm - j,
    {
        proof {
            crate::types::lemma_seq_view_index(definition.messages@);
            assert(mv.take(j as int).push(mv[j as int]) =~= mv.take(j as int + 1));
            assert(mv.take(j as int + 1).drop_last() =~= mv.take(j as int));
            assert(mv.take(j as int + 1).last() == mv[j as int]);
        }
        let ghost st_entry = state@;
        match message_codegen(&mut state, &definition.messages[j]) {
            Ok(item) => {
                proof {
                    crate::types::lemma_seq_view_push(messages@, item);
                }
                messages.push(item);
            },
            Err(e) => {
                proof {
                    lemma_messages_codegen_err(st1, mv, j as int, st_entry);
                }
                return Err(e);
            },
        }
        j = j + 1;
    }
    proof {
        assert(mv.take(nm as int) =~= mv);
    }

    // services
    let ghost st2 = state@;
    let ghost sv = crate::types::seq_view(definition.services@);
    let mut services: Vec<ServiceDecl> = Vec::new();
    let nsv = definition.services.len();
    let mut k: usize = 0;
    proof {
        assert(crate::types::seq_view(services@) =~= Seq::<ServiceDeclView>::empty());
        assert(sv.take(0) =~= Seq::<crate::resolve::ResolvedServiceView>::empty());
    }
    #[verifier::loop_isolation(false)]
    while k < nsv
        invariant
            0 <= k <= nsv,
            state.wf(),
            spec_services_codegen(st2, sv.take(k as int)) == (
                crate::types::seq_view(services@),
                state@,
            ),
        decreases nsv - k,
    {
        proof {
            crate::types::lemma_seq_view_index(definition.services@);
            assert(sv.take(k as int).push(sv[k as int]) =~= sv.take(k as int + 1));
            assert(sv.take(k as int + 1).drop_last() =~= sv.take(k as int));
            assert(sv.take(k as int + 1).last() == sv[k as int]);
        }
        let sd = service_codegen(&mut state, &definition.services[k]);
        proof {
            crate::types::lemma_seq_view_push(services@, sd);
        }
        services.push(sd);
        k = k + 1;
    }
    proof {
        assert(sv.take(nsv as int) =~= sv);
    }

    // namespace declarations
    let uris = namespaces.namespaces();
    let mut ns_decls: Vec<(String, String)> = Vec::new();
    let nu = uris.len();
    let mut u: usize = 0;
    proof {
        reveal_strlit("xmlns:ns");
    }
    #[verifier::loop_isolation(false)]
    while u < nu
        invariant
            0 <= u <= nu,
            ns_decls@.len() == u,
            forall|x: int| 0 <= x < u ==> (#[trigger] ns_decls@[x].0)@ == "xmlns:ns"@ + dec_rep(
                x as nat,
            ) && ns_decls@[x].1@ == namespaces@[x],
        decreases nu - u,
    {
        let mut key: String = "xmlns:ns".to_owned();
        key.append(crate::num::usize_to_string(u).as_str());
        ns_decls.push((key, uris[u].clone()));
        proof {
            assert(uris.deep_view()[u as int] == namespaces@[u as int]);
        }
        u = u + 1;
    }
    proof {
        assert(crate::event::attrs_view(ns_decls@) =~= spec_ns_decls(namespaces@));
    }
    Ok(GeneratedCode { namespaces: ns_decls, types, messages, services })
}

/// A failing type makes the whole type list fail.
proof fn lemma_types_codegen_err(
    st: StateView,
    types: Seq<crate::types::TypeView>,
    j: int,
    stj: StateView,
)
    requires
        0 <= j < types.len(),
        spec_types_codegen(st, types.take(j)) matches Ok(p) && p.1 == stj,
        spec_type_codegen(stj, types[j]) is Err,
    ensures
        spec_types_codegen(st, types) is Err,
    decreases types.len(),
{
    if j == types.len() - 1 {
        assert(types.take(j) =~= types.drop_last());
    } else {
        assert(types.drop_last().take(j) =~= types.take(j));
        assert(types.drop_last()[j] == types[j]);
        lemma_types_codegen_err(st, types.drop_last(), j, stj);
    }
}

/// A failing message makes the whole message list fail.
proof fn lemma_messages_codegen_err(
    st: StateView,
    messages: Seq<crate::types::MessageView>,
    j: int,
    stj: StateView,
)
    requires
        0 <= j < messages.len(),
        spec_messages_codegen(st, messages.take(j)) matches Ok(p) && p.1 == stj,
        spec_message_codegen(stj, messages[j]) is Err,
    ensures
        spec_messages_codegen(st, messages) is Err,
    decreases messages.len(),
{
    if j == messages.len() - 1 {
        assert(messages.take(j) =~= messages.drop_last());
    } else {
        assert(messages.drop_last().take(j) =~= messages.take(j));
        assert(messages.drop_last()[j] == messages[j]);
        lemma_messages_codegen_err(st, messages.drop_last(), j, stj);
    }
}

/// An anonymous inline type with a single member collapses into the
/// field that introduced it: the plan for the field is the plan for the
/// inner member under the outer field's name, and no separate declaration
/// is made for the inline type.
pub proof fn lemma_inline_type_collapses(
    st: StateView,
    name: NameView,
    inner: crate::types::FieldView,
)
    ensures
        spec_field_decl(
            st,
            name,
            crate::types::FieldKindView::Inner(crate::types::TypeKindView::Struct(seq![inner])),
        ) == spec_field_decl(st, name, inner.ty),
{
    let fields = seq![inner];
    assert(fields.last() == inner);
}

/// A `simpleType` by restriction of a built-in plans as a newtype over
/// that built-in.
pub proof fn lemma_restriction_becomes_newtype(st: StateView, t: crate::types::TypeView)
    requires
        t.kind matches crate::types::TypeKindView::Simple(base) && spec_builtin(base.local)
            is Some,
        spec_is_new_type(st, t.name).0,
    ensures
        ({
            let (item, _) = spec_type_codegen(st, t)->Ok_0;
            let (ident, st2) = spec_rust_name(spec_is_new_type(st, t.name).1, t.name);
            spec_type_codegen(st, t) is Ok && (item matches Some(RustItemView::Newtype {
                ident: id,
                prim,
                ..
            }) && id == ident && Some(prim) == spec_builtin((t.kind->Simple_0).local))
        }),
{
}

/// Two distinct names sharing a local name, asked of a fresh
/// disambiguator in turn, get the bare local name and then the local
/// name with `1` appended — whatever their namespace indices; the
/// written tag of each type keeps its own namespace index, by
/// `spec_xml_name`.
pub proof fn lemma_repeated_locals_are_suffixed(n1: NameView, n2: NameView)
    requires
        n1.local == n2.local,
        n1 != n2,
    ensures
        ({
            let st0 = StateView {
                added: Seq::empty(),
                names: Seq::empty(),
                counts: Seq::empty(),
            };
            let (id1, st1) = spec_rust_name(st0, n1);
            let (id2, _) = spec_rust_name(st1, n2);
            id1 == n1.local && id2 == n2.local + dec_rep(1)
        }),
{
    let st0 = StateView { added: Seq::empty(), names: Seq::empty(), counts: Seq::empty() };
    assert(spec_lookup_name(st0.names, n1) is None);
    assert(spec_lookup_count(st0.counts, n1.local) is None);
    let (id1, st1) = spec_rust_name(st0, n1);
    assert(id1 == n1.local);
    assert(st1.names == st0.names.push((n1, n1.local)));
    assert(st1.counts == st0.counts.push((n1.local, 0u64)));
    assert(st1.names[0] == (n1, n1.local));
    assert(st1.names.drop_first() =~= Seq::<(NameView, Seq<char>)>::empty());
    assert(st1.names[0].0 != n2);
    assert(spec_lookup_name(st1.names, n2) == spec_lookup_name(st1.names.drop_first(), n2));
    assert(spec_lookup_name(st1.names.drop_first(), n2) is None);
    assert(st1.counts[0] == (n1.local, 0u64));
    assert(st1.counts[0].0 == n2.local);
    assert(spec_lookup_count(st1.counts, n2.local) == Some(0u64));
    let (id2, _) = spec_rust_name(st1, n2);
    assert(id2 == n2.local + dec_rep(1));
}

/// Resolves a parsed definition and plans the generated library: the
/// compute part of generating from a URL, which the caller composes with
/// document loading.
pub fn from_definition(
    definition: &crate::types::Definition,
    namespaces: &crate::types::Namespaces,
) -> (r: Result<GeneratedCode, Error>)
    ensures
        match r {
            Ok(g) => crate::resolve::spec_preprocess(definition@) matches Ok(rd) && spec_codegen(
                rd,
                namespaces@,
                StateView { added: Seq::empty(), names: Seq::empty(), counts: Seq::empty() },
            ) == Ok::<_, ()>(g@),
            Err(e) => (e matches Error::StructuralError) && (crate::resolve::spec_preprocess(
                definition@,
            ) is Err || (crate::resolve::spec_preprocess(definition@) matches Ok(rd)
                && spec_codegen(
                rd,
                namespaces@,
                StateView { added: Seq::empty(), names: Seq::empty(), counts: Seq::empty() },
            ) is Err)),
        },
{
    match crate::resolve::preprocess(definition) {
        Ok(resolved) => codegen(&resolved, namespaces),
        Err(e) => Err(e),
    }
}

} // verus!
