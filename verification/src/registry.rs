//! The variable registry: a deduplicated mapping from mangled placeholder
//! names to the Rust identifiers they stand for, kept in mangled-name
//! order so that everything derived from it is independent of the order
//! in which captures appeared in the token stream.

use vstd::prelude::*;

use crate::text::lex_lt;

verus! {

/// One capture: a mangled placeholder name and the Rust identifier it
/// stands for.
#[derive(Debug)]
pub struct Binding {
    pub mangled: String,
    pub ident: String,
}

impl View for Binding {
    type V = (Seq<char>, Seq<char>);

    open spec fn view(&self) -> (Seq<char>, Seq<char>) {
        (self.mangled@, self.ident@)
    }
}

/// Entries are strictly ordered by mangled name.
pub open spec fn registry_sorted(s: Seq<(Seq<char>, Seq<char>)>) -> bool {
    forall|i: int, j: int| 0 <= i < j < s.len() ==> lex_lt(#[trigger] s[i].0, #[trigger] s[j].0)
}

/// Whether some entry carries the mangled name `k`.
pub open spec fn registry_contains_key(s: Seq<(Seq<char>, Seq<char>)>, k: Seq<char>) -> bool {
    exists|i: int| 0 <= i < s.len() && #[trigger] s[i].0 == k
}

/// Insertion into the ordered registry: a new name takes its place in
/// mangled-name order; a name already present keeps its first identifier.
pub open spec fn spec_insert(
    s: Seq<(Seq<char>, Seq<char>)>,
    m: Seq<char>,
    id: Seq<char>,
) -> Seq<(Seq<char>, Seq<char>)>
    decreases s.len(),
{
    if s.len() == 0 {
        seq![(m, id)]
    } else if s[0].0 == m {
        s
    } else if lex_lt(m, s[0].0) {
        seq![(m, id)] + s
    } else {
        seq![s[0]] + spec_insert(s.subrange(1, s.len() as int), m, id)
    }
}

/// What `spec_insert` does to an ordered registry: the order is kept, an
/// already-registered name leaves the registry unchanged, and a new name
/// adds exactly its own entry.
pub proof fn lemma_spec_insert(s: Seq<(Seq<char>, Seq<char>)>, m: Seq<char>, id: Seq<char>)
    requires
        registry_sorted(s),
    ensures
        registry_sorted(spec_insert(s, m, id)),
        registry_contains_key(s, m) ==> spec_insert(s, m, id) == s,
        !registry_contains_key(s, m) ==> forall|p: (Seq<char>, Seq<char>)|
            #![trigger spec_insert(s, m, id).contains(p)]
            spec_insert(s, m, id).contains(p) <==> (s.contains(p) || p == (m, id)),
        registry_contains_key(spec_insert(s, m, id), m),
        spec_insert(s, m, id).len() == if registry_contains_key(s, m) {
            s.len()
        } else {
            s.len() + 1
        },
    decreases s.len(),
{
    let ins = spec_insert(s, m, id);
    if s.len() == 0 {
        assert(ins[0].0 == m);
        assert forall|p: (Seq<char>, Seq<char>)| ins.contains(p) <==> (s.contains(p) || p == (m,
        id)) by {
            if p == (m, id) {
                assert(ins[0] == p);
            }
        }
    } else if s[0].0 == m {
        assert(registry_contains_key(s, m));
    } else if lex_lt(m, s[0].0) {
        crate::text::lemma_lex_irreflexive(m);
        assert forall|i: int| 0 <= i < s.len() implies !(s[i].0 == m) by {
            if i > 0 {
                crate::text::lemma_lex_transitive(m, s[0].0, s[i].0);
            }
            crate::text::lemma_lex_asymmetric(m, s[i].0);
        }
        assert(!registry_contains_key(s, m));
        assert forall|i: int, j: int| 0 <= i < j < ins.len() implies lex_lt(ins[i].0, ins[j].0) by {
            if i == 0 {
                if j > 1 {
                    crate::text::lemma_lex_transitive(m, s[0].0, s[j - 1].0);
                }
            } else {
                assert(ins[i] == s[i - 1]);
                assert(ins[j] == s[j - 1]);
            }
        }
        assert(ins[0].0 == m);
        assert forall|p: (Seq<char>, Seq<char>)| ins.contains(p) <==> (s.contains(p) || p == (m,
        id)) by {
            if ins.contains(p) {
                let i = choose|i: int| 0 <= i < ins.len() && ins[i] == p;
                if i > 0 {
                    assert(s[i - 1] == p);
                }
            }
            if s.contains(p) {
                let i = choose|i: int| 0 <= i < s.len() && s[i] == p;
                assert(ins[i + 1] == p);
            }
            if p == (m, id) {
                assert(ins[0] == p);
            }
        }
    } else {
        let t = s.subrange(1, s.len() as int);
        let tins = spec_insert(t, m, id);
        crate::text::lemma_lex_trichotomy(m, s[0].0);
        assert(lex_lt(s[0].0, m));
        assert forall|i: int, j: int| 0 <= i < j < t.len() implies lex_lt(t[i].0, t[j].0) by {
            assert(t[i] == s[i + 1]);
            assert(t[j] == s[j + 1]);
        }
        lemma_spec_insert(t, m, id);
        assert(registry_contains_key(t, m) ==> registry_contains_key(s, m)) by {
            if registry_contains_key(t, m) {
                let i = choose|i: int| 0 <= i < t.len() && t[i].0 == m;
                assert(s[i + 1].0 == m);
            }
        }
        assert(registry_contains_key(s, m) ==> registry_contains_key(t, m)) by {
            if registry_contains_key(s, m) {
                let i = choose|i: int| 0 <= i < s.len() && s[i].0 == m;
                crate::text::lemma_lex_irreflexive(m);
                assert(i != 0);
                assert(t[i - 1].0 == m);
            }
        }
        // every key in the inserted tail is either m or a tail key, so the
        // head stays below all of them
        assert forall|j: int| 0 <= j < tins.len() implies lex_lt(s[0].0, tins[j].0) by {
            if registry_contains_key(t, m) {
                assert(tins == t);
                assert(lex_lt(s[0].0, s[j + 1].0));
            } else {
                assert(tins.contains(tins[j]));
                if tins[j] == (m, id) {
                    assert(lex_lt(s[0].0, m));
                } else {
                    assert(t.contains(tins[j]));
                    let k = choose|k: int| 0 <= k < t.len() && t[k] == tins[j];
                    assert(lex_lt(s[0].0, s[k + 1].0));
                }
            }
        }
        assert forall|i: int, j: int| 0 <= i < j < ins.len() implies lex_lt(ins[i].0, ins[j].0) by {
            if i == 0 {
                assert(ins[j] == tins[j - 1]);
            } else {
                assert(ins[i] == tins[i - 1]);
                assert(ins[j] == tins[j - 1]);
            }
        }
        if registry_contains_key(s, m) {
            assert(tins == t);
            assert(ins =~= s);
        } else {
            assert forall|p: (Seq<char>, Seq<char>)| ins.contains(p) <==> (s.contains(p) || p == (
            m,
            id)) by {
                if ins.contains(p) {
                    let i = choose|i: int| 0 <= i < ins.len() && ins[i] == p;
                    if i == 0 {
                        assert(s[0] == p);
                    } else {
                        assert(tins[i - 1] == p);
                        assert(tins.contains(tins[i - 1]));
                        if t.contains(p) {
                            let k = choose|k: int| 0 <= k < t.len() && t[k] == p;
                            assert(s[k + 1] == p);
                        }
                    }
                }
                if s.contains(p) {
                    let i = choose|i: int| 0 <= i < s.len() && s[i] == p;
                    if i == 0 {
                        assert(ins[0] == p);
                    } else {
                        assert(t[i - 1] == p);
                        assert(t.contains(p));
                        assert(tins.contains(p));
                        let k = choose|k: int| 0 <= k < tins.len() && tins[k] == p;
                        assert(ins[k + 1] == p);
                    }
                }
                if p == (m, id) {
                    assert(tins.contains(p));
                    let k = choose|k: int| 0 <= k < tins.len() && tins[k] == p;
                    assert(ins[k + 1] == p);
                }
            }
            let k = choose|k: int| 0 <= k < tins.len() && tins[k].0 == m;
            assert(ins[k + 1].0 == m);
        }
    }
}

/// In an ordered registry every mangled name occurs at most once.
pub proof fn lemma_sorted_keys_unique(s: Seq<(Seq<char>, Seq<char>)>)
    requires
        registry_sorted(s),
    ensures
        forall|i: int, j: int|
            0 <= i < s.len() && 0 <= j < s.len() && i != j ==> #[trigger] s[i].0 != #[trigger] s[j].0,
{
    assert forall|i: int, j: int|
        0 <= i < s.len() && 0 <= j < s.len() && i != j implies s[i].0 != s[j].0 by {
        if i < j {
            crate::text::lemma_lex_irreflexive(s[i].0);
        } else {
            crate::text::lemma_lex_irreflexive(s[j].0);
        }
    }
}

/// Registry iteration order depends only on the set of entries: two
/// ordered registries holding the same entries are identical.
pub proof fn lemma_sorted_same_entries_equal(
    a: Seq<(Seq<char>, Seq<char>)>,
    b: Seq<(Seq<char>, Seq<char>)>,
)
    requires
        registry_sorted(a),
        registry_sorted(b),
        forall|p: (Seq<char>, Seq<char>)| a.contains(p) <==> b.contains(p),
    ensures
        a == b,
    decreases a.len(),
{
    if a.len() == 0 {
        if b.len() > 0 {
            assert(b.contains(b[0]));
            assert(a.contains(b[0]));
        }
        assert(a =~= b);
    } else {
        assert(a.contains(a[0]));
        assert(b.contains(a[0]));
        let jb = choose|j: int| 0 <= j < b.len() && b[j] == a[0];
        assert(b.contains(b[0]));
        assert(a.contains(b[0]));
        let ja = choose|j: int| 0 <= j < a.len() && a[j] == b[0];
        if jb > 0 && ja > 0 {
            assert(lex_lt(b[0].0, a[0].0));
            assert(lex_lt(a[0].0, b[0].0));
            crate::text::lemma_lex_asymmetric(a[0].0, b[0].0);
            assert(false);
        }
        assert(a[0] == b[0]);
        let at = a.subrange(1, a.len() as int);
        let bt = b.subrange(1, b.len() as int);
        assert forall|i: int, j: int| 0 <= i < j < at.len() implies lex_lt(at[i].0, at[j].0) by {
            assert(at[i] == a[i + 1]);
            assert(at[j] == a[j + 1]);
        }
        assert forall|i: int, j: int| 0 <= i < j < bt.len() implies lex_lt(bt[i].0, bt[j].0) by {
            assert(bt[i] == b[i + 1]);
            assert(bt[j] == b[j + 1]);
        }
        assert forall|p: (Seq<char>, Seq<char>)| at.contains(p) <==> bt.contains(p) by {
            if at.contains(p) {
                let i = choose|i: int| 0 <= i < at.len() && at[i] == p;
                assert(a[i + 1] == p);
                assert(a.contains(p));
                assert(lex_lt(a[0].0, p.0));
                crate::text::lemma_lex_irreflexive(p.0);
                assert(b.contains(p));
                let j = choose|j: int| 0 <= j < b.len() && b[j] == p;
                assert(j != 0);
                assert(bt[j - 1] == p);
            }
            if bt.contains(p) {
                let i = choose|i: int| 0 <= i < bt.len() && bt[i] == p;
                assert(b[i + 1] == p);
                assert(b.contains(p));
                assert(lex_lt(b[0].0, p.0));
                crate::text::lemma_lex_irreflexive(p.0);
                assert(a.contains(p));
                let j = choose|j: int| 0 <= j < a.len() && a[j] == p;
                assert(j != 0);
                assert(at[j - 1] == p);
            }
        }
        lemma_sorted_same_entries_equal(at, bt);
        assert forall|i: int| 0 <= i < a.len() implies a[i] == b[i] by {
            if i >= 1 {
                assert(a[i] == at[i - 1]);
                assert(b[i] == bt[i - 1]);
            }
        }
        assert(a =~= b);
    }
}

/// The ordered, deduplicated registry of captured variables.
#[derive(Debug)]
pub struct Registry {
    pub entries: Vec<Binding>,
}

impl View for Registry {
    type V = Seq<(Seq<char>, Seq<char>)>;

    open spec fn view(&self) -> Seq<(Seq<char>, Seq<char>)> {
        self.entries@.map_values(|b: Binding| b@)
    }
}

impl Registry {
    /// A registry with no captures.
    pub fn new() -> (r: Registry)
        ensures
            r@ == Seq::<(Seq<char>, Seq<char>)>::empty(),
    {
        let r = Registry { entries: Vec::new() };
        proof {
            assert(r@ =~= Seq::<(Seq<char>, Seq<char>)>::empty());
        }
        r
    }

    /// Registers a capture, keeping the entries in mangled-name order and
    /// keeping the existing identifier when the name is already present.
    pub fn insert(&mut self, mangled: String, ident: String)
        requires
            registry_sorted(old(self)@),
        ensures
            final(self)@ == spec_insert(old(self)@, mangled@, ident@),
            registry_sorted(final(self)@),
    {
        let ghost orig = self@;
        let ghost m = mangled@;
        let ghost idv = ident@;
        let n = self.entries.len();
        let mut i: usize = 0;
        proof {
            assert(orig.subrange(0, orig.len() as int) =~= orig);
            assert(orig.subrange(0, 0) =~= Seq::<(Seq<char>, Seq<char>)>::empty());
        }
        while i < n
            invariant
                n == self.entries.len(),
                i <= n,
                orig == old(self)@,
                m == mangled@,
                idv == ident@,
                self@ == orig,
                registry_sorted(orig),
                orig.len() == self.entries@.len(),
                spec_insert(orig, m, idv) == orig.subrange(0, i as int) + spec_insert(
                    orig.subrange(i as int, orig.len() as int),
                    m,
                    idv,
                ),
                forall|k: int| 0 <= k < i ==> #[trigger] orig[k].0 != m && lex_lt(orig[k].0, m),
            decreases n - i,
        {
            let ghost rest = orig.subrange(i as int, orig.len() as int);
            proof {
                assert(rest[0] == orig[i as int]);
                assert(orig[i as int] == self.entries@.map_values(|b: Binding| b@)[i as int]);
                assert(orig[i as int] == self.entries@[i as int]@);
                assert(rest[0].0 == self.entries@[i as int].mangled@);
            }
            if self.entries[i].mangled.eq(&mangled) {
                proof {
                    assert(rest[0].0 == m);
                    assert(spec_insert(rest, m, idv) == rest);
                    assert(orig.subrange(0, i as int) + rest =~= orig);
                }
                return ;
            }
            if crate::text::str_lex_lt(&mangled, &self.entries[i].mangled) {
                proof {
                    assert(lex_lt(m, rest[0].0));
                    assert(spec_insert(rest, m, idv) == seq![(m, idv)] + rest);
                }
                let b = Binding { mangled, ident };
                self.entries.insert(i, b);
                proof {
                    assert(self@ =~= orig.subrange(0, i as int) + (seq![(m, idv)] + rest));
                    lemma_spec_insert(orig, m, idv);
                }
                return ;
            }
            proof {
                crate::text::lemma_lex_trichotomy(m, rest[0].0);
                assert(lex_lt(rest[0].0, m));
                assert(spec_insert(rest, m, idv) == seq![rest[0]] + spec_insert(
                    rest.subrange(1, rest.len() as int),
                    m,
                    idv,
                ));
                assert(rest.subrange(1, rest.len() as int) =~= orig.subrange(
                    i + 1,
                    orig.len() as int,
                ));
                assert(orig.subrange(0, i as int) + (seq![rest[0]] + spec_insert(
                    orig.subrange(i + 1, orig.len() as int),
                    m,
                    idv,
                )) =~= orig.subrange(0, i + 1) + spec_insert(
                    orig.subrange(i + 1, orig.len() as int),
                    m,
                    idv,
                ));
            }
            i = i + 1;
        }
        proof {
            assert(orig.subrange(i as int, orig.len() as int) =~= Seq::<(
                Seq<char>,
                Seq<char>,
            )>::empty());
            assert(spec_insert(Seq::empty(), m, idv) == seq![(m, idv)]);
        }
        let b = Binding { mangled, ident };
        self.entries.push(b);
        proof {
            assert(self@ =~= orig.subrange(0, n as int) + seq![(m, idv)]);
            assert(orig.subrange(0, n as int) =~= orig);
            lemma_spec_insert(orig, m, idv);
        }
    }
}

} // verus!

