//! Sets of names kept in lexicographic order, so that any text generated
//! from a set depends on its members alone.
use vstd::prelude::*;
use vstd::string::StrSliceExecFns;

verus! {

/// Lexicographic order on character sequences, by code point; the order of
/// Rust's `str` comparison.
pub open spec fn lex_lt(a: Seq<char>, b: Seq<char>) -> bool
    decreases a.len(),
{
    if a.len() == 0 {
        b.len() > 0
    } else if b.len() == 0 {
        false
    } else if a[0] != b[0] {
        a[0] < b[0]
    } else {
        lex_lt(a.drop_first(), b.drop_first())
    }
}

pub proof fn lemma_lex_irreflexive(a: Seq<char>)
    ensures
        !lex_lt(a, a),
    decreases a.len(),
{
    if a.len() > 0 {
        lemma_lex_irreflexive(a.drop_first());
    }
}

pub proof fn lemma_lex_asymmetric(a: Seq<char>, b: Seq<char>)
    ensures
        !(lex_lt(a, b) && lex_lt(b, a)),
    decreases a.len(),
{
    if a.len() > 0 && b.len() > 0 && a[0] == b[0] {
        lemma_lex_asymmetric(a.drop_first(), b.drop_first());
    }
}

pub proof fn lemma_lex_transitive(a: Seq<char>, b: Seq<char>, c: Seq<char>)
    requires
        lex_lt(a, b),
        lex_lt(b, c),
    ensures
        lex_lt(a, c),
    decreases a.len(),
{
    if a.len() > 0 && b.len() > 0 && c.len() > 0 && a[0] == b[0] && b[0] == c[0] {
        lemma_lex_transitive(a.drop_first(), b.drop_first(), c.drop_first());
    }
}

pub proof fn lemma_lex_total(a: Seq<char>, b: Seq<char>)
    ensures
        a == b || lex_lt(a, b) || lex_lt(b, a),
    decreases a.len(),
{
    if a.len() > 0 && b.len() > 0 {
        if a[0] == b[0] {
            lemma_lex_total(a.drop_first(), b.drop_first());
            if a.drop_first() == b.drop_first() {
                assert(a =~= seq![a[0]] + a.drop_first());
                assert(b =~= seq![b[0]] + b.drop_first());
            }
        }
    } else if a.len() == 0 && b.len() == 0 {
        assert(a =~= b);
    }
}

/// Whether `a` comes strictly before `b` in lexicographic order.
pub fn str_lt(a: &str, b: &str) -> (r: bool)
    ensures
        r == lex_lt(a@, b@),
{
    let n = a.unicode_len();
    let m = b.unicode_len();
    let mut i: usize = 0;
    assert(a@.subrange(0, n as int) =~= a@);
    assert(b@.subrange(0, m as int) =~= b@);
    while i < n && i < m
        invariant
            n == a@.len(),
            m == b@.len(),
            i <= n,
            i <= m,
            lex_lt(a@, b@) == lex_lt(a@.subrange(i as int, n as int), b@.subrange(i as int, m as int)),
        decreases n - i,
    {
        let ca = a.get_char(i);
        let cb = b.get_char(i);
        let ghost sa = a@.subrange(i as int, n as int);
        let ghost sb = b@.subrange(i as int, m as int);
        assert(sa[0] == ca && sb[0] == cb);
        if ca != cb {
            return ca < cb;
        }
        assert(sa.drop_first() =~= a@.subrange(i + 1, n as int));
        assert(sb.drop_first() =~= b@.subrange(i + 1, m as int));
        i = i + 1;
    }
    i < m
}

/// Strictly increasing in lexicographic order, hence without repeats.
pub open spec fn strictly_sorted(s: Seq<Seq<char>>) -> bool {
    forall|i: int, j: int| 0 <= i < j < s.len() ==> lex_lt(#[trigger] s[i], #[trigger] s[j])
}

/// The models of a vector of strings.
pub open spec fn strings_view(v: Seq<String>) -> Seq<Seq<char>> {
    v.map_values(|s: String| s@)
}

/// Two strictly sorted sequences with the same members are the same sequence.
pub proof fn lemma_sorted_same_members(a: Seq<Seq<char>>, b: Seq<Seq<char>>)
    requires
        strictly_sorted(a),
        strictly_sorted(b),
        a.to_set() == b.to_set(),
    ensures
        a == b,
    decreases a.len(),
{
    if a.len() == 0 {
        if b.len() > 0 {
            assert(b.to_set().contains(b[0]));
        }
        assert(a =~= b);
    } else if b.len() == 0 {
        assert(a.to_set().contains(a[0]));
    } else {
        assert(b.to_set().contains(a[0]));
        assert(a.to_set().contains(b[0]));
        let j = choose|j: int| 0 <= j < b.len() && b[j] == a[0];
        let k = choose|k: int| 0 <= k < a.len() && a[k] == b[0];
        if a[0] != b[0] {
            assert(j > 0);
            assert(k > 0);
            assert(lex_lt(b[0], b[j]));
            assert(lex_lt(a[0], a[k]));
            lemma_lex_asymmetric(a[0], b[0]);
        }
        let a1 = a.drop_first();
        let b1 = b.drop_first();
        assert forall|x: Seq<char>| a1.to_set().contains(x) <==> b1.to_set().contains(x) by {
            if a1.to_set().contains(x) {
                let p = choose|p: int| 0 <= p < a1.len() && a1[p] == x;
                assert(a[p + 1] == x);
                assert(lex_lt(a[0], a[p + 1]));
                lemma_lex_irreflexive(x);
                assert(a.to_set().contains(x));
                let q = choose|q: int| 0 <= q < b.len() && b[q] == x;
                assert(q != 0);
                assert(b1[q - 1] == x);
            }
            if b1.to_set().contains(x) {
                let p = choose|p: int| 0 <= p < b1.len() && b1[p] == x;
                assert(b[p + 1] == x);
                assert(lex_lt(b[0], b[p + 1]));
                lemma_lex_irreflexive(x);
                assert(b.to_set().contains(x));
                let q = choose|q: int| 0 <= q < a.len() && a[q] == x;
                assert(q != 0);
                assert(a1[q - 1] == x);
            }
        }
        assert(a1.to_set() =~= b1.to_set());
        lemma_sorted_same_members(a1, b1);
        assert(a =~= seq![a[0]] + a1);
        assert(b =~= seq![b[0]] + b1);
    }
}

/// A set of names, held in lexicographic order.
pub struct NameSet {
    names: Vec<String>,
}

impl View for NameSet {
    type V = Set<Seq<char>>;

    closed spec fn view(&self) -> Set<Seq<char>> {
        strings_view(self.names@).to_set()
    }
}

impl NameSet {
    /// The members in lexicographic order.
    pub closed spec fn members(&self) -> Seq<Seq<char>> {
        strings_view(self.names@)
    }

    /// The members are held strictly sorted.
    pub closed spec fn wf(&self) -> bool {
        strictly_sorted(strings_view(self.names@))
    }

    /// The members in order are exactly the set, strictly sorted.
    pub proof fn lemma_members(&self)
        requires
            self.wf(),
        ensures
            strictly_sorted(self.members()),
            self.members().to_set() == self@,
    {
    }

    /// The empty set.
    pub fn new() -> (r: NameSet)
        ensures
            r.wf(),
            r@ == Set::<Seq<char>>::empty(),
    {
        let r = NameSet { names: Vec::new() };
        assert(strings_view(r.names@) =~= Seq::<Seq<char>>::empty());
        assert(r@ =~= Set::<Seq<char>>::empty());
        r
    }

    /// The number of members.
    pub fn len(&self) -> (r: usize)
        requires
            self.wf(),
        ensures
            r == self@.len(),
    {
        proof {
            self.lemma_unique();
            strings_view(self.names@).unique_seq_to_set();
        }
        self.names.len()
    }

    proof fn lemma_unique(&self)
        requires
            self.wf(),
        ensures
            strings_view(self.names@).no_duplicates(),
    {
        let s = strings_view(self.names@);
        assert forall|i: int, j: int| 0 <= i < s.len() && 0 <= j < s.len() && i != j implies s[i] != s[j] by {
            if i < j {
                assert(lex_lt(s[i], s[j]));
                lemma_lex_irreflexive(s[i]);
            } else {
                assert(lex_lt(s[j], s[i]));
                lemma_lex_irreflexive(s[j]);
            }
        }
    }

    /// The member at position `i` in lexicographic order.
    pub fn get(&self, i: usize) -> (r: &String)
        requires
            i < self.members().len(),
        ensures
            r@ == self.members()[i as int],
    {
        &self.names[i]
    }

    /// The number of members, as positions for `get`.
    pub fn count(&self) -> (r: usize)
        ensures
            r == self.members().len(),
    {
        self.names.len()
    }

    /// Whether `name` is a member.
    pub fn contains(&self, name: &str) -> (r: bool)
        ensures
            r == self@.contains(name@),
    {
        let mut i: usize = 0;
        while i < self.names.len()
            invariant
                i <= self.names@.len(),
                forall|k: int| 0 <= k < i ==> strings_view(self.names@)[k] != name@,
            decreases self.names@.len() - i,
        {
            if crate::listing::str_eq(self.names[i].as_str(), name) {
                assert(strings_view(self.names@)[i as int] == name@);
                return true;
            }
            i = i + 1;
        }
        false
    }

    /// Adds `name`; a member already present is kept once.
    pub fn insert(&mut self, name: String)
        requires
            old(self).wf(),
        ensures
            final(self).wf(),
            final(self)@ == old(self)@.insert(name@),
    {
        let ghost old_s = strings_view(self.names@);
        let mut i: usize = 0;
        while i < self.names.len() && str_lt(self.names[i].as_str(), name.as_str())
            invariant
                i <= self.names@.len(),
                old_s == strings_view(self.names@),
                forall|k: int| 0 <= k < i ==> lex_lt(#[trigger] old_s[k], name@),
            decreases self.names@.len() - i,
        {
            i = i + 1;
        }
        if i < self.names.len() && crate::listing::str_eq(self.names[i].as_str(), name.as_str()) {
            assert(old_s[i as int] == name@);
            assert(old_s.to_set().insert(name@) =~= old_s.to_set());
            return;
        }
        proof {
            if i < old_s.len() {
                lemma_lex_total(old_s[i as int], name@);
            }
        }
        let ghost nm = name@;
        self.names.insert(i, name);
        let ghost s = strings_view(self.names@);
        assert(s =~= old_s.insert(i as int, nm));
        assert forall|a: int, b: int| 0 <= a < b < s.len() implies lex_lt(#[trigger] s[a], #[trigger] s[b]) by {
            if b < i {
                assert(lex_lt(old_s[a], old_s[b]));
            } else if b == i {
                assert(lex_lt(old_s[a], nm));
            } else if a == i {
                if b - 1 > i {
                    assert(lex_lt(old_s[i as int], old_s[b - 1]));
                    lemma_lex_transitive(nm, old_s[i as int], old_s[b - 1]);
                }
            } else if a < i {
                if i < old_s.len() {
                    assert(lex_lt(old_s[a], nm));
                    assert(lex_lt(nm, old_s[i as int]));
                    if b - 1 > i {
                        assert(lex_lt(old_s[i as int], old_s[b - 1]));
                        lemma_lex_transitive(nm, old_s[i as int], old_s[b - 1]);
                    }
                    lemma_lex_transitive(old_s[a], nm, old_s[b - 1]);
                }
            } else {
                assert(lex_lt(old_s[a - 1], old_s[b - 1]));
            }
        }
        assert forall|x: Seq<char>| s.to_set().contains(x) <==> old_s.to_set().insert(nm).contains(x) by {
            if s.to_set().contains(x) {
                let p = choose|p: int| 0 <= p < s.len() && s[p] == x;
                if p < i {
                    assert(old_s[p] == x);
                } else if p > i {
                    assert(old_s[p - 1] == x);
                }
            }
            if old_s.to_set().contains(x) {
                let p = choose|p: int| 0 <= p < old_s.len() && old_s[p] == x;
                if p < i {
                    assert(s[p] == x);
                } else {
                    assert(s[p + 1] == x);
                }
            }
            if x == nm {
                assert(s[i as int] == x);
            }
        }
        assert(s.to_set() =~= old_s.to_set().insert(nm));
    }
}

/// Two well-formed name sets with the same members hold them in the same
/// order, so anything generated from their order depends on the set alone.
pub proof fn lemma_same_set_same_order(a: &NameSet, b: &NameSet)
    requires
        a.wf(),
        b.wf(),
        a@ == b@,
    ensures
        a.members() == b.members(),
{
    a.lemma_members();
    b.lemma_members();
    lemma_sorted_same_members(a.members(), b.members());
}

} // verus!
