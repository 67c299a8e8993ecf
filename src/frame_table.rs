use vstd::prelude::*;

verus! {

/// `a` is strictly before `b` in lexicographic order by code point (the
/// order `String` sorts in).
pub open spec fn lex_lt(a: Seq<char>, b: Seq<char>) -> bool
    decreases a.len(),
{
    if a.len() == 0 {
        b.len() > 0
    } else if b.len() == 0 {
        false
    } else if a[0] != b[0] {
        (a[0] as int) < (b[0] as int)
    } else {
        lex_lt(a.subrange(1, a.len() as int), b.subrange(1, b.len() as int))
    }
}

pub proof fn lemma_lex_irreflexive(a: Seq<char>)
    ensures
        !lex_lt(a, a),
    decreases a.len(),
{
    if a.len() > 0 {
        lemma_lex_irreflexive(a.subrange(1, a.len() as int));
    }
}

pub proof fn lemma_lex_asymmetric(a: Seq<char>, b: Seq<char>)
    requires
        lex_lt(a, b),
    ensures
        !lex_lt(b, a),
    decreases a.len(),
{
    if a.len() > 0 && b.len() > 0 && a[0] == b[0] {
        lemma_lex_asymmetric(a.subrange(1, a.len() as int), b.subrange(1, b.len() as int));
    }
}

pub proof fn lemma_lex_transitive(a: Seq<char>, b: Seq<char>, c: Seq<char>)
    requires
        lex_lt(a, b),
        lex_lt(b, c),
    ensures
        lex_lt(a, c),
    decreases a.len(),
{
    if a.len() > 0 && b.len() > 0 && c.len() > 0 && a[0] == b[0] && b[0] == c[0] {
        lemma_lex_transitive(
            a.subrange(1, a.len() as int),
            b.subrange(1, b.len() as int),
            c.subrange(1, c.len() as int),
        );
    }
}

pub proof fn lemma_lex_total(a: Seq<char>, b: Seq<char>)
    requires
        a != b,
    ensures
        lex_lt(a, b) || lex_lt(b, a),
    decreases a.len(),
{
    if a.len() > 0 && b.len() > 0 && a[0] == b[0] {
        let ta = a.subrange(1, a.len() as int);
        let tb = b.subrange(1, b.len() as int);
        if ta == tb {
            assert(a =~= seq![a[0]] + ta);
            assert(b =~= seq![b[0]] + tb);
        }
        lemma_lex_total(ta, tb);
    } else if a.len() > 0 && b.len() > 0 {
        assert((a[0] as int) != (b[0] as int));
    } else if a.len() == 0 && b.len() == 0 {
        assert(a =~= b);
    }
}

/// Every element is strictly before every later one.
pub open spec fn strictly_sorted(s: Seq<Seq<char>>) -> bool {
    forall|i: int, j: int| 0 <= i < j < s.len() ==> lex_lt(#[trigger] s[i], #[trigger] s[j])
}

/// Two strictly sorted sequences holding the same strings are equal.
pub proof fn lemma_sorted_unique(s1: Seq<Seq<char>>, s2: Seq<Seq<char>>)
    requires
        strictly_sorted(s1),
        strictly_sorted(s2),
        forall|x: Seq<char>| s1.contains(x) <==> s2.contains(x),
    ensures
        s1 == s2,
    decreases s1.len(),
{
    if s1.len() == 0 {
        if s2.len() > 0 {
            assert(s2.contains(s2[0]));
        }
        assert(s1 =~= s2);
    } else if s2.len() == 0 {
        assert(s1.contains(s1[0]));
    } else {
        let a = s1[0];
        let b = s2[0];
        assert(s1.contains(a));
        assert(s2.contains(b));
        if a != b {
            let j = choose|j: int| 0 <= j < s2.len() && s2[j] == a;
            let k = choose|k: int| 0 <= k < s1.len() && s1[k] == b;
            assert(j != 0);
            assert(k != 0);
            assert(lex_lt(s2[0], s2[j]));
            assert(lex_lt(s1[0], s1[k]));
            lemma_lex_asymmetric(a, b);
        }
        let t1 = s1.subrange(1, s1.len() as int);
        let t2 = s2.subrange(1, s2.len() as int);
        assert forall|x: Seq<char>| t1.contains(x) <==> t2.contains(x) by {
            if t1.contains(x) {
                let i = choose|i: int| 0 <= i < t1.len() && t1[i] == x;
                assert(s1[i + 1] == x);
                assert(lex_lt(a, x));
                lemma_lex_irreflexive(a);
                assert(s2.contains(x));
                let j = choose|j: int| 0 <= j < s2.len() && s2[j] == x;
                assert(j != 0);
                assert(t2[j - 1] == x);
            }
            if t2.contains(x) {
                let i = choose|i: int| 0 <= i < t2.len() && t2[i] == x;
                assert(s2[i + 1] == x);
                assert(lex_lt(b, x));
                lemma_lex_irreflexive(b);
                assert(s1.contains(x));
                let j = choose|j: int| 0 <= j < s1.len() && s1[j] == x;
                assert(j != 0);
                assert(t1[j - 1] == x);
            }
        }
        lemma_sorted_unique(t1, t2);
        assert(s1 =~= seq![a] + t1);
        assert(s2 =~= seq![b] + t2);
    }
}

/// Exact lexicographic comparison of two strings.
pub fn str_less(a: &str, b: &str) -> (r: bool)
    ensures
        r == lex_lt(a@, b@),
{
    let la: usize = a.unicode_len();
    let lb: usize = b.unicode_len();
    let mut i: usize = 0;
    assert(a@.subrange(0, la as int) =~= a@);
    assert(b@.subrange(0, lb as int) =~= b@);
    while i < la && i < lb
        invariant
            la == a@.len(),
            lb == b@.len(),
            i <= la,
            i <= lb,
            lex_lt(a@, b@) == lex_lt(a@.subrange(i as int, la as int), b@.subrange(i as int, lb as int)),
        decreases la - i,
    {
        let ca = a.get_char(i);
        let cb = b.get_char(i);
        let ghost ra = a@.subrange(i as int, la as int);
        let ghost rb = b@.subrange(i as int, lb as int);
        assert(ra[0] == ca);
        assert(rb[0] == cb);
        if ca != cb {
            return (ca as u32) < (cb as u32);
        }
        assert(ra.subrange(1, ra.len() as int) =~= a@.subrange(i + 1, la as int));
        assert(rb.subrange(1, rb.len() as int) =~= b@.subrange(i + 1, lb as int));
        i = i + 1;
    }
    i < lb
}

/// The character sequences of a list of strings.
pub open spec fn string_views(v: Seq<String>) -> Seq<Seq<char>> {
    v.map_values(|s: String| s@)
}

/// `p` is a prefix of `s`.
pub open spec fn has_prefix(s: Seq<char>, p: Seq<char>) -> bool {
    p.len() <= s.len() && s.subrange(0, p.len() as int) == p
}

pub fn starts_with(s: &str, p: &str) -> (r: bool)
    ensures
        r == has_prefix(s@, p@),
{
    let ls: usize = s.unicode_len();
    let lp: usize = p.unicode_len();
    if lp > ls {
        return false;
    }
    let mut i: usize = 0;
    while i < lp
        invariant
            ls == s@.len(),
            lp == p@.len(),
            lp <= ls,
            i <= lp,
            forall|j: int| 0 <= j < i ==> s@[j] == p@[j],
        decreases lp - i,
    {
        if s.get_char(i) != p.get_char(i) {
            assert(s@.subrange(0, lp as int)[i as int] != p@[i as int]);
            return false;
        }
        i = i + 1;
    }
    assert(s@.subrange(0, lp as int) =~= p@);
    true
}

/// A frame name and the atlas slot that holds it.
#[derive(Clone, Debug)]
pub struct NamedSlot {
    pub name: String,
    pub slot: usize,
}

/// The name-to-slot map described by a list of entries; a later entry for a
/// name overrides an earlier one.
pub open spec fn slots_map(s: Seq<NamedSlot>) -> Map<Seq<char>, usize>
    decreases s.len(),
{
    if s.len() == 0 {
        Map::empty()
    } else {
        slots_map(s.drop_last()).insert(s.last().name@, s.last().slot)
    }
}

pub open spec fn names_unique(s: Seq<NamedSlot>) -> bool {
    forall|i: int, j: int| 0 <= i < j < s.len() ==> (#[trigger] s[i]).name@ != (#[trigger] s[j]).name@
}

proof fn lemma_slots_map_lookup(s: Seq<NamedSlot>, i: int)
    requires
        names_unique(s),
        0 <= i < s.len(),
    ensures
        slots_map(s).contains_key(s[i].name@),
        slots_map(s)[s[i].name@] == s[i].slot,
    decreases s.len(),
{
    if i < s.len() - 1 {
        lemma_slots_map_lookup(s.drop_last(), i);
        assert(s.drop_last()[i] == s[i]);
        assert(s[i].name@ != s[s.len() - 1].name@);
    }
}

proof fn lemma_slots_map_keys(s: Seq<NamedSlot>, k: Seq<char>)
    ensures
        slots_map(s).contains_key(k) <==> exists|i: int| 0 <= i < s.len() && (#[trigger] s[i]).name@ == k,
    decreases s.len(),
{
    if s.len() > 0 {
        lemma_slots_map_keys(s.drop_last(), k);
        if slots_map(s.drop_last()).contains_key(k) {
            let i = choose|i: int| 0 <= i < s.len() - 1 && (#[trigger] s.drop_last()[i]).name@ == k;
            assert(s[i] == s.drop_last()[i]);
        }
        if exists|i: int| 0 <= i < s.len() && (#[trigger] s[i]).name@ == k {
            let i = choose|i: int| 0 <= i < s.len() && (#[trigger] s[i]).name@ == k;
            if i < s.len() - 1 {
                assert(s.drop_last()[i] == s[i]);
            }
        }
    }
}

proof fn lemma_slots_map_update(s: Seq<NamedSlot>, i: int, e: NamedSlot)
    requires
        names_unique(s),
        0 <= i < s.len(),
        e.name@ == s[i].name@,
    ensures
        slots_map(s.update(i, e)) == slots_map(s).insert(e.name@, e.slot),
    decreases s.len(),
{
    let t = s.update(i, e);
    if i == s.len() - 1 {
        assert(t.drop_last() =~= s.drop_last());
        assert(slots_map(t) =~= slots_map(s).insert(e.name@, e.slot));
    } else {
        assert(t.drop_last() =~= s.drop_last().update(i, e));
        lemma_slots_map_update(s.drop_last(), i, e);
        assert(s[i].name@ != s.last().name@);
        assert(slots_map(t) =~= slots_map(s).insert(e.name@, e.slot));
    }
}

/// Map from frame names to atlas slots; each name occurs once.
pub struct FrameTable {
    pub entries: Vec<NamedSlot>,
}

impl View for FrameTable {
    type V = Map<Seq<char>, usize>;

    open spec fn view(&self) -> Map<Seq<char>, usize> {
        slots_map(self.entries@)
    }
}

impl FrameTable {
    pub open spec fn wf(&self) -> bool {
        names_unique(self.entries@)
    }

    pub fn new() -> (r: FrameTable)
        ensures
            r.wf(),
            r@ == Map::<Seq<char>, usize>::empty(),
    {
        FrameTable { entries: Vec::new() }
    }

    /// Records `name -> slot`, replacing an earlier slot for the same name.
    pub fn insert(&mut self, name: String, slot: usize)
        requires
            old(self).wf(),
        ensures
            final(self).wf(),
            final(self)@ == old(self)@.insert(name@, slot),
    {
        let n: usize = self.entries.len();
        let mut i: usize = 0;
        while i < n
            invariant
                n == self.entries@.len(),
                *self == *old(self),
                names_unique(self.entries@),
                i <= n,
                forall|j: int| 0 <= j < i ==> (#[trigger] self.entries@[j]).name@ != name@,
            decreases n - i,
        {
            if self.entries[i].name == name {
                let e = NamedSlot { name, slot };
                proof {
                    lemma_slots_map_update(self.entries@, i as int, e);
                }
                self.entries.set(i, e);
                proof {
                    assert forall|a: int, b: int| 0 <= a < b < self.entries@.len() implies
                        (#[trigger] self.entries@[a]).name@ != (#[trigger] self.entries@[b]).name@ by {
                        assert(old(self).entries@[a].name@ != old(self).entries@[b].name@);
                    }
                }
                return;
            }
            i = i + 1;
        }
        let e = NamedSlot { name, slot };
        self.entries.push(e);
        proof {
            assert(self.entries@.drop_last() =~= old(self).entries@);
            assert forall|a: int, b: int| 0 <= a < b < self.entries@.len() implies
                (#[trigger] self.entries@[a]).name@ != (#[trigger] self.entries@[b]).name@ by {
                if b == n {
                    assert(self.entries@[a] == old(self).entries@[a]);
                } else {
                    assert(old(self).entries@[a].name@ != old(self).entries@[b].name@);
                }
            }
        }
    }

    /// Slot recorded for `name`, if any.
    pub fn get(&self, name: &String) -> (r: Option<usize>)
        requires
            self.wf(),
        ensures
            r == (if self@.contains_key(name@) {
                Some(self@[name@])
            } else {
                None::<usize>
            }),
    {
        let n: usize = self.entries.len();
        let mut i: usize = 0;
        while i < n
            invariant
                n == self.entries@.len(),
                self.wf(),
                i <= n,
                forall|j: int| 0 <= j < i ==> (#[trigger] self.entries@[j]).name@ != name@,
            decreases n - i,
        {
            if self.entries[i].name == *name {
                proof {
                    lemma_slots_map_lookup(self.entries@, i as int);
                }
                return Some(self.entries[i].slot);
            }
            i = i + 1;
        }
        proof {
            lemma_slots_map_keys(self.entries@, name@);
        }
        None
    }

    /// Every name of the table that starts with `prefix`, in lexicographic
    /// order.
    pub fn names_with_prefix(&self, prefix: &str) -> (r: Vec<String>)
        requires
            self.wf(),
        ensures
            strictly_sorted(string_views(r@)),
            forall|k: Seq<char>|
                #[trigger] string_views(r@).contains(k) <==> (self@.contains_key(k) && has_prefix(k, prefix@)),
    {
        let mut out: Vec<String> = Vec::new();
        let n: usize = self.entries.len();
        let mut i: usize = 0;
        while i < n
            invariant
                n == self.entries@.len(),
                self.wf(),
                i <= n,
                strictly_sorted(string_views(out@)),
                forall|k: Seq<char>|
                    #[trigger] string_views(out@).contains(k) <==> (exists|j: int|
                        0 <= j < i && (#[trigger] self.entries@[j]).name@ == k && has_prefix(k, prefix@)),
            decreases n - i,
        {
            let name = &self.entries[i].name;
            if starts_with(name.as_str(), prefix) {
                insert_sorted(&mut out, name.clone());
                proof {
                    assert forall|k: Seq<char>|
                        #[trigger] string_views(out@).contains(k) <==> (exists|j: int|
                            0 <= j < i + 1 && (#[trigger] self.entries@[j]).name@ == k && has_prefix(k, prefix@)) by {
                        if k == name@ {
                            assert(self.entries@[i as int].name@ == k);
                        }
                    }
                }
            } else {
                proof {
                    assert forall|k: Seq<char>|
                        #[trigger] string_views(out@).contains(k) <==> (exists|j: int|
                            0 <= j < i + 1 && (#[trigger] self.entries@[j]).name@ == k && has_prefix(k, prefix@)) by {
                        if exists|j: int| 0 <= j < i + 1 && (#[trigger] self.entries@[j]).name@ == k && has_prefix(k, prefix@) {
                            let j = choose|j: int| 0 <= j < i + 1 && (#[trigger] self.entries@[j]).name@ == k && has_prefix(k, prefix@);
                            assert(j != i);
                        }
                    }
                }
            }
            i = i + 1;
        }
        proof {
            assert forall|k: Seq<char>|
                #[trigger] string_views(out@).contains(k) <==> (self@.contains_key(k) && has_prefix(k, prefix@)) by {
                lemma_slots_map_keys(self.entries@, k);
            }
        }
        out
    }
}

/// Inserts `name` at its place in a strictly sorted list that lacks it.
fn insert_sorted(v: &mut Vec<String>, name: String)
    requires
        strictly_sorted(string_views(old(v)@)),
    ensures
        strictly_sorted(string_views(final(v)@)),
        forall|k: Seq<char>|
            #[trigger] string_views(final(v)@).contains(k) <==> (string_views(old(v)@).contains(k)
                || k == name@),
{
    let ghost before = string_views(v@);
    let n: usize = v.len();
    let mut p: usize = 0;
    while p < n && !str_less(name.as_str(), v[p].as_str())
        invariant
            n == v@.len(),
            before == string_views(v@),
            p <= n,
            forall|j: int| 0 <= j < p ==> !lex_lt(name@, #[trigger] before[j]),
        decreases n - p,
    {
        p = p + 1;
    }
    if p > 0 && v[p - 1] == name {
        proof {
            assert(before[p - 1] == name@);
            assert(before.contains(name@));
        }
        return;
    }
    let ghost nm = name@;
    v.insert(p, name);
    proof {
        let after = string_views(v@);
        assert(after =~= before.insert(p as int, nm));
        if p > 0 {
            assert(before[p - 1] != nm);
            lemma_lex_total(before[p - 1], nm);
        }
        assert forall|j: int| 0 <= j < p implies lex_lt(#[trigger] before[j], nm) by {
            if j < p - 1 {
                lemma_lex_transitive(before[j], before[p - 1], nm);
            }
        }
        assert forall|a: int, b: int| 0 <= a < b < after.len() implies lex_lt(
            #[trigger] after[a],
            #[trigger] after[b],
        ) by {
            if b < p {
                assert(after[a] == before[a] && after[b] == before[b]);
            } else if b == p {
                assert(after[a] == before[a]);
            } else if a == p {
                assert(after[b] == before[b - 1]);
                if b - 1 > p {
                    assert(lex_lt(before[p as int], before[b - 1]));
                    lemma_lex_transitive(nm, before[p as int], before[b - 1]);
                }
            } else if a < p {
                assert(after[a] == before[a] && after[b] == before[b - 1]);
            } else {
                assert(after[a] == before[a - 1] && after[b] == before[b - 1]);
            }
        }
        assert forall|k: Seq<char>| after.contains(k) <==> (before.contains(k) || k == nm) by {
            if after.contains(k) {
                let j = choose|j: int| 0 <= j < after.len() && after[j] == k;
                if j < p {
                    assert(before[j] == k);
                } else if j > p {
                    assert(before[j - 1] == k);
                }
            }
            if before.contains(k) {
                let j = choose|j: int| 0 <= j < before.len() && before[j] == k;
                if j < p {
                    assert(after[j] == k);
                } else {
                    assert(after[j + 1] == k);
                }
            }
            if k == nm {
                assert(after[p as int] == k);
            }
        }
    }
}

} // verus!
