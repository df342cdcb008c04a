//! Entities listed by display name, for pickers that show them in order.
use vstd::prelude::*;
use vstd::seq_lib::group_to_multiset_ensures;

verus! {

broadcast use group_to_multiset_ensures;

/// Lexicographic order of `a` and `b` from position `k` on, comparing
/// characters by code point (the order of their UTF-8 bytes).
pub open spec fn le_from(a: Seq<char>, b: Seq<char>, k: int) -> bool
    decreases a.len() - k,
{
    if k >= a.len() {
        true
    } else if k >= b.len() {
        false
    } else if a[k] != b[k] {
        (a[k] as int) < (b[k] as int)
    } else {
        le_from(a, b, k + 1)
    }
}

/// True when name `a` sorts no later than name `b`.
pub open spec fn name_le(a: Seq<char>, b: Seq<char>) -> bool {
    le_from(a, b, 0)
}

/// True when the entries are in order of name.
pub open spec fn sorted_by_name(s: Seq<(u64, String)>) -> bool {
    forall|i: int, j: int| 0 <= i < j < s.len() ==> name_le(#[trigger] s[i].1@, #[trigger] s[j].1@)
}

/// True for the entries named `n`.
pub open spec fn named(n: Seq<char>) -> spec_fn((u64, String)) -> bool {
    |e: (u64, String)| e.1@ == n
}

/// The entries named `n`, in their order in `s`.
pub open spec fn entries_named(s: Seq<(u64, String)>, n: Seq<char>) -> Seq<(u64, String)> {
    s.filter(named(n))
}

proof fn lemma_none_named(s: Seq<(u64, String)>, n: Seq<char>)
    requires
        forall|j: int| 0 <= j < s.len() ==> #[trigger] s[j].1@ != n,
    ensures
        entries_named(s, n) == Seq::<(u64, String)>::empty(),
    decreases s.len(),
{
    reveal(Seq::filter);
    if s.len() > 0 {
        lemma_none_named(s.drop_last(), n);
        assert(s.drop_last().filter(named(n)) == Seq::<(u64, String)>::empty());
    }
    assert(entries_named(s, n) =~= Seq::<(u64, String)>::empty());
}

/// Moving an entry to an earlier position, past entries of other names
/// only, keeps the order of the entries of each name.
proof fn lemma_move_keeps_order(before: Seq<(u64, String)>, i: int, p: int, n: Seq<char>)
    requires
        0 <= p <= i < before.len(),
        forall|q: int| p <= q < i ==> #[trigger] before[q].1@ != before[i].1@,
    ensures
        entries_named(before.remove(i).insert(p, before[i]), n) == entries_named(before, n),
{
    reveal(Seq::filter);
    let x = before[i];
    let f = named(n);
    let a0 = before.subrange(0, p);
    let a1 = before.subrange(p, i);
    let r = before.subrange(i + 1, before.len() as int);
    let one = seq![x];
    assert(before =~= a0 + a1 + one + r);
    assert(before.remove(i).insert(p, x) =~= a0 + one + a1 + r);
    Seq::filter_distributes_over_add(a0 + a1 + one, r, f);
    Seq::filter_distributes_over_add(a0 + a1, one, f);
    Seq::filter_distributes_over_add(a0, a1, f);
    Seq::filter_distributes_over_add(a0 + one + a1, r, f);
    Seq::filter_distributes_over_add(a0 + one, a1, f);
    Seq::filter_distributes_over_add(a0, one, f);
    if x.1@ == n {
        assert forall|j: int| 0 <= j < a1.len() implies #[trigger] a1[j].1@ != n by {
            assert(a1[j] == before[p + j]);
        }
        lemma_none_named(a1, n);
        assert(a1.filter(f) == Seq::<(u64, String)>::empty());
        assert(a1.filter(f) + one.filter(f) =~= one.filter(f) + a1.filter(f));
    } else {
        lemma_none_named(one, n);
        assert(a1.filter(f) + one.filter(f) =~= one.filter(f) + a1.filter(f));
    }
    assert(a0.filter(f) + a1.filter(f) + one.filter(f) =~= a0.filter(f) + (a1.filter(f)
        + one.filter(f)));
    assert(a0.filter(f) + one.filter(f) + a1.filter(f) =~= a0.filter(f) + (one.filter(f)
        + a1.filter(f)));
}

proof fn lemma_le_from_total(a: Seq<char>, b: Seq<char>, k: int)
    requires
        0 <= k,
    ensures
        le_from(a, b, k) || le_from(b, a, k),
    decreases a.len() - k,
{
    if k < a.len() && k < b.len() && a[k] == b[k] {
        lemma_le_from_total(a, b, k + 1);
    }
}

proof fn lemma_le_from_transitive(a: Seq<char>, b: Seq<char>, c: Seq<char>, k: int)
    requires
        0 <= k,
        le_from(a, b, k),
        le_from(b, c, k),
    ensures
        le_from(a, c, k),
    decreases a.len() - k,
{
    if k < a.len() && k < b.len() && k < c.len() && a[k] == b[k] && b[k] == c[k] {
        lemma_le_from_transitive(a, b, c, k + 1);
    }
}

/// Whether name `a` sorts no later than name `b`.
fn name_le_exec(a: &str, b: &str) -> (r: bool)
    ensures
        r == name_le(a@, b@),
{
    let n = a.unicode_len();
    let m = b.unicode_len();
    let mut k: usize = 0;
    while k < n && k < m
        invariant
            n == a@.len(),
            m == b@.len(),
            k <= n,
            k <= m,
            name_le(a@, b@) == le_from(a@, b@, k as int),
        decreases n - k,
    {
        let x = a.get_char(k);
        let y = b.get_char(k);
        if x != y {
            return (x as u32) < (y as u32);
        }
        k = k + 1;
    }
    k >= n
}

/// Entities with display names, sorted by name on demand.
pub struct EntitiesSortedByName {
    entries: Vec<(u64, String)>,
    sorted: bool,
}

impl View for EntitiesSortedByName {
    type V = Seq<(u64, String)>;

    closed spec fn view(&self) -> Seq<(u64, String)> {
        self.entries@
    }
}

impl EntitiesSortedByName {
    /// True when the entries are known to be in order of name.
    pub closed spec fn is_sorted(&self) -> bool {
        self.sorted
    }

    /// True when the sorted mark is honest.
    pub closed spec fn wf(&self) -> bool {
        self.sorted ==> sorted_by_name(self.entries@)
    }

    /// An empty list, which counts as sorted.
    pub fn new() -> (r: Self)
        ensures
            r.wf(),
            r@ == Seq::<(u64, String)>::empty(),
            r.is_sorted(),
    {
        EntitiesSortedByName { entries: Vec::new(), sorted: true }
    }

    /// Appends an entry; the list then counts as unsorted.
    pub fn add(&mut self, value: (u64, String))
        ensures
            final(self).wf(),
            final(self)@ == old(self)@.push(value),
            !final(self).is_sorted(),
    {
        self.entries.push(value);
        self.sorted = false;
    }

    /// Puts the entries in order of name, unless they are already known
    /// to be: afterwards they are sorted and hold the same entries.
    pub fn sort(&mut self)
        requires
            old(self).wf(),
        ensures
            final(self).wf(),
            final(self).is_sorted(),
            sorted_by_name(final(self)@),
            final(self)@.to_multiset() == old(self)@.to_multiset(),
            forall|n: Seq<char>| #[trigger] entries_named(final(self)@, n) == entries_named(old(self)@, n),
            old(self).is_sorted() ==> final(self)@ == old(self)@,
    {
        if self.sorted {
            return;
        }
        let ghost start = self.entries@;
        let n = self.entries.len();
        let mut i: usize = 0;
        while i < n
            invariant
                n == self.entries@.len(),
                i <= n,
                self.entries@.to_multiset() == start.to_multiset(),
                forall|m: Seq<char>| #[trigger] entries_named(self.entries@, m) == entries_named(start, m),
                sorted_by_name(self.entries@.subrange(0, i as int)),
            decreases n - i,
        {
            let ghost before = self.entries@;
            let x = self.entries.remove(i);
            let mut p: usize = 0;
            while p < i && name_le_exec(self.entries[p].1.as_str(), x.1.as_str())
                invariant
                    self.entries@ == before.remove(i as int),
                    x == before[i as int],
                    i < n,
                    n == before.len(),
                    p <= i,
                    sorted_by_name(before.subrange(0, i as int)),
                    forall|q: int| 0 <= q < p ==> name_le(#[trigger] before[q].1@, x.1@),
                decreases i - p,
            {
                p = p + 1;
            }
            self.entries.insert(p, x);
            proof {
                let after = self.entries@;
                let pre = before.subrange(0, i as int);
                assert(after == before.remove(i as int).insert(p as int, x));
                assert(after.to_multiset() == before.to_multiset()) by {
                    assert(before.remove(i as int).to_multiset() == before.to_multiset().remove(x));
                    assert(before.to_multiset().count(x) > 0) by {
                        assert(before.contains(x));
                    }
                    assert(before.to_multiset().remove(x).insert(x) =~= before.to_multiset());
                }
                if p < i {
                    assert(!name_le(pre[p as int].1@, x.1@));
                    lemma_le_from_total(pre[p as int].1@, x.1@, 0);
                }
                assert forall|q: int| p <= q < i implies #[trigger] before[q].1@ != before[i as int].1@ by {
                    if q > p {
                        assert(pre[p as int] == before[p as int] && pre[q] == before[q]);
                        assert(name_le(pre[p as int].1@, pre[q].1@));
                    }
                }
                assert forall|m: Seq<char>| #[trigger] entries_named(after, m) == entries_named(start, m) by {
                    lemma_move_keeps_order(before, i as int, p as int, m);
                    assert(entries_named(before, m) == entries_named(start, m));
                }
                assert forall|a: int, b: int| 0 <= a < b < i + 1 implies name_le(
                    #[trigger] after.subrange(0, i + 1)[a].1@,
                    #[trigger] after.subrange(0, i + 1)[b].1@,
                ) by {
                    let s = after.subrange(0, i + 1);
                    let at = |c: int| if c < p { pre[c] } else if c == p { x } else { pre[c - 1] };
                    assert(s[a] == at(a));
                    assert(s[b] == at(b));
                    if a < p && b == p {
                    } else if a == p && b > p {
                        if b - 1 > p {
                            lemma_le_from_transitive(x.1@, pre[p as int].1@, pre[b - 1].1@, 0);
                        }
                    } else if a < p && b > p {
                    } else {
                    }
                }
            }
            i = i + 1;
        }
        assert(self.entries@.subrange(0, n as int) =~= self.entries@);
        self.sorted = true;
    }

    /// The entries, in their current order.
    pub fn entries(&self) -> (r: &Vec<(u64, String)>)
        ensures
            r@ == self@,
    {
        &self.entries
    }
}

} // verus!
