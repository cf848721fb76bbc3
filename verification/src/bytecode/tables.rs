use vstd::prelude::*;
use crate::bytecode::program::Const;
use crate::bytecode::program::ConstView;

verus! {

/// The position of the first occurrence of `x` in `s`, or `s.len()` when
/// `x` does not occur.
pub open spec fn first_index<T>(s: Seq<T>, x: T) -> int
    decreases s.len(),
{
    if s.len() == 0 {
        0
    } else if s[0] == x {
        0
    } else {
        1 + first_index(s.drop_first(), x)
    }
}

/// `s` with `x` appended unless it already occurs.
pub open spec fn intern<T>(s: Seq<T>, x: T) -> Seq<T> {
    if s.contains(x) {
        s
    } else {
        s.push(x)
    }
}

/// `a` is an initial segment of `b`.
pub open spec fn extends<T>(b: Seq<T>, a: Seq<T>) -> bool {
    a.len() <= b.len() && b.subrange(0, a.len() as int) == a
}

/// The first index is the one position before which `x` does not occur and
/// at which, unless it is the end, it does.
pub proof fn lemma_first_index<T>(s: Seq<T>, x: T, i: int)
    requires
        0 <= i <= s.len(),
        forall|j: int| 0 <= j < i ==> s[j] != x,
        i < s.len() ==> s[i] == x,
    ensures
        first_index(s, x) == i,
    decreases s.len(),
{
    if s.len() == 0 {
    } else if s[0] == x {
    } else {
        let t = s.drop_first();
        assert forall|j: int| 0 <= j < i - 1 implies t[j] != x by {
            assert(t[j] == s[j + 1]);
        }
        lemma_first_index(t, x, i - 1);
    }
}

/// What the first index says about the sequence.
pub proof fn lemma_first_index_bounds<T>(s: Seq<T>, x: T)
    ensures
        0 <= first_index(s, x) <= s.len(),
        first_index(s, x) < s.len() <==> s.contains(x),
        first_index(s, x) < s.len() ==> s[first_index(s, x)] == x,
        forall|j: int| 0 <= j < first_index(s, x) ==> s[j] != x,
    decreases s.len(),
{
    if s.len() == 0 {
    } else if s[0] == x {
    } else {
        let t = s.drop_first();
        lemma_first_index_bounds(t, x);
        let k = first_index(t, x);
        if k < t.len() {
            assert(s[k + 1] == t[k]);
        }
        if s.contains(x) {
            let w = choose|w: int| 0 <= w < s.len() && s[w] == x;
            assert(t[w - 1] == x);
        }
        assert forall|j: int| 0 <= j < k + 1 implies s[j] != x by {
            if j > 0 {
                assert(t[j - 1] == s[j]);
            }
        }
    }
}

/// Interning keeps what was there, never moves an entry, and leaves `x` at
/// its first index.
pub proof fn lemma_intern<T>(s: Seq<T>, x: T)
    ensures
        extends(intern(s, x), s),
        first_index(intern(s, x), x) == first_index(s, x),
        first_index(s, x) < intern(s, x).len(),
        intern(s, x)[first_index(s, x)] == x,
        s.no_duplicates() ==> intern(s, x).no_duplicates(),
{
    lemma_first_index_bounds(s, x);
    let t = intern(s, x);
    assert(t.subrange(0, s.len() as int) =~= s);
    if !s.contains(x) {
        lemma_first_index(t, x, s.len() as int);
    }
}

/// The first index of something that occurs does not change when the
/// sequence grows at its end.
pub proof fn lemma_first_index_extends<T>(a: Seq<T>, b: Seq<T>, x: T)
    requires
        extends(b, a),
        a.contains(x),
    ensures
        first_index(b, x) == first_index(a, x),
{
    lemma_first_index_bounds(a, x);
    let i = first_index(a, x);
    assert forall|j: int| 0 <= j <= i implies b[j] == a[j] by {
        assert(b.subrange(0, a.len() as int)[j] == b[j]);
    }
    lemma_first_index(b, x, i);
}

/// Growing at the end is transitive.
pub proof fn lemma_extends_trans<T>(c: Seq<T>, b: Seq<T>, a: Seq<T>)
    requires
        extends(c, b),
        extends(b, a),
    ensures
        extends(c, a),
{
    assert forall|j: int| 0 <= j < a.len() implies c[j] == a[j] by {
        assert(b.subrange(0, a.len() as int)[j] == b[j]);
        assert(c.subrange(0, b.len() as int)[j] == c[j]);
    }
    assert(c.subrange(0, a.len() as int) =~= a);
}

/// The constants of one compilation unit in the order in which they were
/// first seen. A table that starts empty holds each constant once, and a
/// constant's index never changes.
pub struct ConstTable {
    entries: Vec<Const>,
}

impl View for ConstTable {
    type V = Seq<ConstView>;

    closed spec fn view(&self) -> Seq<ConstView> {
        self.entries.deep_view()
    }
}

impl ConstTable {
    /// The empty table.
    pub fn new() -> (r: ConstTable)
        ensures
            r@ == Seq::<ConstView>::empty(),
    {
        let r = ConstTable { entries: Vec::new() };
        assert(r.entries.deep_view() =~= Seq::<ConstView>::empty());
        r
    }

    /// The number of constants held.
    pub fn len(&self) -> (n: usize)
        ensures
            n == self@.len(),
    {
        self.entries.len()
    }

    /// The index of `c`, which is added at the end if the table does not
    /// hold it yet.
    pub fn intern(&mut self, c: Const) -> (idx: usize)
        ensures
            final(self)@ == intern(old(self)@, c.deep_view()),
            idx == first_index(old(self)@, c.deep_view()),
            old(self)@.no_duplicates() ==> final(self)@.no_duplicates(),
    {
        proof {
            lemma_intern(self@, c.deep_view());
        }
        let mut i: usize = 0;
        while i < self.entries.len()
            invariant
                i <= self.entries.len(),
                forall|j: int| 0 <= j < i ==> self.entries.deep_view()[j] != c.deep_view(),
            decreases self.entries.len() - i,
        {
            if self.entries[i].equals(&c) {
                proof {
                    lemma_first_index(self@, c.deep_view(), i as int);
                    assert(self@[i as int] == c.deep_view());
                }
                return i;
            }
            i += 1;
        }
        let ghost before = self@;
        let ghost value = c.deep_view();
        proof {
            lemma_first_index(before, value, i as int);
            assert(!before.contains(value));
        }
        self.entries.push(c);
        assert(self.entries.deep_view() =~= before.push(value));
        i
    }

    /// The constants in index order.
    pub fn to_vec(&self) -> (r: Vec<Const>)
        ensures
            r.deep_view() == self@,
    {
        let mut r: Vec<Const> = Vec::new();
        let mut i: usize = 0;
        while i < self.entries.len()
            invariant
                i <= self.entries.len(),
                r.len() == i,
                forall|j: int| 0 <= j < i ==> r[j].deep_view() == self.entries[j].deep_view(),
            decreases self.entries.len() - i,
        {
            r.push(self.entries[i].clone());
            i += 1;
        }
        assert(r.deep_view() =~= self.entries.deep_view());
        r
    }
}

/// The slot of `name` in `names`, which is added at the end if the table
/// does not hold it yet.
pub fn intern_name(names: &mut Vec<String>, name: &String) -> (idx: usize)
    ensures
        final(names).deep_view() == intern(old(names).deep_view(), name@),
        idx == first_index(old(names).deep_view(), name@),
{
    let ghost before = names.deep_view();
    proof {
        lemma_intern(before, name@);
    }
    let mut i: usize = 0;
    while i < names.len()
        invariant
            i <= names.len(),
            names.deep_view() == before,
            forall|j: int| 0 <= j < i ==> before[j] != name@,
        decreases names.len() - i,
    {
        if names[i] == *name {
            proof {
                assert(before[i as int] == name@);
                lemma_first_index(before, name@, i as int);
            }
            return i;
        }
        i += 1;
    }
    proof {
        lemma_first_index(before, name@, i as int);
        assert(!before.contains(name@));
    }
    names.push(name.clone());
    assert(names.deep_view() =~= before.push(name@));
    i
}

} // verus!
