//! Strings as sequences of characters, and their order.

use vstd::prelude::*;

verus! {

/// Adds `c` at the end of `s`, by `String::push` of std.
#[verifier::external_body]
pub(crate) fn push_char(s: &mut String, c: char)
    ensures
        final(s)@ == old(s)@.push(c),
{
    s.push(c);
}

/// The characters of `s`.
pub fn chars_of(s: &str) -> (v: Vec<char>)
    ensures
        v@ == s@,
{
    let n = s.unicode_len();
    let mut v: Vec<char> = Vec::new();
    let mut i: usize = 0;
    while i < n
        invariant
            i <= n,
            n == s@.len(),
            v@ == s@.take(i as int),
        decreases n - i,
    {
        v.push(s.get_char(i));
        assert(s@.take(i + 1) =~= s@.take(i as int).push(s@[i as int]));
        i = i + 1;
    }
    assert(s@.take(n as int) =~= s@);
    v
}

/// Whether `a` stands before `b` in the order of a dictionary: at the
/// first place where they differ `a` has the lower character, or `a` ends
/// there and `b` goes on. This is the order in which std sorts strings.
pub open spec fn before(a: Seq<char>, b: Seq<char>) -> bool
    decreases a.len(),
{
    if b.len() == 0 {
        false
    } else if a.len() == 0 {
        true
    } else if a[0] != b[0] {
        a[0] < b[0]
    } else {
        before(a.skip(1), b.skip(1))
    }
}

/// Nothing stands before itself.
pub proof fn lemma_before_irreflexive(a: Seq<char>)
    ensures
        !before(a, a),
    decreases a.len(),
{
    if a.len() > 0 {
        lemma_before_irreflexive(a.skip(1));
    }
}

/// Of two different texts one stands before the other, and only one.
pub proof fn lemma_before_total(a: Seq<char>, b: Seq<char>)
    ensures
        a != b ==> before(a, b) || before(b, a),
        !(before(a, b) && before(b, a)),
    decreases a.len(),
{
    if a.len() == 0 || b.len() == 0 {
        if a.len() == 0 && b.len() == 0 {
            assert(a =~= b);
        }
    } else if a[0] == b[0] {
        lemma_before_total(a.skip(1), b.skip(1));
        if a.skip(1) == b.skip(1) {
            assert(a =~= seq![a[0]] + a.skip(1));
            assert(b =~= seq![b[0]] + b.skip(1));
        }
    }
}

/// What stands before a text stands before what comes after it.
pub proof fn lemma_before_transitive(a: Seq<char>, b: Seq<char>, c: Seq<char>)
    requires
        before(a, b),
        before(b, c),
    ensures
        before(a, c),
    decreases a.len(),
{
    if a.len() > 0 {
        if a[0] == b[0] && b[0] == c[0] {
            lemma_before_transitive(a.skip(1), b.skip(1), c.skip(1));
        }
    }
}

/// Whether each of `names` stands before those that follow it.
pub open spec fn ascending(names: Seq<Seq<char>>) -> bool {
    forall|i: int, j: int| 0 <= i < j < names.len() ==> before(names[i], names[j])
}

/// Whether `names` lists `set` in the order of a dictionary.
pub open spec fn lists(set: Set<Seq<char>>, names: Seq<Seq<char>>) -> bool {
    ascending(names) && names.to_set() == set
}

/// The texts of `set`, which is finite, in the order of a dictionary.
pub open spec fn sorted(set: Set<Seq<char>>) -> Seq<Seq<char>> {
    choose|names: Seq<Seq<char>>| lists(set, names)
}

/// Without its last text, a listing lists the rest of the set.
proof fn lemma_drop_last_lists(set: Set<Seq<char>>, a: Seq<Seq<char>>)
    requires
        lists(set, a),
        a.len() > 0,
    ensures
        lists(set.remove(a.last()), a.drop_last()),
{
    let m = a.last();
    let rest = set.remove(m);
    assert(a.to_set().contains(m));
    assert forall|x: Seq<char>| a.drop_last().to_set().contains(x) <==> rest.contains(x) by {
        if a.drop_last().to_set().contains(x) {
            let i = choose|i: int| 0 <= i < a.len() - 1 && a.drop_last()[i] == x;
            assert(a[i] == x);
            assert(a.to_set().contains(x));
            assert(before(a[i], m));
            lemma_before_irreflexive(m);
        }
        if rest.contains(x) {
            assert(a.to_set().contains(x));
            let i = choose|i: int| 0 <= i < a.len() && a[i] == x;
            assert(a.drop_last()[i] == x);
        }
    }
    assert(a.drop_last().to_set() =~= rest);
}

/// Only one sequence lists a set in the order of a dictionary.
pub proof fn lemma_lists_unique(set: Set<Seq<char>>, a: Seq<Seq<char>>, b: Seq<Seq<char>>)
    requires
        lists(set, a),
        lists(set, b),
    ensures
        a == b,
    decreases a.len(),
{
    if a.len() == 0 {
        if b.len() > 0 {
            assert(b.to_set().contains(b[0]));
            assert(a.to_set().contains(b[0]));
        }
        assert(a =~= b);
    } else {
        let m = a.last();
        assert(a.to_set().contains(m));
        assert(b.to_set().contains(m));
        let k = choose|k: int| 0 <= k < b.len() && b[k] == m;
        assert(b.to_set().contains(b.last()));
        assert(a.to_set().contains(b.last()));
        let l = choose|l: int| 0 <= l < a.len() && a[l] == b.last();
        lemma_before_total(m, b.last());
        if m != b.last() {
            assert(before(b[k], b.last()));
            assert(before(a[l], a.last()));
        }
        lemma_drop_last_lists(set, a);
        lemma_drop_last_lists(set, b);
        lemma_lists_unique(set.remove(m), a.drop_last(), b.drop_last());
        assert(a =~= a.drop_last().push(m));
        assert(b =~= b.drop_last().push(m));
    }
}

/// A listing of a set in the order of a dictionary is the listing.
pub proof fn lemma_sorted(set: Set<Seq<char>>, names: Seq<Seq<char>>)
    requires
        lists(set, names),
    ensures
        sorted(set) == names,
{
    lemma_lists_unique(set, names, sorted(set));
}

/// Whether `a` stands before `b` in the order of a dictionary.
pub fn stands_before(a: &str, b: &str) -> (r: bool)
    ensures
        r == before(a@, b@),
{
    let x = chars_of(a);
    let y = chars_of(b);
    let mut i: usize = 0;
    assert(x@.skip(0) =~= x@);
    assert(y@.skip(0) =~= y@);
    while i < x.len() && i < y.len()
        invariant
            i <= x@.len(),
            i <= y@.len(),
            x@ == a@,
            y@ == b@,
            before(x@, y@) == before(x@.skip(i as int), y@.skip(i as int)),
        decreases x@.len() - i,
    {
        let c = x[i];
        let d = y[i];
        proof {
            assert(x@.skip(i as int)[0] == c);
            assert(y@.skip(i as int)[0] == d);
            assert(x@.skip(i as int).skip(1) =~= x@.skip(i + 1));
            assert(y@.skip(i as int).skip(1) =~= y@.skip(i + 1));
        }
        if c != d {
            return c < d;
        }
        i = i + 1;
    }
    i < y.len()
}

} // verus!
