//! Sorted lists of distinct texts: the ssh aliases offered for a new host,
//! and the images whose versions a stack check looks up once each.
use vstd::prelude::*;
use vstd::string::*;
use crate::text::chars_of;
use crate::image_ref::strings_view;

verus! {

/// `a` comes before `b` in the order of `String`: by the first character
/// in which they differ (by code point, which orders UTF-8 bytes alike),
/// a prefix before its extensions.
pub open spec fn text_lt(a: Seq<char>, b: Seq<char>) -> bool
    decreases a.len(),
{
    if a.len() == 0 {
        b.len() > 0
    } else if b.len() == 0 {
        false
    } else if a[0] != b[0] {
        a[0] < b[0]
    } else {
        text_lt(a.drop_first(), b.drop_first())
    }
}

/// Each text comes before every later one: sorted, with no repeats.
pub open spec fn strictly_sorted(s: Seq<Seq<char>>) -> bool {
    forall|i: int, j: int| 0 <= i < j < s.len() ==> text_lt(#[trigger] s[i], #[trigger] s[j])
}

// ---------------------------------------------------------------------
// Properties of the order
// ---------------------------------------------------------------------

pub proof fn lemma_text_lt_irreflexive(a: Seq<char>)
    ensures
        !text_lt(a, a),
    decreases a.len(),
{
    if a.len() > 0 {
        lemma_text_lt_irreflexive(a.drop_first());
    }
}

pub proof fn lemma_text_lt_total(a: Seq<char>, b: Seq<char>)
    requires
        a != b,
    ensures
        text_lt(a, b) || text_lt(b, a),
    decreases a.len(),
{
    if a.len() == 0 {
        assert(b.len() > 0) by {
            if b.len() == 0 {
                assert(a =~= b);
            }
        }
    } else if b.len() == 0 {
    } else if a[0] != b[0] {
    } else {
        assert(a.drop_first() != b.drop_first()) by {
            if a.drop_first() == b.drop_first() {
                assert(a =~= seq![a[0]] + a.drop_first());
                assert(b =~= seq![b[0]] + b.drop_first());
            }
        }
        lemma_text_lt_total(a.drop_first(), b.drop_first());
    }
}

pub proof fn lemma_text_lt_asymmetric(a: Seq<char>, b: Seq<char>)
    requires
        text_lt(a, b),
    ensures
        !text_lt(b, a),
    decreases a.len(),
{
    if a.len() > 0 && b.len() > 0 && a[0] == b[0] {
        lemma_text_lt_asymmetric(a.drop_first(), b.drop_first());
    }
}

pub proof fn lemma_text_lt_transitive(a: Seq<char>, b: Seq<char>, c: Seq<char>)
    requires
        text_lt(a, b),
        text_lt(b, c),
    ensures
        text_lt(a, c),
    decreases a.len(),
{
    if a.len() > 0 && b.len() > 0 && c.len() > 0 && a[0] == b[0] && b[0] == c[0] {
        lemma_text_lt_transitive(a.drop_first(), b.drop_first(), c.drop_first());
    }
}

/// Law: the order of texts is a strict total order.
pub proof fn law_text_order_is_strict_total(a: Seq<char>, b: Seq<char>, c: Seq<char>)
    ensures
        !text_lt(a, a),
        text_lt(a, b) ==> !text_lt(b, a),
        text_lt(a, b) && text_lt(b, c) ==> text_lt(a, c),
        a != b ==> text_lt(a, b) || text_lt(b, a),
{
    lemma_text_lt_irreflexive(a);
    if text_lt(a, b) {
        lemma_text_lt_asymmetric(a, b);
        if text_lt(b, c) {
            lemma_text_lt_transitive(a, b, c);
        }
    }
    if a != b {
        lemma_text_lt_total(a, b);
    }
}

/// Law: a strictly sorted list holds no text twice.
pub proof fn law_strictly_sorted_has_no_duplicates(s: Seq<Seq<char>>)
    requires
        strictly_sorted(s),
    ensures
        s.no_duplicates(),
{
    assert forall|i: int, j: int| 0 <= i < s.len() && 0 <= j < s.len() && i != j implies s[i]
        != s[j] by {
        if i < j {
            assert(text_lt(s[i], s[j]));
            lemma_text_lt_irreflexive(s[i]);
        } else {
            assert(text_lt(s[j], s[i]));
            lemma_text_lt_irreflexive(s[j]);
        }
    }
}

// ---------------------------------------------------------------------
// Executable operations
// ---------------------------------------------------------------------

/// Whether `a` comes before `b`.
pub fn text_less(a: &Vec<char>, b: &Vec<char>) -> (r: bool)
    ensures
        r == text_lt(a@, b@),
{
    let mut i: usize = 0;
    assert(a@.skip(0) =~= a@);
    assert(b@.skip(0) =~= b@);
    while i < a.len() && i < b.len()
        invariant
            i <= a.len(),
            i <= b.len(),
            text_lt(a@, b@) == text_lt(a@.skip(i as int), b@.skip(i as int)),
        decreases a.len() - i,
    {
        assert(a@.skip(i as int)[0] == a@[i as int]);
        assert(b@.skip(i as int)[0] == b@[i as int]);
        if a[i] != b[i] {
            return a[i] < b[i];
        }
        assert(a@.skip(i as int).drop_first() =~= a@.skip(i + 1));
        assert(b@.skip(i as int).drop_first() =~= b@.skip(i + 1));
        i = i + 1;
    }
    i < b.len()
}

/// The texts of `items`, sorted, each once.
pub fn sorted_unique(items: Vec<String>) -> (r: Vec<String>)
    ensures
        strictly_sorted(strings_view(r@)),
        strings_view(r@).to_set() == strings_view(items@).to_set(),
{
    let ghost iv = strings_view(items@);
    let mut r: Vec<String> = Vec::new();
    let mut keys: Vec<Vec<char>> = Vec::new();
    let mut i: usize = 0;
    assert(strings_view(r@).to_set() =~= iv.take(0).to_set());
    while i < items.len()
        invariant
            i <= items.len(),
            iv == strings_view(items@),
            keys.len() == r.len(),
            forall|k: int| 0 <= k < keys.len() ==> #[trigger] keys@[k]@ == r@[k]@,
            strictly_sorted(strings_view(r@)),
            strings_view(r@).to_set() == iv.take(i as int).to_set(),
        decreases items.len() - i,
    {
        let item = items[i].as_str();
        let key = chars_of(item);
        let ghost rv = strings_view(r@);
        assert(iv.take(i + 1) =~= iv.take(i as int).push(item@));
        let mut j: usize = 0;
        while j < keys.len() && text_less(&keys[j], &key)
            invariant
                j <= keys.len(),
                keys.len() == r.len(),
                rv == strings_view(r@),
                forall|k: int| 0 <= k < keys.len() ==> #[trigger] keys@[k]@ == r@[k]@,
                forall|k: int| 0 <= k < j ==> text_lt(#[trigger] rv[k], key@),
            decreases keys.len() - j,
        {
            assert(rv[j as int] == keys@[j as int]@);
            j = j + 1;
        }
        let present = j < keys.len() && crate::text::same_text(r[j].as_str(), item);
        if present {
            assert(rv[j as int] == item@);
            proof { iv.take(i as int).lemma_push_to_set_commute(item@); }
            assert(rv.to_set().contains(item@));
            assert(iv.take(i + 1).to_set() =~= rv.to_set());
        } else {
            proof {
                if j < keys.len() {
                    assert(rv[j as int] == keys@[j as int]@);
                    assert(!text_lt(rv[j as int], key@));
                    lemma_text_lt_total(rv[j as int], key@);
                }
            }
            r.insert(j, item.to_owned());
            keys.insert(j, key);
            let ghost nv = strings_view(r@);
            assert(nv =~= rv.insert(j as int, item@));
            assert forall|a: int, b: int| 0 <= a < b < nv.len() implies text_lt(
                #[trigger] nv[a],
                #[trigger] nv[b],
            ) by {
                if b < j {
                    assert(nv[a] == rv[a] && nv[b] == rv[b]);
                } else if b == j {
                    assert(nv[a] == rv[a]);
                } else if a == j {
                    assert(nv[b] == rv[b - 1]);
                    if b - 1 > j {
                        assert(text_lt(rv[j as int], rv[b - 1]));
                        lemma_text_lt_transitive(item@, rv[j as int], rv[b - 1]);
                    }
                } else if a < j {
                    assert(nv[a] == rv[a] && nv[b] == rv[b - 1]);
                    assert(text_lt(rv[a], item@));
                    if b - 1 > j {
                        assert(text_lt(rv[j as int], rv[b - 1]));
                        lemma_text_lt_transitive(item@, rv[j as int], rv[b - 1]);
                    }
                    lemma_text_lt_transitive(rv[a], item@, rv[b - 1]);
                } else {
                    assert(nv[a] == rv[a - 1] && nv[b] == rv[b - 1]);
                }
            }
            assert forall|k: int| 0 <= k < keys.len() implies #[trigger] keys@[k]@ == r@[k]@ by {
                if k < j {
                } else if k > j {
                }
            }
            assert(nv.to_set() =~= rv.to_set().insert(item@)) by {
                assert forall|x: Seq<char>| nv.contains(x) implies rv.to_set().insert(item@).contains(x) by {
                    let k = choose|k: int| 0 <= k < nv.len() && nv[k] == x;
                    if k < j {
                        assert(rv[k] == x);
                    } else if k > j {
                        assert(rv[k - 1] == x);
                    }
                }
                assert forall|x: Seq<char>| rv.to_set().insert(item@).contains(x) implies nv.contains(x) by {
                    if x == item@ {
                        assert(nv[j as int] == x);
                    } else {
                        let k = choose|k: int| 0 <= k < rv.len() && rv[k] == x;
                        if k < j {
                            assert(nv[k] == x);
                        } else {
                            assert(nv[k + 1] == x);
                        }
                    }
                }
            }
            proof { iv.take(i as int).lemma_push_to_set_commute(item@); }
        }
        i = i + 1;
    }
    assert(iv.take(items.len() as int) =~= iv);
    r
}

} // verus!
