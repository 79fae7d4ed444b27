//! The order of `String`'s `Ord`: lexicographic by character, which is the
//! order `BTreeMap` keys and `sort` give names.
use vstd::prelude::*;
use vstd::relations::sorted_by;

verus! {

broadcast use vstd::seq_lib::group_to_multiset_ensures;

/// `a <= b` in `String`'s order (lexicographic over code points).
pub open spec fn text_le(a: Seq<char>, b: Seq<char>) -> bool
    decreases a.len(),
{
    if a.len() == 0 {
        true
    } else if b.len() == 0 {
        false
    } else if (a[0] as int) < (b[0] as int) {
        true
    } else if a[0] == b[0] {
        text_le(a.drop_first(), b.drop_first())
    } else {
        false
    }
}

/// The texts a sequence of `String`s holds.
pub open spec fn views(v: Seq<String>) -> Seq<Seq<char>> {
    v.map_values(|s: String| s@)
}

/// `s` is in `String` order.
pub open spec fn is_sorted(s: Seq<Seq<char>>) -> bool {
    forall|i: int, j: int| 0 <= i < j < s.len() ==> text_le(s[i], s[j])
}

pub proof fn lemma_text_le_total(a: Seq<char>, b: Seq<char>)
    ensures
        text_le(a, b) || text_le(b, a),
    decreases a.len(),
{
    if a.len() > 0 && b.len() > 0 {
        if a[0] == b[0] {
            lemma_text_le_total(a.drop_first(), b.drop_first());
        } else {
            assert((a[0] as int) != (b[0] as int));
        }
    }
}

pub proof fn lemma_text_le_reflexive(a: Seq<char>)
    ensures
        text_le(a, a),
    decreases a.len(),
{
    if a.len() > 0 {
        lemma_text_le_reflexive(a.drop_first());
    }
}

pub proof fn lemma_text_le_transitive(a: Seq<char>, b: Seq<char>, c: Seq<char>)
    requires
        text_le(a, b),
        text_le(b, c),
    ensures
        text_le(a, c),
    decreases a.len(),
{
    if a.len() > 0 && b.len() > 0 && c.len() > 0 && a[0] == b[0] && b[0] == c[0] {
        lemma_text_le_transitive(a.drop_first(), b.drop_first(), c.drop_first());
    }
}

pub proof fn lemma_text_le_antisymmetric(a: Seq<char>, b: Seq<char>)
    requires
        text_le(a, b),
        text_le(b, a),
    ensures
        a == b,
    decreases a.len(),
{
    if a.len() > 0 && b.len() > 0 {
        lemma_text_le_antisymmetric(a.drop_first(), b.drop_first());
        assert(a == seq![a[0]] + a.drop_first());
        assert(b == seq![b[0]] + b.drop_first());
    } else if a.len() == 0 && b.len() == 0 {
        assert(a == b);
    }
}

/// The code point of `c`.
pub fn char_code(c: char) -> (n: u32)
    ensures
        n as int == c as int,
{
    c as u32
}

/// Whether `a <= b` in `String` order.
pub fn text_le_of(a: &Vec<char>, b: &Vec<char>) -> (le: bool)
    ensures
        le == text_le(a@, b@),
{
    let mut i: usize = 0;
    assert(a@.skip(0) == a@ && b@.skip(0) == b@);
    while i < a.len() && i < b.len() && a[i] == b[i]
        invariant
            i <= a.len(),
            i <= b.len(),
            text_le(a@, b@) == text_le(a@.skip(i as int), b@.skip(i as int)),
        decreases a.len() - i,
    {
        assert(a@.skip(i as int).drop_first() == a@.skip(i + 1));
        assert(b@.skip(i as int).drop_first() == b@.skip(i + 1));
        i = i + 1;
    }
    if i == a.len() {
        true
    } else if i == b.len() {
        false
    } else {
        let x = a[i];
        let y = b[i];
        assert(x == a@[i as int] && y == b@[i as int]);
        assert(a@.skip(i as int)[0] == x && b@.skip(i as int)[0] == y);
        char_code(x) < char_code(y)
    }
}

/// `v` sorted into `String` order (the order of `slice::sort`).
pub fn sort_texts(v: Vec<String>) -> (sorted: Vec<String>)
    ensures
        is_sorted(views(sorted@)),
        views(sorted@).to_multiset() == views(v@).to_multiset(),
        sorted@.len() == v@.len(),
{
    let mut sorted: Vec<String> = Vec::new();
    let mut keys: Vec<Vec<char>> = Vec::new();
    let mut i: usize = 0;
    while i < v.len()
        invariant
            i <= v.len(),
            keys@.len() == sorted@.len(),
            sorted@.len() == i,
            forall|k: int| 0 <= k < keys@.len() ==> #[trigger] keys@[k]@ == sorted@[k]@,
            is_sorted(views(sorted@)),
            views(sorted@).to_multiset() == views(v@.take(i as int)).to_multiset(),
        decreases v.len() - i,
    {
        let x = v[i].clone();
        let xk = crate::text::chars_of(x.as_str());
        let mut j: usize = 0;
        while j < sorted.len() && text_le_of(&keys[j], &xk)
            invariant
                j <= sorted@.len(),
                keys@.len() == sorted@.len(),
                forall|k: int| 0 <= k < keys@.len() ==> #[trigger] keys@[k]@ == sorted@[k]@,
                forall|k: int| 0 <= k < j ==> text_le(sorted@[k]@, xk@),
            decreases sorted@.len() - j,
        {
            j = j + 1;
        }
        let ghost old_views = views(sorted@);
        sorted.insert(j, x);
        keys.insert(j, xk);
        proof {
            let nv = views(sorted@);
            assert(nv == old_views.insert(j as int, xk@));
            assert forall|a: int, b: int| 0 <= a < b < nv.len() implies text_le(nv[a], nv[b]) by {
                if b == j {
                } else if a == j {
                    // x comes before everything it was placed ahead of
                    lemma_text_le_total(old_views[j as int], xk@);
                    if b - 1 > j {
                        lemma_text_le_transitive(xk@, old_views[j as int], old_views[b - 1]);
                    }
                } else if a < j && b > j {
                    assert(text_le(old_views[a], old_views[b - 1]));
                } else if a > j {
                    assert(text_le(old_views[a - 1], old_views[b - 1]));
                } else {
                    assert(text_le(old_views[a], old_views[b]));
                }
            }
            assert(nv.remove(j as int) == old_views);
            assert(nv.to_multiset().remove(xk@) == old_views.to_multiset());
            assert(nv.contains(xk@)) by {
                assert(nv[j as int] == xk@);
            }
            assert(views(v@.take(i + 1)) == views(v@.take(i as int)).push(xk@));
            assert(nv.to_multiset() =~= old_views.to_multiset().insert(xk@));
        }
        i = i + 1;
    }
    assert(v@.take(v.len() as int) == v@);
    sorted
}


// ---------------------------------------------------------------------------
// Strict orders: texts, path components, and sequences of them
// ---------------------------------------------------------------------------

/// `a < b` in `String` order.
pub open spec fn text_lt(a: Seq<char>, b: Seq<char>) -> bool {
    text_le(a, b) && a != b
}

pub proof fn lemma_text_lt_order(a: Seq<char>, b: Seq<char>, c: Seq<char>)
    ensures
        !text_lt(a, a),
        a == b || text_lt(a, b) || text_lt(b, a),
        text_lt(a, b) ==> !text_lt(b, a),
        text_lt(a, b) && text_lt(b, c) ==> text_lt(a, c),
{
    lemma_text_le_total(a, b);
    if text_lt(a, b) && text_lt(b, a) {
        lemma_text_le_antisymmetric(a, b);
    }
    if text_lt(a, b) && text_lt(b, c) {
        lemma_text_le_transitive(a, b, c);
        if a == c {
            lemma_text_le_antisymmetric(a, b);
        }
    }
}

/// A path component as ordered: its kind's rank, then its text.
pub type ComponentKey = (nat, Seq<char>);

/// `a < b` for path components: by kind, then by text.
pub open spec fn component_lt(a: ComponentKey, b: ComponentKey) -> bool {
    a.0 < b.0 || (a.0 == b.0 && text_lt(a.1, b.1))
}

pub proof fn lemma_component_lt_order(a: ComponentKey, b: ComponentKey, c: ComponentKey)
    ensures
        !component_lt(a, a),
        a == b || component_lt(a, b) || component_lt(b, a),
        component_lt(a, b) ==> !component_lt(b, a),
        component_lt(a, b) && component_lt(b, c) ==> component_lt(a, c),
{
    lemma_text_lt_order(a.1, b.1, c.1);
    lemma_text_lt_order(a.1, a.1, a.1);
    lemma_text_lt_order(b.1, a.1, c.1);
}

/// `a < b` for sequences of path components: lexicographic (`Path`'s order).
pub open spec fn components_lt(a: Seq<ComponentKey>, b: Seq<ComponentKey>) -> bool
    decreases a.len(),
{
    if b.len() == 0 {
        false
    } else if a.len() == 0 {
        true
    } else if component_lt(a[0], b[0]) {
        true
    } else if a[0] == b[0] {
        components_lt(a.drop_first(), b.drop_first())
    } else {
        false
    }
}

pub proof fn lemma_components_lt_irreflexive(a: Seq<ComponentKey>)
    ensures
        !components_lt(a, a),
    decreases a.len(),
{
    if a.len() > 0 {
        lemma_component_lt_order(a[0], a[0], a[0]);
        lemma_components_lt_irreflexive(a.drop_first());
    }
}

pub proof fn lemma_components_lt_transitive(a: Seq<ComponentKey>, b: Seq<ComponentKey>, c: Seq<ComponentKey>)
    requires
        components_lt(a, b),
        components_lt(b, c),
    ensures
        components_lt(a, c),
    decreases a.len(),
{
    if a.len() > 0 && b.len() > 0 && c.len() > 0 {
        lemma_component_lt_order(a[0], b[0], c[0]);
        if a[0] == b[0] && b[0] == c[0] {
            lemma_components_lt_transitive(a.drop_first(), b.drop_first(), c.drop_first());
        }
    }
}

pub proof fn lemma_components_lt_total(a: Seq<ComponentKey>, b: Seq<ComponentKey>)
    ensures
        a == b || components_lt(a, b) || components_lt(b, a),
    decreases a.len(),
{
    if a.len() == 0 && b.len() == 0 {
        assert(a =~= b);
    } else if a.len() > 0 && b.len() > 0 {
        lemma_component_lt_order(a[0], b[0], b[0]);
        if a[0] == b[0] {
            lemma_components_lt_total(a.drop_first(), b.drop_first());
            if a.drop_first() == b.drop_first() {
                assert(a == seq![a[0]] + a.drop_first());
                assert(b == seq![b[0]] + b.drop_first());
            }
        }
    }
}

/// A directive's sort key: the components of its output file, then its text.
pub type OutputKey = (Seq<ComponentKey>, Seq<char>);

/// `a < b` for output keys (the order of `(PathBuf, String)` tuples).
pub open spec fn output_key_lt(a: OutputKey, b: OutputKey) -> bool {
    components_lt(a.0, b.0) || (a.0 == b.0 && text_lt(a.1, b.1))
}

pub proof fn lemma_output_key_order(a: OutputKey, b: OutputKey, c: OutputKey)
    ensures
        !output_key_lt(a, a),
        a == b || output_key_lt(a, b) || output_key_lt(b, a),
        output_key_lt(a, b) ==> !output_key_lt(b, a),
        output_key_lt(a, b) && output_key_lt(b, c) ==> output_key_lt(a, c),
{
    lemma_components_lt_irreflexive(a.0);
    lemma_components_lt_total(a.0, b.0);
    lemma_text_lt_order(a.1, b.1, c.1);
    lemma_text_lt_order(a.1, a.1, a.1);
    if components_lt(a.0, b.0) && components_lt(b.0, a.0) {
        lemma_components_lt_transitive(a.0, b.0, a.0);
        lemma_components_lt_irreflexive(a.0);
    }
    if output_key_lt(a, b) && output_key_lt(b, c) {
        if components_lt(a.0, b.0) && components_lt(b.0, c.0) {
            lemma_components_lt_transitive(a.0, b.0, c.0);
        }
    }
    if a.0 == b.0 && a.1 == b.1 {
        assert(a == b);
    }
}

/// `text_lt` on character vectors.
pub fn text_lt_of(a: &Vec<char>, b: &Vec<char>) -> (lt: bool)
    ensures
        lt == text_lt(a@, b@),
{
    text_le_of(a, b) && !crate::text::same_chars(a, b)
}

} // verus!
