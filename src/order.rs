//! The order of siblings in a tree: directories before files, then names
//! compared case-insensitively; and a stable insertion sort that realises it.
use vstd::prelude::*;
use crate::node::{FileTreeNode, NodeModel, models, lemma_models};

verus! {

/// The lower-case form of a string, as `str::to_lowercase` gives it.
pub uninterp spec fn lower_of(s: Seq<char>) -> Seq<char>;

/// Relies on `str::to_lowercase`: its result depends on the characters alone.
#[verifier::external_body]
pub(crate) fn lowercase(s: &str) -> (r: String)
    ensures
        r@ == lower_of(s@),
{
    s.to_lowercase()
}

/// Strict lexicographic order on character sequences, by code point.
pub open spec fn chars_lt(a: Seq<char>, b: Seq<char>) -> bool
    decreases a.len(),
{
    if b.len() == 0 {
        false
    } else if a.len() == 0 {
        true
    } else if a[0] != b[0] {
        (a[0] as int) < (b[0] as int)
    } else {
        chars_lt(a.drop_first(), b.drop_first())
    }
}

/// The sort key of a node: whether it is a file, then its lower-cased name.
pub open spec fn node_lt(x: NodeModel, y: NodeModel) -> bool {
    (x.is_dir && !y.is_dir) || (x.is_dir == y.is_dir && chars_lt(lower_of(x.name), lower_of(y.name)))
}

/// No node stands after one that sorts strictly after it.
pub open spec fn sorted(s: Seq<NodeModel>) -> bool {
    forall|i: int, j: int| 0 <= i < j < s.len() ==> !node_lt(#[trigger] s[j], #[trigger] s[i])
}

/// Insert `x` after the nodes that sort strictly before it.
pub open spec fn insert_sorted(t: Seq<NodeModel>, x: NodeModel) -> Seq<NodeModel>
    decreases t.len(),
{
    if t.len() == 0 {
        seq![x]
    } else if node_lt(t[0], x) {
        seq![t[0]] + insert_sorted(t.drop_first(), x)
    } else {
        seq![x] + t
    }
}

/// The stable sort of a sequence of nodes.
pub open spec fn sort_nodes(s: Seq<NodeModel>) -> Seq<NodeModel>
    decreases s.len(),
{
    if s.len() == 0 {
        Seq::empty()
    } else {
        insert_sorted(sort_nodes(s.drop_first()), s[0])
    }
}

pub proof fn lemma_chars_lt_asym(a: Seq<char>, b: Seq<char>)
    ensures
        !(chars_lt(a, b) && chars_lt(b, a)),
        !chars_lt(a, a),
    decreases a.len(),
{
    if a.len() > 0 && b.len() > 0 && a[0] == b[0] {
        lemma_chars_lt_asym(a.drop_first(), b.drop_first());
    }
    if a.len() > 0 {
        lemma_chars_lt_asym(a.drop_first(), a.drop_first());
    }
}

pub proof fn lemma_chars_lt_trans(a: Seq<char>, b: Seq<char>, c: Seq<char>)
    requires
        chars_lt(a, b),
        chars_lt(b, c),
    ensures
        chars_lt(a, c),
    decreases a.len(),
{
    if a.len() > 0 && b.len() > 0 && c.len() > 0 && a[0] == b[0] && b[0] == c[0] {
        lemma_chars_lt_trans(a.drop_first(), b.drop_first(), c.drop_first());
    }
}

pub proof fn lemma_chars_lt_total(a: Seq<char>, b: Seq<char>)
    ensures
        chars_lt(a, b) || chars_lt(b, a) || a == b,
    decreases a.len(),
{
    if a.len() > 0 && b.len() > 0 {
        if a[0] == b[0] {
            lemma_chars_lt_total(a.drop_first(), b.drop_first());
            if a.drop_first() == b.drop_first() {
                assert(a =~= seq![a[0]] + a.drop_first());
                assert(b =~= seq![b[0]] + b.drop_first());
            }
        } else {
            assert((a[0] as int) != (b[0] as int));
        }
    } else if a.len() == 0 && b.len() == 0 {
        assert(a =~= b);
    }
}

/// Not sorting before is transitive.
pub proof fn lemma_node_not_lt_trans(x: NodeModel, y: NodeModel, z: NodeModel)
    requires
        !node_lt(y, x),
        !node_lt(z, y),
    ensures
        !node_lt(z, x),
{
    lemma_chars_lt_total(lower_of(x.name), lower_of(y.name));
    lemma_chars_lt_total(lower_of(y.name), lower_of(z.name));
    if node_lt(z, x) {
        if x.is_dir == z.is_dir && x.is_dir == y.is_dir {
            lemma_chars_lt_asym(lower_of(x.name), lower_of(y.name));
            if chars_lt(lower_of(y.name), lower_of(z.name)) {
                if chars_lt(lower_of(x.name), lower_of(y.name)) {
                    lemma_chars_lt_trans(lower_of(x.name), lower_of(y.name), lower_of(z.name));
                    lemma_chars_lt_trans(lower_of(z.name), lower_of(x.name), lower_of(y.name));
                } else {
                    lemma_chars_lt_trans(lower_of(z.name), lower_of(x.name), lower_of(y.name));
                }
            } else if chars_lt(lower_of(x.name), lower_of(y.name)) {
                lemma_chars_lt_trans(lower_of(z.name), lower_of(x.name), lower_of(y.name));
            }
        }
    }
}

pub proof fn lemma_node_lt_asym(x: NodeModel, y: NodeModel)
    ensures
        node_lt(x, y) ==> !node_lt(y, x),
{
    lemma_chars_lt_asym(lower_of(x.name), lower_of(y.name));
}

/// Inserting into a sorted sequence keeps it sorted and adds exactly `x`.
pub proof fn lemma_insert_sorted(t: Seq<NodeModel>, x: NodeModel)
    requires
        sorted(t),
    ensures
        sorted(insert_sorted(t, x)),
        insert_sorted(t, x).len() == t.len() + 1,
        insert_sorted(t, x).to_multiset() == t.to_multiset().insert(x),
    decreases t.len(),
{
    broadcast use vstd::seq_lib::group_seq_properties, vstd::multiset::group_multiset_axioms,
        vstd::seq_lib::lemma_multiset_commutative;

    let r = insert_sorted(t, x);
    if t.len() == 0 {
        assert(r =~= t.push(x));
        assert(r.to_multiset() =~= t.to_multiset().insert(x));
    } else if node_lt(t[0], x) {
        let rest = t.drop_first();
        assert(t =~= seq![t[0]] + rest);
        assert(sorted(rest));
        lemma_insert_sorted(rest, x);
        let ir = insert_sorted(rest, x);
        assert forall|i: int, j: int| 0 <= i < j < r.len() implies !node_lt(#[trigger] r[j], #[trigger] r[i]) by {
            if i == 0 {
                let y = ir[j - 1];
                assert(r[j] == y);
                assert(ir.contains(y));
                assert(ir.to_multiset().count(y) > 0);
                if y == x {
                    lemma_node_lt_asym(t[0], x);
                } else {
                    assert(rest.to_multiset().count(y) > 0);
                    assert(rest.contains(y));
                    let k = choose|k: int| 0 <= k < rest.len() && rest[k] == y;
                    assert(t[k + 1] == rest[k]);
                }
            } else {
                assert(r[i] == ir[i - 1] && r[j] == ir[j - 1]);
            }
        }
        assert(r.to_multiset() =~= t.to_multiset().insert(x));
    } else {
        assert forall|i: int, j: int| 0 <= i < j < r.len() implies !node_lt(#[trigger] r[j], #[trigger] r[i]) by {
            if i == 0 {
                if j > 1 {
                    lemma_node_not_lt_trans(x, t[0], t[j - 1]);
                }
            } else {
                assert(r[i] == t[i - 1] && r[j] == t[j - 1]);
            }
        }
        assert(r.to_multiset() =~= t.to_multiset().insert(x));
    }
}

/// The sort yields a sorted permutation of its input.
pub proof fn lemma_sort_nodes(s: Seq<NodeModel>)
    ensures
        sorted(sort_nodes(s)),
        sort_nodes(s).to_multiset() == s.to_multiset(),
        sort_nodes(s).len() == s.len(),
    decreases s.len(),
{
    broadcast use vstd::seq_lib::group_seq_properties, vstd::multiset::group_multiset_axioms,
        vstd::seq_lib::lemma_multiset_commutative;

    if s.len() > 0 {
        lemma_sort_nodes(s.drop_first());
        lemma_insert_sorted(sort_nodes(s.drop_first()), s[0]);
        assert(s =~= seq![s[0]] + s.drop_first());
        assert(sort_nodes(s).to_multiset() =~= s.to_multiset());
    }
}

/// `insert_sorted` places `x` at the first position whose node does not sort
/// strictly before it.
proof fn lemma_insert_at(t: Seq<NodeModel>, x: NodeModel, j: int)
    requires
        0 <= j <= t.len(),
        forall|k: int| 0 <= k < j ==> node_lt(#[trigger] t[k], x),
        j < t.len() ==> !node_lt(t[j], x),
    ensures
        insert_sorted(t, x) == t.insert(j, x),
    decreases j,
{
    if j == 0 {
        assert(seq![x] + t =~= t.insert(0, x));
        if t.len() == 0 {
            assert(seq![x] =~= t.insert(0, x));
        }
    } else {
        assert(node_lt(t[0], x));
        let rest = t.drop_first();
        assert forall|k: int| 0 <= k < j - 1 implies node_lt(#[trigger] rest[k], x) by {
            assert(rest[k] == t[k + 1]);
        }
        lemma_insert_at(rest, x, j - 1);
        assert(seq![t[0]] + rest.insert(j - 1, x) =~= t.insert(j, x));
    }
}

/// Strict lexicographic comparison of two strings, by code point.
pub fn chars_less(a: &str, b: &str) -> (r: bool)
    ensures
        r == chars_lt(a@, b@),
{
    let na = a.unicode_len();
    let nb = b.unicode_len();
    let mut i: usize = 0;
    assert(a@ =~= a@.skip(0));
    assert(b@ =~= b@.skip(0));
    while i < na && i < nb
        invariant
            na == a@.len(),
            nb == b@.len(),
            i <= na,
            i <= nb,
            chars_lt(a@, b@) == chars_lt(a@.skip(i as int), b@.skip(i as int)),
        decreases na - i,
    {
        let ca = a.get_char(i);
        let cb = b.get_char(i);
        assert(a@.skip(i as int)[0] == ca);
        assert(b@.skip(i as int)[0] == cb);
        if ca != cb {
            return (ca as u32) < (cb as u32);
        }
        assert(a@.skip(i as int).drop_first() =~= a@.skip(i + 1));
        assert(b@.skip(i as int).drop_first() =~= b@.skip(i + 1));
        i = i + 1;
    }
    i < nb
}

/// Whether an entry with kind `x_is_dir` and lower-cased name `x_key` sorts
/// strictly before one with `y_is_dir` and `y_key`.
pub fn sorts_before(x_is_dir: bool, x_key: &String, y_is_dir: bool, y_key: &String) -> (r: bool)
    ensures
        r == ((x_is_dir && !y_is_dir) || (x_is_dir == y_is_dir && chars_lt(x_key@, y_key@))),
{
    if x_is_dir != y_is_dir {
        x_is_dir
    } else {
        chars_less(x_key.as_str(), y_key.as_str())
    }
}

/// Stable sort of sibling nodes: directories first, then by lower-cased name.
pub fn sort_tree_nodes(nodes: Vec<FileTreeNode>) -> (r: Vec<FileTreeNode>)
    ensures
        models(r@) == sort_nodes(models(nodes@)),
{
    let ghost orig = models(nodes@);
    proof {
        lemma_models(nodes@);
        assert(orig.take(nodes@.len() as int) =~= orig);
    }
    let mut rest = nodes;
    let mut out: Vec<FileTreeNode> = Vec::new();
    let mut keys: Vec<String> = Vec::new();
    proof {
        assert(orig.skip(rest.len() as int) =~= Seq::<NodeModel>::empty());
        assert(models(out@) =~= Seq::<NodeModel>::empty());
    }
    while rest.len() > 0
        invariant
            orig.len() == nodes@.len(),
            rest.len() <= orig.len(),
            models(rest@) == orig.take(rest.len() as int),
            models(out@) == sort_nodes(orig.skip(rest.len() as int)),
            keys.len() == out.len(),
            forall|k: int| 0 <= k < out.len() ==> #[trigger] keys@[k]@ == lower_of(out@[k].name@),
        decreases rest.len(),
    {
        let ghost before = rest@;
        let ghost n = rest.len() as int;
        let x = rest.pop().unwrap();
        proof {
            assert(models(rest@) =~= models(before).drop_last());
            lemma_models(before);
            assert(models(before)[n - 1] == x.model());
            assert(orig.take(n)[n - 1] == orig[n - 1]);
            assert(orig.take(n - 1) =~= orig.take(n).drop_last());
            assert(orig.skip(n - 1).drop_first() =~= orig.skip(n));
            assert(orig.skip(n - 1)[0] == orig[n - 1]);
            lemma_models(out@);
        }
        let kx = lowercase(x.name.as_str());
        let mut j: usize = 0;
        while j < out.len() && sorts_before(out[j].is_dir, &keys[j], x.is_dir, &kx)
            invariant
                j <= out.len(),
                keys.len() == out.len(),
                kx@ == lower_of(x.name@),
                models(out@).len() == out@.len(),
                forall|k: int| 0 <= k < out.len() ==> #[trigger] keys@[k]@ == lower_of(out@[k].name@),
                forall|k: int| 0 <= k < out.len() ==> #[trigger] models(out@)[k] == out@[k].model(),
                forall|k: int| 0 <= k < j ==> node_lt(#[trigger] models(out@)[k], x.model()),
            decreases out.len() - j,
        {
            j = j + 1;
        }
        proof {
            lemma_insert_at(models(out@), x.model(), j as int);
        }
        let ghost out_before = out@;
        let ghost xm = x.model();
        let ghost keys_before = keys@;
        out.insert(j, x);
        keys.insert(j, kx);
        proof {
            lemma_models(out_before);
            lemma_models(out@);
            assert(models(out@) =~= models(out_before).insert(j as int, xm));
            assert forall|k: int| 0 <= k < out.len() implies #[trigger] keys@[k]@ == lower_of(out@[k].name@) by {
                if k > j {
                    assert(keys@[k] == keys_before[k - 1] && out@[k] == out_before[k - 1]);
                } else if k < j {
                    assert(keys@[k] == keys_before[k] && out@[k] == out_before[k]);
                }
            }
        }
    }
    proof {
        assert(orig.skip(0) =~= orig);
    }
    out
}

} // verus!
