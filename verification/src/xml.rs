//! In-memory model of an XML document tree.
//!
//! The merger works on this tree: an element has a local name, an optional
//! prefix and namespace, a list of namespace declarations, an ordered list of
//! attribute pairs and an ordered list of child nodes.  Attribute lists are
//! plain vectors of `(name, value)` pairs; their contracts are stated over
//! sequences of character-sequence pairs.

use vstd::prelude::*;

verus! {

/// One node of an XML document tree.
pub enum XmlNode {
    Element(XmlElement),
    Comment(String),
    CData(String),
    Text(String),
    ProcessingInstruction(String, Option<String>),
}

/// One XML element: name, optional prefix and namespace, namespace
/// declarations, attributes and children, all in document order.
pub struct XmlElement {
    pub prefix: Option<String>,
    pub namespace: Option<String>,
    pub namespaces: Vec<(String, String)>,
    pub name: String,
    pub attributes: Vec<(String, String)>,
    pub children: Vec<XmlNode>,
}

/// The views of a sequence of strings.
pub open spec fn seq_views(ss: Seq<String>) -> Seq<Seq<char>> {
    ss.map_values(|s: String| s@)
}

/// The views of a sequence of string pairs.
pub open spec fn pair_views(ps: Seq<(String, String)>) -> Seq<(Seq<char>, Seq<char>)> {
    ps.map_values(|p: (String, String)| (p.0@, p.1@))
}

/// Whether `names` holds the name `x`.
pub open spec fn contains_name(names: Seq<Seq<char>>, x: Seq<char>) -> bool {
    exists|i: int| 0 <= i < names.len() && names[i] == x
}

/// The pairs of `ps` whose first component is not listed in `keys`, in order.
pub open spec fn remove_keys(
    ps: Seq<(Seq<char>, Seq<char>)>,
    keys: Seq<Seq<char>>,
) -> Seq<(Seq<char>, Seq<char>)>
    decreases ps.len(),
{
    if ps.len() == 0 {
        Seq::empty()
    } else {
        let rest = remove_keys(ps.drop_last(), keys);
        if contains_name(keys, ps.last().0) {
            rest
        } else {
            rest.push(ps.last())
        }
    }
}

/// The positions, in order, of the pairs whose key is not listed.
pub open spec fn kept_indices(ps: Seq<(Seq<char>, Seq<char>)>, keys: Seq<Seq<char>>) -> Seq<int>
    decreases ps.len(),
{
    if ps.len() == 0 {
        Seq::empty()
    } else {
        let rest = kept_indices(ps.drop_last(), keys);
        if contains_name(keys, ps.last().0) {
            rest
        } else {
            rest.push(ps.len() - 1)
        }
    }
}

/// Attribute removal drops exactly the pairs whose name is listed: what
/// remains is the pairs with unlisted names, unchanged and in their
/// original order.
pub proof fn lemma_remove_keys_exact(ps: Seq<(Seq<char>, Seq<char>)>, keys: Seq<Seq<char>>)
    ensures
        remove_keys(ps, keys).len() == kept_indices(ps, keys).len(),
        forall|k: int|
            0 <= k < kept_indices(ps, keys).len() ==> 0 <= #[trigger] kept_indices(ps, keys)[k]
                < ps.len() && !contains_name(keys, ps[kept_indices(ps, keys)[k]].0)
                && remove_keys(ps, keys)[k] == ps[kept_indices(ps, keys)[k]],
        forall|k1: int, k2: int|
            0 <= k1 < k2 < kept_indices(ps, keys).len() ==> #[trigger] kept_indices(ps, keys)[k1]
                < #[trigger] kept_indices(ps, keys)[k2],
        forall|j: int|
            0 <= j < ps.len() && !contains_name(keys, ps[j].0) ==> kept_indices(
                ps,
                keys,
            ).contains(j),
    decreases ps.len(),
{
    let idx = kept_indices(ps, keys);
    let r = remove_keys(ps, keys);
    if ps.len() > 0 {
        let head = ps.drop_last();
        let prev_idx = kept_indices(head, keys);
        let prev_r = remove_keys(head, keys);
        lemma_remove_keys_exact(head, keys);
        assert(forall|j: int| 0 <= j < head.len() ==> head[j] == ps[j]);
        assert forall|k: int| 0 <= k < idx.len() implies 0 <= #[trigger] idx[k] < ps.len()
            && !contains_name(keys, ps[idx[k]].0) && r[k] == ps[idx[k]] by {
            if contains_name(keys, ps.last().0) {
                assert(idx == prev_idx && r == prev_r);
            } else {
                assert(idx == prev_idx.push(ps.len() - 1) && r == prev_r.push(ps.last()));
                if k < prev_idx.len() {
                    assert(idx[k] == prev_idx[k] && r[k] == prev_r[k]);
                } else {
                    assert(idx[k] == ps.len() - 1 && r[k] == ps.last());
                    assert(ps[ps.len() - 1] == ps.last());
                }
            }
        }
        assert forall|k1: int, k2: int| 0 <= k1 < k2 < idx.len() implies #[trigger] idx[k1]
            < #[trigger] idx[k2] by {
            if contains_name(keys, ps.last().0) {
                assert(idx == prev_idx);
            } else {
                assert(idx == prev_idx.push(ps.len() - 1));
                if k2 < prev_idx.len() {
                    assert(idx[k1] == prev_idx[k1] && idx[k2] == prev_idx[k2]);
                } else {
                    assert(idx[k1] == prev_idx[k1] && idx[k2] == ps.len() - 1);
                    assert(0 <= prev_idx[k1] < head.len());
                }
            }
        }
        assert forall|j: int| 0 <= j < ps.len() && !contains_name(keys, ps[j].0) implies
            idx.contains(j) by {
            if j < ps.len() - 1 {
                assert(prev_idx.contains(j));
                let w = choose|w: int| 0 <= w < prev_idx.len() && prev_idx[w] == j;
                assert(idx[w] == prev_idx[w]);
                assert(idx.contains(j));
            } else {
                assert(ps[j] == ps.last());
                assert(idx[idx.len() - 1] == j);
                assert(idx.contains(j));
            }
        }
    }
}

/// The value of the first pair of `ps` whose key is `key`, if any.
pub open spec fn lookup_key(
    ps: Seq<(Seq<char>, Seq<char>)>,
    key: Seq<char>,
) -> Option<Seq<char>>
    decreases ps.len(),
{
    if ps.len() == 0 {
        None
    } else if ps[0].0 == key {
        Some(ps[0].1)
    } else {
        lookup_key(ps.drop_first(), key)
    }
}

/// Whether the list of names holds the view of `target`.
pub fn name_list_contains(names: &Vec<String>, target: &String) -> (r: bool)
    ensures
        r == contains_name(seq_views(names@), target@),
{
    let mut i: usize = 0;
    while i < names.len()
        invariant
            0 <= i <= names.len(),
            forall|j: int| 0 <= j < i ==> seq_views(names@)[j] != target@,
        decreases names.len() - i,
    {
        proof {
            assert(seq_views(names@)[i as int] == names@[i as int]@);
        }
        if names[i] == *target {
            return true;
        }
        i = i + 1;
    }
    false
}

/// A fresh copy of `pairs` without the pairs whose key is listed in `removed`.
pub fn remove_listed_attributes(
    pairs: &Vec<(String, String)>,
    removed: &Vec<String>,
) -> (r: Vec<(String, String)>)
    ensures
        pair_views(r@) == remove_keys(pair_views(pairs@), seq_views(removed@)),
{
    let ghost keys: Seq<Seq<char>> = seq_views(removed@);
    let mut out: Vec<(String, String)> = Vec::new();
    let mut i: usize = 0;
    while i < pairs.len()
        invariant
            0 <= i <= pairs.len(),
            keys == seq_views(removed@),
            pair_views(out@) == remove_keys(pair_views(pairs@.take(i as int)), keys),
        decreases pairs.len() - i,
    {
        let ghost prefix = pair_views(pairs@.take(i as int));
        let ghost prefix1 = pair_views(pairs@.take(i + 1));
        let ghost pv = (pairs@[i as int].0@, pairs@[i as int].1@);
        proof {
            assert(pairs@.take(i + 1).drop_last() =~= pairs@.take(i as int));
            assert(prefix1.drop_last() =~= prefix);
            assert(prefix1.last() == pv);
        }
        let pair = &pairs[i];
        if !name_list_contains(removed, &pair.0) {
            let ghost before = out@;
            out.push((pair.0.clone(), pair.1.clone()));
            proof {
                assert(pair_views(out@) =~= pair_views(before).push(pv));
            }
        }
        i = i + 1;
    }
    proof {
        assert(pairs@.take(pairs@.len() as int) =~= pairs@);
    }
    out
}

/// The value of the first attribute of `pairs` named like `key`, if any.
pub fn lookup_attribute<'a>(pairs: &'a Vec<(String, String)>, key: &String) -> (r: Option<
    &'a String,
>)
    ensures
        match r {
            Some(v) => lookup_key(pair_views(pairs@), key@) == Some(v@),
            None => lookup_key(pair_views(pairs@), key@) is None,
        },
{
    proof {
        assert(pair_views(pairs@).skip(0) =~= pair_views(pairs@));
    }
    let mut i: usize = 0;
    while i < pairs.len()
        invariant
            0 <= i <= pairs.len(),
            lookup_key(pair_views(pairs@), key@) == lookup_key(
                pair_views(pairs@).skip(i as int),
                key@,
            ),
        decreases pairs.len() - i,
    {
        let ghost rest = pair_views(pairs@).skip(i as int);
        proof {
            assert(rest[0] == pair_views(pairs@)[i as int]);
            assert(rest.drop_first() =~= pair_views(pairs@).skip(i + 1));
        }
        if pairs[i].0 == *key {
            return Some(&pairs[i].1);
        }
        i = i + 1;
    }
    proof {
        assert(pair_views(pairs@).skip(pairs@.len() as int) =~= Seq::<(
            Seq<char>,
            Seq<char>,
        )>::empty());
    }
    None
}

} // verus!
