//! Global laws of the forest operations: what deletion removes, what
//! insertion adds, and how both preserve the uniqueness of ids.

use vstd::prelude::*;
use crate::model::{
    forest_ids, id_in_forest, lemma_forest_ids_first, lemma_no_dup_concat, lemma_node_ids_split,
    node_ids, wf_forest, SpecNode,
};
use crate::ops::{
    deep_delete, forest_add_child, forest_delete, forest_lookup, forest_set_attrs,
    lemma_forest_ids_subtree, node_add_child, node_lookup, node_set_attrs, top_contains,
    top_delete, with_children, with_extra_child,
};

verus! {

broadcast use vstd::seq_lib::lemma_seq_concat_contains_all_elements;

/// Splits the well-formedness of a non-empty forest at its first tree.
pub proof fn lemma_wf_parts(s: Seq<SpecNode>)
    requires
        wf_forest(s),
        s.len() > 0,
    ensures
        node_ids(s[0]).no_duplicates(),
        wf_forest(s.drop_first()),
        forall|x: u32|
            !(#[trigger] node_ids(s[0]).contains(x) && forest_ids(s.drop_first()).contains(x)),
{
    lemma_forest_ids_first(s);
    lemma_no_dup_concat(node_ids(s[0]), forest_ids(s.drop_first()));
}

/// A tree with unique ids has a well-formed child forest that does not
/// repeat the root's own id.
pub proof fn lemma_wf_node(n: SpecNode)
    requires
        node_ids(n).no_duplicates(),
    ensures
        wf_forest(n.children),
        !id_in_forest(n.children, n.id),
{
    assert(node_ids(n) == seq![n.id] + forest_ids(n.children));
    lemma_no_dup_concat(seq![n.id], forest_ids(n.children));
    assert(seq![n.id].contains(n.id)) by {
        assert(seq![n.id][0] == n.id);
    }
}

/// Lookup in a tree succeeds exactly when the id occurs in it, and a
/// successful lookup returns a node carrying that id.
pub proof fn lemma_node_lookup_found(n: SpecNode, id: u32)
    ensures
        (node_lookup(n, id) is Some) == node_ids(n).contains(id),
        node_lookup(n, id) is Some ==> node_lookup(n, id)->0.id == id,
    decreases n,
{
    lemma_node_ids_split(n);
    lemma_forest_lookup_found(n.children, id);
}

/// Lookup in a forest succeeds exactly when the id occurs in it.
pub proof fn lemma_forest_lookup_found(s: Seq<SpecNode>, id: u32)
    ensures
        (forest_lookup(s, id) is Some) == id_in_forest(s, id),
        forest_lookup(s, id) is Some ==> forest_lookup(s, id)->0.id == id,
    decreases s,
{
    if s.len() > 0 {
        lemma_node_lookup_found(s[0], id);
        lemma_forest_lookup_found(s.drop_first(), id);
        lemma_forest_ids_first(s);
    }
}

/// Whatever lookup returns is a subtree: its ids are among the tree's ids.
pub proof fn lemma_node_lookup_sub(n: SpecNode, id: u32)
    ensures
        node_lookup(n, id) is Some ==> forall|x: u32|
            #[trigger] node_ids(node_lookup(n, id)->0).contains(x) ==> node_ids(n).contains(x),
    decreases n,
{
    lemma_node_ids_split(n);
    if n.id == id {
    } else {
        lemma_forest_lookup_sub(n.children, id);
    }
}

/// Whatever lookup returns has its ids among the forest's ids.
pub proof fn lemma_forest_lookup_sub(s: Seq<SpecNode>, id: u32)
    ensures
        forest_lookup(s, id) is Some ==> forall|x: u32|
            #[trigger] node_ids(forest_lookup(s, id)->0).contains(x) ==> forest_ids(s).contains(x),
    decreases s,
{
    if s.len() > 0 {
        lemma_node_lookup_sub(s[0], id);
        lemma_forest_lookup_sub(s.drop_first(), id);
        lemma_forest_ids_first(s);
    }
}

/// What deletion does, exactly: in a well-formed forest holding `id`, the
/// deleted forest keeps its ids unique and holds precisely the original ids
/// minus the removed node's own id and all of its descendants' ids — the
/// children are discarded with the node, and none is promoted elsewhere.
pub proof fn lemma_delete_exact(s: Seq<SpecNode>, id: u32)
    requires
        wf_forest(s),
        id_in_forest(s, id),
    ensures
        forest_lookup(s, id) is Some,
        wf_forest(forest_delete(s, id)),
        forall|id2: u32|
            #[trigger] id_in_forest(forest_delete(s, id), id2) <==> (id_in_forest(s, id2)
                && !node_ids(forest_lookup(s, id)->0).contains(id2)),
    decreases forest_ids(s).len(),
{
    lemma_forest_lookup_found(s, id);
    assert(s.len() > 0);
    let rest = s.drop_first();
    lemma_wf_parts(s);
    lemma_forest_ids_first(s);
    lemma_node_ids_split(s[0]);
    assert(node_ids(s[0]) == seq![s[0].id] + forest_ids(s[0].children));
    if top_contains(s, id) {
        if s[0].id == id {
            assert(forest_delete(s, id) == rest);
            assert(node_lookup(s[0], id) == Some(s[0]));
            assert(forest_lookup(s, id) == Some(s[0]));
            assert forall|id2: u32| #[trigger] id_in_forest(forest_delete(s, id), id2) <==> (
            id_in_forest(s, id2) && !node_ids(s[0]).contains(id2)) by {
                assert(!(node_ids(s[0]).contains(id2) && forest_ids(rest).contains(id2)));
            }
        } else {
            let i = choose|i: int| 0 <= i < s.len() && s[i].id == id;
            assert(i >= 1);
            lemma_forest_ids_subtree(rest, i - 1);
            lemma_node_ids_split(rest[i - 1]);
            assert(rest[i - 1] == s[i]);
            assert(node_ids(s[i]).contains(id));
            assert(id_in_forest(rest, id));
            assert(top_contains(rest, id)) by {
                assert(rest[i - 1].id == id);
            }
            assert(!node_ids(s[0]).contains(id));
            lemma_delete_exact(rest, id);
            lemma_node_lookup_found(s[0], id);
            assert(node_lookup(s[0], id) is None);
            assert(forest_lookup(s, id) == forest_lookup(rest, id));
            let d = forest_lookup(rest, id)->0;
            lemma_forest_lookup_sub(rest, id);
            assert(forest_delete(s, id) == top_delete(s, id));
            assert(top_delete(s, id) == seq![s[0]] + top_delete(rest, id));
            assert(forest_delete(rest, id) == top_delete(rest, id));
            let res = seq![s[0]] + forest_delete(rest, id);
            lemma_forest_ids_first(res);
            assert(res[0] == s[0]);
            assert(res.drop_first() =~= forest_delete(rest, id));
            assert forall|id2: u32| #[trigger] id_in_forest(res, id2) <==> (id_in_forest(s, id2)
                && !node_ids(d).contains(id2)) by {
                assert(id_in_forest(res, id2) <==> (node_ids(s[0]).contains(id2) || id_in_forest(
                    forest_delete(rest, id),
                    id2,
                )));
                if node_ids(s[0]).contains(id2) {
                    assert(!(node_ids(s[0]).contains(id2) && forest_ids(rest).contains(id2)));
                    if node_ids(d).contains(id2) {
                        assert(forest_ids(rest).contains(id2));
                    }
                }
            }
            assert(wf_forest(res)) by {
                lemma_no_dup_concat(node_ids(s[0]), forest_ids(forest_delete(rest, id)));
                assert forall|x: u32|
                    !(#[trigger] node_ids(s[0]).contains(x) && forest_ids(
                        forest_delete(rest, id),
                    ).contains(x)) by {
                    if forest_ids(forest_delete(rest, id)).contains(x) {
                        assert(id_in_forest(forest_delete(rest, id), x));
                        assert(forest_ids(rest).contains(x));
                    }
                }
            }
        }
    } else {
        assert(forest_delete(s, id) == deep_delete(s, id));
        lemma_wf_node(s[0]);
        assert(s[0].id != id) by {
            if s[0].id == id {
                assert(top_contains(s, id));
            }
        }
        if id_in_forest(s[0].children, id) {
            let cs = s[0].children;
            lemma_delete_exact(cs, id);
            assert(node_lookup(s[0], id) == forest_lookup(cs, id));
            assert(forest_lookup(s, id) == forest_lookup(cs, id));
            let d = forest_lookup(cs, id)->0;
            lemma_forest_lookup_sub(cs, id);
            let h2 = with_children(s[0], forest_delete(cs, id));
            assert(deep_delete(s, id) == seq![h2] + rest);
            let res = seq![h2] + rest;
            lemma_forest_ids_first(res);
            assert(res[0] == h2);
            assert(res.drop_first() =~= rest);
            assert(node_ids(h2) == seq![s[0].id] + forest_ids(forest_delete(cs, id)));
            assert(seq![s[0].id].contains(s[0].id)) by {
                assert(seq![s[0].id][0] == s[0].id);
            }
            assert forall|x: u32| #[trigger] seq![s[0].id].contains(x) implies x == s[0].id by {
                let j = choose|j: int| 0 <= j < 1 && seq![s[0].id][j] == x;
            }
            assert forall|id2: u32| #[trigger] id_in_forest(res, id2) <==> (id_in_forest(s, id2)
                && !node_ids(d).contains(id2)) by {
                assert(id_in_forest(res, id2) <==> (node_ids(h2).contains(id2) || forest_ids(
                    rest,
                ).contains(id2)));
                assert(node_ids(h2).contains(id2) <==> (id2 == s[0].id || forest_ids(
                    forest_delete(cs, id),
                ).contains(id2)));
                assert(forest_ids(forest_delete(cs, id)).contains(id2) == id_in_forest(
                    forest_delete(cs, id),
                    id2,
                ));
                assert(id_in_forest(forest_delete(cs, id), id2) <==> (id_in_forest(cs, id2)
                    && !node_ids(d).contains(id2)));
                if node_ids(d).contains(id2) {
                    assert(forest_ids(cs).contains(id2));
                    assert(node_ids(s[0]).contains(id2));
                    assert(!(node_ids(s[0]).contains(id2) && forest_ids(rest).contains(id2)));
                    assert(id2 != s[0].id);
                }
            }
            assert(wf_forest(res)) by {
                assert(node_ids(h2).no_duplicates()) by {
                    lemma_no_dup_concat(seq![s[0].id], forest_ids(forest_delete(cs, id)));
                    assert forall|x: u32|
                        !(#[trigger] seq![s[0].id].contains(x) && forest_ids(
                            forest_delete(cs, id),
                        ).contains(x)) by {
                        if seq![s[0].id].contains(x) && forest_ids(
                            forest_delete(cs, id),
                        ).contains(x) {
                            assert(x == s[0].id);
                            assert(id_in_forest(forest_delete(cs, id), x));
                            assert(forest_ids(cs).contains(x));
                        }
                    }
                }
                lemma_no_dup_concat(node_ids(h2), forest_ids(rest));
                assert forall|x: u32|
                    !(#[trigger] node_ids(h2).contains(x) && forest_ids(rest).contains(x)) by {
                    if node_ids(h2).contains(x) {
                        assert(x == s[0].id || forest_ids(forest_delete(cs, id)).contains(x));
                        if forest_ids(forest_delete(cs, id)).contains(x) {
                            assert(id_in_forest(forest_delete(cs, id), x));
                            assert(forest_ids(cs).contains(x));
                        }
                        assert(node_ids(s[0]).contains(x));
                    }
                }
            }
        } else {
            assert(!node_ids(s[0]).contains(id));
            assert(id_in_forest(rest, id));
            assert(!top_contains(rest, id)) by {
                if top_contains(rest, id) {
                    let j = choose|j: int| 0 <= j < rest.len() && rest[j].id == id;
                    assert(s[j + 1].id == id);
                    assert(top_contains(s, id));
                }
            }
            lemma_delete_exact(rest, id);
            lemma_node_lookup_found(s[0], id);
            assert(node_lookup(s[0], id) is None);
            assert(forest_lookup(s, id) == forest_lookup(rest, id));
            let d = forest_lookup(rest, id)->0;
            lemma_forest_lookup_sub(rest, id);
            assert(forest_delete(rest, id) == deep_delete(rest, id));
            assert(deep_delete(s, id) == seq![s[0]] + deep_delete(rest, id));
            let res = seq![s[0]] + forest_delete(rest, id);
            lemma_forest_ids_first(res);
            assert(res[0] == s[0]);
            assert(res.drop_first() =~= forest_delete(rest, id));
            assert forall|id2: u32| #[trigger] id_in_forest(res, id2) <==> (id_in_forest(s, id2)
                && !node_ids(d).contains(id2)) by {
                assert(id_in_forest(res, id2) <==> (node_ids(s[0]).contains(id2) || id_in_forest(
                    forest_delete(rest, id),
                    id2,
                )));
                if node_ids(s[0]).contains(id2) {
                    assert(!(node_ids(s[0]).contains(id2) && forest_ids(rest).contains(id2)));
                    if node_ids(d).contains(id2) {
                        assert(forest_ids(rest).contains(id2));
                    }
                }
            }
            assert(wf_forest(res)) by {
                lemma_no_dup_concat(node_ids(s[0]), forest_ids(forest_delete(rest, id)));
                assert forall|x: u32|
                    !(#[trigger] node_ids(s[0]).contains(x) && forest_ids(
                        forest_delete(rest, id),
                    ).contains(x)) by {
                    if forest_ids(forest_delete(rest, id)).contains(x) {
                        assert(id_in_forest(forest_delete(rest, id), x));
                        assert(forest_ids(rest).contains(x));
                    }
                }
            }
        }
    }
}

/// What insertion does to a tree's ids: with a wholly fresh child, the ids
/// stay unique and grow by exactly the child's ids when a parent was found.
pub proof fn lemma_node_add_exact(n: SpecNode, pid: u32, c: SpecNode)
    requires
        node_ids(n).no_duplicates(),
        node_ids(c).no_duplicates(),
        forall|x: u32| !(#[trigger] node_ids(n).contains(x) && node_ids(c).contains(x)),
    ensures
        node_ids(node_add_child(n, pid, c).0).no_duplicates(),
        forall|x: u32|
            #[trigger] node_ids(node_add_child(n, pid, c).0).contains(x) <==> (node_ids(
                n,
            ).contains(x) || (node_add_child(n, pid, c).1 && node_ids(c).contains(x))),
    decreases n,
{
    lemma_wf_node(n);
    assert(seq![n.id].contains(n.id)) by {
        assert(seq![n.id][0] == n.id);
    }
    assert forall|x: u32| #[trigger] seq![n.id].contains(x) implies x == n.id by {
        let j = choose|j: int| 0 <= j < 1 && seq![n.id][j] == x;
    }
    if n.id == pid {
        let res = with_extra_child(n, c);
        assert(n.children.push(c) =~= n.children + seq![c]);
        crate::model::lemma_forest_ids_concat(n.children, seq![c]);
        assert(seq![c].drop_first() =~= Seq::<SpecNode>::empty());
        assert(forest_ids(seq![c]) == node_ids(c) + forest_ids(Seq::empty()));
        assert(node_ids(c) + Seq::<u32>::empty() =~= node_ids(c));
        assert(node_ids(res) == seq![n.id] + (forest_ids(n.children) + node_ids(c)));
        assert forall|x: u32|
            #[trigger] node_ids(res).contains(x) <==> (node_ids(n).contains(x) || node_ids(
                c,
            ).contains(x)) by {
            assert(node_ids(res).contains(x) <==> (seq![n.id].contains(x) || forest_ids(
                n.children,
            ).contains(x) || node_ids(c).contains(x)));
            assert(node_ids(n).contains(x) <==> (seq![n.id].contains(x) || forest_ids(
                n.children,
            ).contains(x)));
        }
        assert(node_ids(res).no_duplicates()) by {
            lemma_no_dup_concat(forest_ids(n.children), node_ids(c));
            assert forall|x: u32|
                !(#[trigger] forest_ids(n.children).contains(x) && node_ids(c).contains(x)) by {
                if forest_ids(n.children).contains(x) {
                    assert(node_ids(n).contains(x));
                }
            }
            lemma_no_dup_concat(seq![n.id], forest_ids(n.children) + node_ids(c));
            assert forall|x: u32|
                !(#[trigger] seq![n.id].contains(x) && (forest_ids(n.children)
                    + node_ids(c)).contains(x)) by {
                if seq![n.id].contains(x) {
                    assert(x == n.id);
                    assert(node_ids(n).contains(n.id));
                }
            }
        }
    } else {
        assert forall|x: u32|
            !(#[trigger] forest_ids(n.children).contains(x) && node_ids(c).contains(x)) by {
            if forest_ids(n.children).contains(x) {
                assert(node_ids(n).contains(x));
            }
        }
        let cs2 = forest_add_child(n.children, pid, c).0;
        lemma_forest_add_exact(n.children, pid, c);
        let res = with_children(n, cs2);
        assert(node_ids(res) == seq![n.id] + forest_ids(cs2));
        assert forall|x: u32|
            #[trigger] node_ids(res).contains(x) <==> (node_ids(n).contains(x) || (node_add_child(
                n,
                pid,
                c,
            ).1 && node_ids(c).contains(x))) by {
            assert(node_ids(res).contains(x) <==> (seq![n.id].contains(x) || forest_ids(
                cs2,
            ).contains(x)));
            assert(id_in_forest(cs2, x) <==> (id_in_forest(n.children, x) || (forest_add_child(
                n.children,
                pid,
                c,
            ).1 && node_ids(c).contains(x))));
            assert(node_ids(n).contains(x) <==> (seq![n.id].contains(x) || forest_ids(
                n.children,
            ).contains(x)));
        }
        assert(node_ids(res).no_duplicates()) by {
            lemma_no_dup_concat(seq![n.id], forest_ids(cs2));
            assert forall|x: u32|
                !(#[trigger] seq![n.id].contains(x) && forest_ids(cs2).contains(x)) by {
                if seq![n.id].contains(x) && forest_ids(cs2).contains(x) {
                    assert(x == n.id);
                    assert(node_ids(n).contains(n.id));
                    assert(id_in_forest(cs2, n.id));
                }
            }
        }
    }
}

/// What insertion does to a forest's ids.
pub proof fn lemma_forest_add_exact(s: Seq<SpecNode>, pid: u32, c: SpecNode)
    requires
        wf_forest(s),
        node_ids(c).no_duplicates(),
        forall|x: u32| !(#[trigger] forest_ids(s).contains(x) && node_ids(c).contains(x)),
    ensures
        wf_forest(forest_add_child(s, pid, c).0),
        forall|x: u32|
            #[trigger] id_in_forest(forest_add_child(s, pid, c).0, x) <==> (id_in_forest(s, x) || (
            forest_add_child(s, pid, c).1 && node_ids(c).contains(x))),
    decreases s,
{
    if s.len() == 0 {
    } else {
        let rest = s.drop_first();
        lemma_wf_parts(s);
        lemma_forest_ids_first(s);
        let p0 = node_add_child(s[0], pid, c);
        assert forall|x: u32|
            !(#[trigger] node_ids(s[0]).contains(x) && node_ids(c).contains(x)) by {
            if node_ids(s[0]).contains(x) {
                assert(forest_ids(s).contains(x));
            }
        }
        assert forall|x: u32|
            !(#[trigger] forest_ids(rest).contains(x) && node_ids(c).contains(x)) by {
            if forest_ids(rest).contains(x) {
                assert(forest_ids(s).contains(x));
            }
        }
        if p0.1 {
            lemma_node_add_exact(s[0], pid, c);
            let res = seq![p0.0] + rest;
            assert(forest_add_child(s, pid, c).0 == res);
            lemma_forest_ids_first(res);
            assert(res[0] == p0.0);
            assert(res.drop_first() =~= rest);
            assert forall|x: u32| #[trigger] id_in_forest(res, x) <==> (id_in_forest(s, x) || (
            forest_add_child(s, pid, c).1 && node_ids(c).contains(x))) by {
                assert(id_in_forest(res, x) <==> (node_ids(p0.0).contains(x) || forest_ids(
                    rest,
                ).contains(x)));
            }
            assert(wf_forest(res)) by {
                lemma_no_dup_concat(node_ids(p0.0), forest_ids(rest));
                assert forall|x: u32|
                    !(#[trigger] node_ids(p0.0).contains(x) && forest_ids(rest).contains(x)) by {
                    if node_ids(p0.0).contains(x) && forest_ids(rest).contains(x) {
                        assert(node_ids(s[0]).contains(x) || node_ids(c).contains(x));
                        assert(forest_ids(s).contains(x));
                    }
                }
            }
        } else {
            let q = forest_add_child(rest, pid, c);
            lemma_forest_add_exact(rest, pid, c);
            let res = seq![s[0]] + q.0;
            assert(forest_add_child(s, pid, c).0 == res);
            assert(forest_add_child(s, pid, c).1 == q.1);
            lemma_forest_ids_first(res);
            assert(res[0] == s[0]);
            assert(res.drop_first() =~= q.0);
            assert forall|x: u32| #[trigger] id_in_forest(res, x) <==> (id_in_forest(s, x) || (q.1
                && node_ids(c).contains(x))) by {
                assert(id_in_forest(res, x) <==> (node_ids(s[0]).contains(x) || id_in_forest(
                    q.0,
                    x,
                )));
                assert(id_in_forest(q.0, x) <==> (id_in_forest(rest, x) || (q.1 && node_ids(
                    c,
                ).contains(x))));
            }
            assert(wf_forest(res)) by {
                lemma_no_dup_concat(node_ids(s[0]), forest_ids(q.0));
                assert forall|x: u32|
                    !(#[trigger] node_ids(s[0]).contains(x) && forest_ids(q.0).contains(x)) by {
                    if node_ids(s[0]).contains(x) && forest_ids(q.0).contains(x) {
                        assert(id_in_forest(q.0, x));
                        assert(forest_ids(rest).contains(x) || node_ids(c).contains(x));
                        assert(forest_ids(s).contains(x));
                    }
                }
            }
        }
    }
}

/// An attribute edit never touches the tree's ids.
pub proof fn lemma_node_set_ids(n: SpecNode, id: u32, a: crate::ops::SpecAttrs)
    ensures
        node_ids(node_set_attrs(n, id, a).0) == node_ids(n),
    decreases n,
{
    if n.id == id {
    } else {
        lemma_forest_set_ids(n.children, id, a);
    }
}

/// An attribute edit never touches the forest's ids.
pub proof fn lemma_forest_set_ids(s: Seq<SpecNode>, id: u32, a: crate::ops::SpecAttrs)
    ensures
        forest_ids(forest_set_attrs(s, id, a).0) == forest_ids(s),
    decreases s,
{
    if s.len() > 0 {
        let rest = s.drop_first();
        lemma_forest_ids_first(s);
        lemma_node_set_ids(s[0], id, a);
        lemma_forest_set_ids(rest, id, a);
        let p0 = node_set_attrs(s[0], id, a);
        if p0.1 {
            let res = seq![p0.0] + rest;
            lemma_forest_ids_first(res);
            assert(res[0] == p0.0);
            assert(res.drop_first() =~= rest);
        } else {
            let res = seq![s[0]] + forest_set_attrs(rest, id, a).0;
            lemma_forest_ids_first(res);
            assert(res[0] == s[0]);
            assert(res.drop_first() =~= forest_set_attrs(rest, id, a).0);
        }
    }
}

} // verus!
