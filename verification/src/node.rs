//! The document tree: a typed model of the design-file payload.
//!
//! The payload is decoded once at the program's boundary into these
//! structures, so that the traversal logic works on typed data rather than
//! generic key lookups. A node lacking a field of the payload (`id`, `name`,
//! `fills`, `children`) carries `None` there.
use vstd::prelude::*;

verus! {

/// The tag of a document node. Only `Image` matters to the classifier;
/// every tag this library does not need to tell apart decodes to `Other`.
#[derive(Clone, Copy, Debug, PartialEq, Eq, Structural)]
pub enum NodeType {
    Image,
    Frame,
    Rectangle,
    Other,
}

/// The tag of one entry of a node's fill list.
#[derive(Clone, Copy, Debug, PartialEq, Eq, Structural)]
pub enum FillType {
    Image,
    Solid,
    Other,
}

/// One entry of a node's ordered fill list.
#[derive(Clone, Copy, Debug, PartialEq, Eq, Structural)]
pub struct Fill {
    pub fill_type: FillType,
}

/// One node of the document tree. Read-only during traversal; the tree
/// exists only for the duration of one extraction call.
pub struct DocumentNode {
    pub id: Option<String>,
    pub name: Option<String>,
    pub node_type: NodeType,
    pub fills: Option<Vec<Fill>>,
    pub children: Option<Vec<DocumentNode>>,
}

/// Holds when the fill list is present and some entry of it is an image
/// fill. A node lacking the list never matches.
pub open spec fn spec_fills_have_image(fills: Option<Vec<Fill>>) -> bool {
    match fills {
        Some(fs) => exists|i: int| 0 <= i < fs@.len() && fs@[i].fill_type == FillType::Image,
        None => false,
    }
}

/// The classifier: a node represents an image when its own tag is `Image`,
/// or when any entry of its fill list is an image fill.
pub open spec fn spec_is_image_node(n: DocumentNode) -> bool {
    n.node_type == NodeType::Image || spec_fills_have_image(n.fills)
}

/// The node's children in document order; a node lacking the list has none.
pub open spec fn spec_children(n: DocumentNode) -> Seq<DocumentNode> {
    match n.children {
        Some(cs) => cs@,
        None => Seq::empty(),
    }
}

/// Holds when the traversal emits a record for this node: it must be an
/// image node and carry both an `id` and a `name`.
pub open spec fn spec_node_emits(n: DocumentNode) -> bool {
    spec_is_image_node(n) && n.id is Some && n.name is Some
}

/// The `(id, name)` record the traversal emits for an emitting node.
pub open spec fn spec_node_record(n: DocumentNode) -> (Seq<char>, Seq<char>) {
    (n.id->0@, n.name->0@)
}

/// The number of nodes in the tree rooted at `n`.
pub open spec fn spec_node_size(n: DocumentNode) -> nat
    decreases n,
{
    match n.children {
        Some(cs) => 1 + spec_forest_size(cs@),
        None => 1,
    }
}

/// The number of nodes in all the trees of a forest.
pub open spec fn spec_forest_size(cs: Seq<DocumentNode>) -> nat
    decreases cs,
{
    if cs.len() == 0 {
        0
    } else {
        spec_node_size(cs[cs.len() - 1]) + spec_forest_size(cs.subrange(0, cs.len() - 1))
    }
}

/// The records of the tree rooted at `n`, in the order the stack-based
/// traversal emits them: the node's own record first, then the records of
/// its children's subtrees, last child first.
pub open spec fn spec_node_records(n: DocumentNode) -> Seq<(Seq<char>, Seq<char>)>
    decreases n,
{
    (if spec_node_emits(n) {
        seq![spec_node_record(n)]
    } else {
        Seq::empty()
    }) + (match n.children {
        Some(cs) => spec_forest_records_rev(cs@),
        None => Seq::empty(),
    })
}

/// The records of a forest, emitted last tree first — the pop order of a
/// stack whose trees were pushed in document order.
pub open spec fn spec_forest_records_rev(cs: Seq<DocumentNode>) -> Seq<(Seq<char>, Seq<char>)>
    decreases cs,
{
    if cs.len() == 0 {
        Seq::empty()
    } else {
        spec_node_records(cs[cs.len() - 1]) + spec_forest_records_rev(cs.subrange(0, cs.len() - 1))
    }
}

/// Holds when `m` is a node of the tree rooted at `root`: the root itself,
/// or a node of some child's subtree.
pub open spec fn spec_tree_contains(root: DocumentNode, m: DocumentNode) -> bool
    decreases root,
{
    root == m || match root.children {
        Some(cs) => exists|i: int| 0 <= i < cs@.len() && spec_tree_contains(cs@[i], m),
        None => false,
    }
}

/// The node a path of child indices leads to, if every index is in range:
/// the empty path names the root itself.
pub open spec fn spec_node_at(root: DocumentNode, path: Seq<int>) -> Option<DocumentNode>
    decreases path.len(),
{
    if path.len() == 0 {
        Some(root)
    } else {
        let cs = spec_children(root);
        if 0 <= path[0] < cs.len() {
            spec_node_at(cs[path[0]], path.subrange(1, path.len() as int))
        } else {
            None
        }
    }
}

/// Holds when the path leads to an emitting node whose record is `r`.
pub open spec fn spec_path_yields(
    root: DocumentNode,
    path: Seq<int>,
    r: (Seq<char>, Seq<char>),
) -> bool {
    spec_node_at(root, path) matches Some(m) && spec_node_emits(m) && spec_node_record(m) == r
}

/// The path of each record of the tree, in emission order: the record of
/// `spec_node_records(n)[k]` sits at `spec_node_record_paths(n)[k]`.
pub open spec fn spec_node_record_paths(n: DocumentNode) -> Seq<Seq<int>>
    decreases n,
{
    (if spec_node_emits(n) {
        seq![Seq::<int>::empty()]
    } else {
        Seq::empty()
    }) + (match n.children {
        Some(cs) => spec_forest_record_paths(cs@),
        None => Seq::empty(),
    })
}

/// The paths of a forest's records, each led by the index of its tree.
pub open spec fn spec_forest_record_paths(cs: Seq<DocumentNode>) -> Seq<Seq<int>>
    decreases cs,
{
    if cs.len() == 0 {
        Seq::empty()
    } else {
        spec_node_record_paths(cs[cs.len() - 1]).map_values(
            |p: Seq<int>| seq![(cs.len() - 1) as int] + p,
        ) + spec_forest_record_paths(cs.subrange(0, cs.len() - 1))
    }
}

/// Holds when a forest path — its head a tree index, its tail a path in
/// that tree — leads to an emitting node whose record is `r`.
pub open spec fn spec_forest_path_leads(
    cs: Seq<DocumentNode>,
    p: Seq<int>,
    r: (Seq<char>, Seq<char>),
) -> bool {
    p.len() >= 1 && 0 <= p[0] < cs.len() && spec_path_yields(
        cs[p[0]],
        p.subrange(1, p.len() as int),
        r,
    )
}

/// Each record of a tree sits at its listed path: the path list runs
/// parallel to the record list, entry by entry.
pub proof fn lemma_node_paths_agree(n: DocumentNode)
    ensures
        spec_node_record_paths(n).len() == spec_node_records(n).len(),
        forall|k: int|
            0 <= k < spec_node_records(n).len() ==> #[trigger] spec_path_yields(
                n,
                spec_node_record_paths(n)[k],
                spec_node_records(n)[k],
            ),
    decreases n,
{
    let records = spec_node_records(n);
    let paths = spec_node_record_paths(n);
    let own_count: int = if spec_node_emits(n) {
        1
    } else {
        0
    };
    let cs = spec_children(n);
    match n.children {
        Some(v) => {
            lemma_forest_paths_agree(v@);
            assert(cs == v@);
        },
        None => {
            assert(cs =~= Seq::<DocumentNode>::empty());
            assert(spec_forest_record_paths(cs).len() == 0);
            assert(spec_forest_records_rev(cs).len() == 0);
        },
    }
    let frecords = spec_forest_records_rev(cs);
    let fpaths = spec_forest_record_paths(cs);
    assert forall|k: int| 0 <= k < records.len() implies #[trigger] spec_path_yields(
        n,
        paths[k],
        records[k],
    ) by {
        if k < own_count {
            assert(paths[k] =~= Seq::<int>::empty());
            assert(spec_node_at(n, paths[k]) == Some(n));
        } else {
            let p = fpaths[k - own_count];
            assert(paths[k] == p);
            assert(records[k] == frecords[k - own_count]);
            assert(spec_forest_path_leads(cs, p, frecords[k - own_count]));
            let tail = p.subrange(1, p.len() as int);
            assert(spec_node_at(n, p) == spec_node_at(cs[p[0]], tail));
        }
    }
}

/// Each record of a forest sits at its listed path.
pub proof fn lemma_forest_paths_agree(cs: Seq<DocumentNode>)
    ensures
        spec_forest_record_paths(cs).len() == spec_forest_records_rev(cs).len(),
        forall|k: int|
            0 <= k < spec_forest_records_rev(cs).len() ==> #[trigger] spec_forest_path_leads(
                cs,
                spec_forest_record_paths(cs)[k],
                spec_forest_records_rev(cs)[k],
            ),
    decreases cs,
{
    if cs.len() == 0 {
    } else {
        let last = cs[cs.len() - 1];
        let front = cs.subrange(0, cs.len() - 1);
        lemma_node_paths_agree(last);
        lemma_forest_paths_agree(front);
        let last_paths = spec_node_record_paths(last).map_values(
            |p: Seq<int>| seq![(cs.len() - 1) as int] + p,
        );
        let last_count = last_paths.len() as int;
        let records = spec_forest_records_rev(cs);
        let paths = spec_forest_record_paths(cs);
        assert forall|k: int| 0 <= k < records.len() implies #[trigger] spec_forest_path_leads(
            cs,
            paths[k],
            records[k],
        ) by {
            if k < last_count {
                let q = spec_node_record_paths(last)[k];
                assert(paths[k] == seq![(cs.len() - 1) as int] + q);
                assert(paths[k][0] == cs.len() - 1);
                assert(paths[k].subrange(1, paths[k].len() as int) =~= q);
                assert(records[k] == spec_node_records(last)[k]);
                assert(spec_path_yields(last, q, spec_node_records(last)[k]));
            } else {
                let p = spec_forest_record_paths(front)[k - last_count];
                assert(paths[k] == p);
                assert(records[k] == spec_forest_records_rev(front)[k - last_count]);
                assert(spec_forest_path_leads(front, p, records[k]));
                assert(cs[p[0]] == front[p[0]]);
            }
        }
    }
}

/// The listed paths of a tree are pairwise distinct: each record has a
/// position of its own, even where two equal subtrees stand at two places.
pub proof fn lemma_node_paths_distinct(n: DocumentNode)
    ensures
        spec_node_record_paths(n).no_duplicates(),
    decreases n,
{
    let paths = spec_node_record_paths(n);
    let own_count: int = if spec_node_emits(n) {
        1
    } else {
        0
    };
    let cs = spec_children(n);
    match n.children {
        Some(v) => {
            lemma_forest_paths_distinct(v@);
            lemma_forest_paths_agree(v@);
            assert(cs == v@);
        },
        None => {
            assert(cs =~= Seq::<DocumentNode>::empty());
            assert(spec_forest_record_paths(cs).len() == 0);
        },
    }
    let fpaths = spec_forest_record_paths(cs);
    assert forall|a: int, b: int|
        0 <= a < paths.len() && 0 <= b < paths.len() && a != b implies paths[a] != paths[b] by {
        if a < own_count || b < own_count {
            // The root's own path is empty; every forest path has a head.
            let other = if a < own_count {
                b
            } else {
                a
            };
            assert(fpaths[other - own_count].len() >= 1) by {
                lemma_forest_heads(cs, other - own_count);
            }
        } else {
            assert(fpaths[a - own_count] != fpaths[b - own_count]);
        }
    }
}

/// Every listed path of a forest has a head index in range.
pub proof fn lemma_forest_heads(cs: Seq<DocumentNode>, k: int)
    requires
        0 <= k < spec_forest_record_paths(cs).len(),
    ensures
        spec_forest_record_paths(cs)[k].len() >= 1,
        0 <= spec_forest_record_paths(cs)[k][0] < cs.len(),
    decreases cs,
{
    let paths = spec_forest_record_paths(cs);
    let last_paths = spec_node_record_paths(cs[cs.len() - 1]).map_values(
        |p: Seq<int>| seq![(cs.len() - 1) as int] + p,
    );
    if k < last_paths.len() {
        assert(paths[k] == seq![(cs.len() - 1) as int] + spec_node_record_paths(
            cs[cs.len() - 1],
        )[k]);
    } else {
        let front = cs.subrange(0, cs.len() - 1);
        lemma_forest_heads(front, k - last_paths.len());
        assert(paths[k] == spec_forest_record_paths(front)[k - last_paths.len()]);
    }
}

/// The listed paths of a forest are pairwise distinct.
pub proof fn lemma_forest_paths_distinct(cs: Seq<DocumentNode>)
    ensures
        spec_forest_record_paths(cs).no_duplicates(),
    decreases cs,
{
    if cs.len() == 0 {
    } else {
        let last = cs[cs.len() - 1];
        let front = cs.subrange(0, cs.len() - 1);
        lemma_node_paths_distinct(last);
        lemma_forest_paths_distinct(front);
        let last_paths = spec_node_record_paths(last).map_values(
            |p: Seq<int>| seq![(cs.len() - 1) as int] + p,
        );
        let last_count = last_paths.len() as int;
        let paths = spec_forest_record_paths(cs);
        assert forall|a: int, b: int|
            0 <= a < paths.len() && 0 <= b < paths.len() && a != b implies paths[a]
            != paths[b] by {
            if a < last_count && b < last_count {
                // Prepending the same head keeps distinct tails distinct.
                let qa = spec_node_record_paths(last)[a];
                let qb = spec_node_record_paths(last)[b];
                assert(qa != qb);
                assert(paths[a] == seq![(cs.len() - 1) as int] + qa);
                assert(paths[b] == seq![(cs.len() - 1) as int] + qb);
                assert((seq![(cs.len() - 1) as int] + qa).subrange(
                    1,
                    (seq![(cs.len() - 1) as int] + qa).len() as int,
                ) =~= qa);
                assert((seq![(cs.len() - 1) as int] + qb).subrange(
                    1,
                    (seq![(cs.len() - 1) as int] + qb).len() as int,
                ) =~= qb);
            } else if a >= last_count && b >= last_count {
                assert(spec_forest_record_paths(front)[a - last_count]
                    != spec_forest_record_paths(front)[b - last_count]);
            } else {
                // One path heads into the last tree, the other into an
                // earlier one.
                let inner = if a < last_count {
                    b
                } else {
                    a
                };
                let outer = if a < last_count {
                    a
                } else {
                    b
                };
                assert(paths[outer][0] == cs.len() - 1) by {
                    let q = spec_node_record_paths(last)[outer];
                    assert(paths[outer] == seq![(cs.len() - 1) as int] + q);
                }
                lemma_forest_heads(front, inner - last_count);
                assert(paths[inner][0] < cs.len() - 1);
            }
        }
    }
}

/// Splitting a forest splits its size.
pub proof fn lemma_forest_size_concat(a: Seq<DocumentNode>, b: Seq<DocumentNode>)
    ensures
        spec_forest_size(a + b) == spec_forest_size(a) + spec_forest_size(b),
    decreases b.len(),
{
    if b.len() == 0 {
        assert(a + b =~= a);
    } else {
        let b0 = b.subrange(0, b.len() - 1);
        assert((a + b).subrange(0, (a + b).len() - 1) =~= a + b0);
        assert((a + b)[(a + b).len() - 1] == b[b.len() - 1]);
        lemma_forest_size_concat(a, b0);
    }
}

/// An element is in a concatenation exactly when it is in one of the parts.
pub proof fn lemma_concat_contains<A>(a: Seq<A>, b: Seq<A>, x: A)
    ensures
        (a + b).contains(x) <==> a.contains(x) || b.contains(x),
{
    if a.contains(x) {
        let i = choose|i: int| 0 <= i < a.len() && a[i] == x;
        assert((a + b)[i] == x);
    }
    if b.contains(x) {
        let j = choose|j: int| 0 <= j < b.len() && b[j] == x;
        assert((a + b)[a.len() + j] == x);
    }
    if (a + b).contains(x) {
        let k = choose|k: int| 0 <= k < (a + b).len() && (a + b)[k] == x;
        if k < a.len() {
            assert(a[k] == x);
        } else {
            assert(b[k - a.len()] == x);
        }
    }
}

/// Every record of a tree comes from an emitting node of that tree.
pub proof fn lemma_node_records_sound(root: DocumentNode)
    ensures
        forall|r: (Seq<char>, Seq<char>)|
            spec_node_records(root).contains(r) ==> exists|m: DocumentNode|
                spec_tree_contains(root, m) && spec_node_emits(m) && spec_node_record(m) == r,
    decreases root,
{
    let own: Seq<(Seq<char>, Seq<char>)> = if spec_node_emits(root) {
        seq![spec_node_record(root)]
    } else {
        Seq::empty()
    };
    let rest = spec_forest_records_rev(spec_children(root));
    assert(spec_node_records(root) == own + rest);
    match root.children {
        Some(cs) => {
            lemma_forest_records_sound(cs@);
            assert(spec_children(root) == cs@);
        },
        None => {
            assert(spec_children(root) =~= Seq::<DocumentNode>::empty());
            assert(forall|r: (Seq<char>, Seq<char>)| !rest.contains(r));
        },
    }
    assert forall|r: (Seq<char>, Seq<char>)| spec_node_records(root).contains(r) implies exists|
        m: DocumentNode,
    | spec_tree_contains(root, m) && spec_node_emits(m) && spec_node_record(m) == r by {
        lemma_concat_contains(own, rest, r);
        if own.contains(r) {
            assert(spec_tree_contains(root, root));
            assert(spec_node_record(root) == r);
        } else {
            let (i, m) = choose|i: int, m: DocumentNode|
                0 <= i < spec_children(root).len() && spec_tree_contains(
                    spec_children(root)[i],
                    m,
                ) && spec_node_emits(m) && spec_node_record(m) == r;
            assert(spec_tree_contains(root, m));
        }
    }
}

/// Every record of a forest comes from an emitting node of one of its trees.
pub proof fn lemma_forest_records_sound(cs: Seq<DocumentNode>)
    ensures
        forall|r: (Seq<char>, Seq<char>)|
            spec_forest_records_rev(cs).contains(r) ==> exists|i: int, m: DocumentNode|
                0 <= i < cs.len() && spec_tree_contains(cs[i], m) && spec_node_emits(m)
                    && spec_node_record(m) == r,
    decreases cs,
{
    if cs.len() == 0 {
    } else {
        let front = cs.subrange(0, cs.len() - 1);
        let last_records = spec_node_records(cs[cs.len() - 1]);
        lemma_node_records_sound(cs[cs.len() - 1]);
        lemma_forest_records_sound(front);
        assert forall|r: (Seq<char>, Seq<char>)|
            spec_forest_records_rev(cs).contains(r) implies exists|i: int, m: DocumentNode|
            0 <= i < cs.len() && spec_tree_contains(cs[i], m) && spec_node_emits(m)
                && spec_node_record(m) == r by {
            lemma_concat_contains(last_records, spec_forest_records_rev(front), r);
            if last_records.contains(r) {
                let m = choose|m: DocumentNode|
                    spec_tree_contains(cs[cs.len() - 1], m) && spec_node_emits(m)
                        && spec_node_record(m) == r;
                assert(0 <= cs.len() - 1 < cs.len() && spec_tree_contains(cs[cs.len() - 1], m)
                    && spec_node_emits(m) && spec_node_record(m) == r);
            } else {
                let (i, m) = choose|i: int, m: DocumentNode|
                    0 <= i < front.len() && spec_tree_contains(front[i], m) && spec_node_emits(m)
                        && spec_node_record(m) == r;
                assert(cs[i] == front[i]);
            }
        }
    }
}

/// Every emitting node of a tree has its record among the tree's records.
pub proof fn lemma_node_records_complete(root: DocumentNode)
    ensures
        forall|m: DocumentNode|
            spec_tree_contains(root, m) && spec_node_emits(m) ==> spec_node_records(
                root,
            ).contains(spec_node_record(m)),
    decreases root,
{
    let own: Seq<(Seq<char>, Seq<char>)> = if spec_node_emits(root) {
        seq![spec_node_record(root)]
    } else {
        Seq::empty()
    };
    let rest = spec_forest_records_rev(spec_children(root));
    assert(spec_node_records(root) == own + rest);
    match root.children {
        Some(cs) => {
            lemma_forest_records_complete(cs@);
            assert(spec_children(root) == cs@);
        },
        None => {
            assert(spec_children(root) =~= Seq::<DocumentNode>::empty());
        },
    }
    assert forall|m: DocumentNode|
        spec_tree_contains(root, m) && spec_node_emits(m) implies spec_node_records(
        root,
    ).contains(spec_node_record(m)) by {
        lemma_concat_contains(own, rest, spec_node_record(m));
        if root == m {
            assert(own[0] == spec_node_record(m));
            assert(own.contains(spec_node_record(m)));
        } else {
            let i = choose|i: int|
                0 <= i < spec_children(root).len() && spec_tree_contains(
                    spec_children(root)[i],
                    m,
                );
            assert(rest.contains(spec_node_record(m)));
        }
    }
}

/// Every emitting node of a forest has its record among the forest's records.
pub proof fn lemma_forest_records_complete(cs: Seq<DocumentNode>)
    ensures
        forall|i: int, m: DocumentNode|
            0 <= i < cs.len() && spec_tree_contains(cs[i], m) && spec_node_emits(m)
                ==> spec_forest_records_rev(cs).contains(spec_node_record(m)),
    decreases cs,
{
    if cs.len() == 0 {
    } else {
        let front = cs.subrange(0, cs.len() - 1);
        let last_records = spec_node_records(cs[cs.len() - 1]);
        lemma_node_records_complete(cs[cs.len() - 1]);
        lemma_forest_records_complete(front);
        assert forall|i: int, m: DocumentNode|
            0 <= i < cs.len() && spec_tree_contains(cs[i], m) && spec_node_emits(
                m,
            ) implies spec_forest_records_rev(cs).contains(spec_node_record(m)) by {
            lemma_concat_contains(last_records, spec_forest_records_rev(front), spec_node_record(m));
            if i == cs.len() - 1 {
                assert(last_records.contains(spec_node_record(m)));
            } else {
                assert(front[i] == cs[i]);
                assert(spec_forest_records_rev(front).contains(spec_node_record(m)));
            }
        }
    }
}

/// Splitting a forest splits its records: the trees pushed later come out
/// first.
pub proof fn lemma_forest_records_rev_concat(a: Seq<DocumentNode>, b: Seq<DocumentNode>)
    ensures
        spec_forest_records_rev(a + b) == spec_forest_records_rev(b) + spec_forest_records_rev(a),
    decreases b.len(),
{
    if b.len() == 0 {
        assert(a + b =~= a);
        assert(spec_forest_records_rev(b) + spec_forest_records_rev(a) =~= spec_forest_records_rev(
            a,
        ));
    } else {
        let b0 = b.subrange(0, b.len() - 1);
        assert((a + b).subrange(0, (a + b).len() - 1) =~= a + b0);
        assert((a + b)[(a + b).len() - 1] == b[b.len() - 1]);
        lemma_forest_records_rev_concat(a, b0);
        assert(spec_forest_records_rev(a + b) =~= spec_forest_records_rev(b)
            + spec_forest_records_rev(a));
    }
}

} // verus!
