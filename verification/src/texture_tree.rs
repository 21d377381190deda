//! The texture tree: the canonical in-memory index of the asset catalog.
//!
//! Internal nodes are ordered maps from segment to child, kept sorted in
//! lexicographic segment order; leaves carry an opaque texture handle.  An
//! [`Id`](crate::id::Id) addresses at most one node.

use vstd::prelude::*;
use crate::errors::TreeError;
use crate::id::Id;
use crate::order::{lex_lt, str_lex_lt, str_eq, lemma_lex_trichotomy, lemma_lex_trans};

verus! {

/// An opaque texture token handed out by the external rendering
/// collaborator.  The catalog stores and returns it but never inspects it.
#[derive(Debug, Clone, Copy, PartialEq, Eq, Structural, Hash)]
pub struct TextureHandle(pub u64);

/// A node of the texture tree: an ordered branch or a texture leaf.
#[derive(Debug)]
pub enum TextureNode {
    /// Ordered mapping from segment to child, sorted by [`lex_lt`].
    Branch(Vec<(String, TextureNode)>),
    /// A texture of the catalog.
    Leaf(TextureHandle),
}

/// The mathematical shape of a [`TextureNode`]: segments become character
/// sequences, handles become their raw tokens.
pub enum SpecNode {
    Branch(Seq<(Seq<char>, SpecNode)>),
    Leaf(u64),
}

/// The view of a child vector, elementwise.
pub open spec fn children_view(cs: Seq<(String, TextureNode)>) -> Seq<(Seq<char>, SpecNode)>
    decreases cs,
{
    if cs.len() == 0 {
        Seq::empty()
    } else {
        children_view(cs.drop_last()).push((cs.last().0@, cs.last().1.view()))
    }
}

impl View for TextureNode {
    type V = SpecNode;

    open spec fn view(&self) -> SpecNode
        decreases self,
    {
        match *self {
            TextureNode::Branch(ref cs) => SpecNode::Branch(children_view(cs@)),
            TextureNode::Leaf(h) => SpecNode::Leaf(h.0),
        }
    }
}

/// The children view indexes elementwise into the child vector.
pub proof fn lemma_children_view(cs: Seq<(String, TextureNode)>)
    ensures
        children_view(cs).len() == cs.len(),
        forall|i: int|
            0 <= i < cs.len() ==> #[trigger] children_view(cs)[i] == (cs[i].0@, cs[i].1.view()),
    decreases cs.len(),
{
    if cs.len() > 0 {
        lemma_children_view(cs.drop_last());
        assert forall|i: int|
            0 <= i < cs.len() implies #[trigger] children_view(cs)[i] == (cs[i].0@, cs[i].1.view()) by {
            let prior = children_view(cs.drop_last());
            if i < cs.len() - 1 {
                assert(children_view(cs)[i] == prior[i]);
                assert(prior[i] == (cs.drop_last()[i].0@, cs.drop_last()[i].1.view()));
                assert(cs.drop_last()[i] == cs[i]);
            } else {
                assert(children_view(cs)[i] == prior.push((cs.last().0@, cs.last().1.view()))[prior.len() as int]);
                assert(cs.last() == cs[i]);
            }
        }
    }
}

impl SpecNode {
    /// Well-formed: every branch is strictly sorted by segment (hence the
    /// segments are distinct), recursively.
    pub open spec fn wf(self) -> bool
        decreases self,
    {
        match self {
            SpecNode::Leaf(_) => true,
            SpecNode::Branch(cs) => children_sorted(cs) && children_all_wf(cs),
        }
    }

    /// The node reached by walking the given segments, if any.  Walking off a
    /// leaf or through a missing segment yields `None`.
    pub open spec fn lookup(self, path: Seq<Seq<char>>) -> Option<SpecNode>
        decreases path.len(),
    {
        if path.len() == 0 {
            Some(self)
        } else {
            match self {
                SpecNode::Leaf(_) => None,
                SpecNode::Branch(cs) => match find_child(cs, path[0]) {
                    Some(c) => c.lookup(path.drop_first()),
                    None => None,
                },
            }
        }
    }

    /// Inserts a leaf at `path`, creating intermediate branches; `None` marks
    /// a path conflict (a leaf sits at a strict prefix of `path`, or `path`
    /// addresses a branch).
    pub open spec fn insert(self, path: Seq<Seq<char>>, h: u64) -> Option<SpecNode>
        decreases path.len(),
    {
        if path.len() == 0 {
            match self {
                SpecNode::Leaf(_) => Some(SpecNode::Leaf(h)),
                SpecNode::Branch(_) => None,
            }
        } else {
            match self {
                SpecNode::Leaf(_) => None,
                SpecNode::Branch(cs) => match find_child(cs, path[0]) {
                    Some(c) => match c.insert(path.drop_first(), h) {
                        Some(c2) => Some(SpecNode::Branch(upsert_child(cs, path[0], c2))),
                        None => None,
                    },
                    None => Some(
                        SpecNode::Branch(
                            upsert_child(cs, path[0], spec_chain(path.drop_first(), h)),
                        ),
                    ),
                },
            }
        }
    }

    /// The representative leaf of a subtree: the handle reached by always
    /// descending into the first child; `None` on an empty branch.
    pub open spec fn rep_leaf(self) -> Option<u64>
        decreases self,
    {
        match self {
            SpecNode::Leaf(h) => Some(h),
            SpecNode::Branch(cs) => if cs.len() == 0 {
                None
            } else {
                cs[0].1.rep_leaf()
            },
        }
    }
}

/// The segments of a child list are strictly sorted.
pub open spec fn children_sorted(cs: Seq<(Seq<char>, SpecNode)>) -> bool {
    forall|i: int, j: int|
        0 <= i < j < cs.len() ==> lex_lt((#[trigger] cs[i]).0, (#[trigger] cs[j]).0)
}

/// Every child's subtree is well-formed.
pub open spec fn children_all_wf(cs: Seq<(Seq<char>, SpecNode)>) -> bool
    decreases cs,
{
    forall|i: int| 0 <= i < cs.len() ==> (#[trigger] cs[i]).1.wf()
}

/// The child named `seg`, if present.
pub open spec fn find_child(cs: Seq<(Seq<char>, SpecNode)>, seg: Seq<char>) -> Option<SpecNode>
    decreases cs.len(),
{
    if cs.len() == 0 {
        None
    } else if cs[0].0 == seg {
        Some(cs[0].1)
    } else {
        find_child(cs.drop_first(), seg)
    }
}

/// A chain of single-child branches ending in a leaf: the subtree freshly
/// created for the unmatched tail of an inserted path.
pub open spec fn spec_chain(path: Seq<Seq<char>>, h: u64) -> SpecNode
    decreases path.len(),
{
    if path.len() == 0 {
        SpecNode::Leaf(h)
    } else {
        SpecNode::Branch(seq![(path[0], spec_chain(path.drop_first(), h))])
    }
}

impl SpecNode {
    /// The child of a branch named `seg`; `None` on a leaf.
    pub open spec fn child(self, seg: Seq<char>) -> Option<SpecNode> {
        match self {
            SpecNode::Leaf(_) => None,
            SpecNode::Branch(cs) => find_child(cs, seg),
        }
    }
}

/// Skipping children that do not carry the sought segment leaves the result
/// of [`find_child`] unchanged.
pub proof fn lemma_find_child_skip(cs: Seq<(Seq<char>, SpecNode)>, seg: Seq<char>, j: int)
    requires
        0 <= j <= cs.len(),
        forall|k: int| 0 <= k < j ==> (#[trigger] cs[k]).0 != seg,
    ensures
        find_child(cs, seg) == find_child(cs.skip(j), seg),
    decreases j,
{
    if j == 0 {
        assert(cs.skip(0) =~= cs);
    } else {
        assert(cs[0].0 != seg);
        lemma_find_child_skip(cs.drop_first(), seg, j - 1);
        assert(cs.drop_first().skip(j - 1) =~= cs.skip(j));
    }
}

/// Replaces the child named `seg`, or inserts one at its sorted position.
pub open spec fn upsert_child(
    cs: Seq<(Seq<char>, SpecNode)>,
    seg: Seq<char>,
    n: SpecNode,
) -> Seq<(Seq<char>, SpecNode)>
    decreases cs.len(),
{
    if cs.len() == 0 {
        seq![(seg, n)]
    } else if cs[0].0 == seg {
        seq![(seg, n)] + cs.drop_first()
    } else if lex_lt(seg, cs[0].0) {
        seq![(seg, n)] + cs
    } else {
        seq![cs[0]] + upsert_child(cs.drop_first(), seg, n)
    }
}

/// When the sought segment sits at index `j` of a sorted child list, the
/// upsert is an update in place.
pub proof fn lemma_upsert_at(cs: Seq<(Seq<char>, SpecNode)>, seg: Seq<char>, n: SpecNode, j: int)
    requires
        0 <= j < cs.len(),
        cs[j].0 == seg,
        forall|k: int| 0 <= k < j ==> lex_lt((#[trigger] cs[k]).0, seg),
    ensures
        upsert_child(cs, seg, n) == cs.update(j, (seg, n)),
    decreases j,
{
    if j == 0 {
        assert(upsert_child(cs, seg, n) =~= cs.update(0, (seg, n)));
    } else {
        assert(lex_lt(cs[0].0, seg));
        lemma_lex_trichotomy(cs[0].0, seg);
        lemma_upsert_at(cs.drop_first(), seg, n, j - 1);
        assert(cs.drop_first()[j - 1] == cs[j]);
        assert(upsert_child(cs, seg, n) =~= cs.update(j, (seg, n))) by {
            assert(upsert_child(cs, seg, n) == seq![cs[0]] + cs.drop_first().update(j - 1, (seg, n)));
        }
    }
}

/// When the sought segment is absent and belongs at index `j`, the upsert is
/// an insertion at `j`.
pub proof fn lemma_upsert_insert(
    cs: Seq<(Seq<char>, SpecNode)>,
    seg: Seq<char>,
    n: SpecNode,
    j: int,
)
    requires
        0 <= j <= cs.len(),
        forall|k: int| 0 <= k < j ==> lex_lt((#[trigger] cs[k]).0, seg),
        j < cs.len() ==> lex_lt(seg, cs[j].0),
    ensures
        upsert_child(cs, seg, n) == cs.insert(j, (seg, n)),
    decreases j,
{
    if cs.len() == 0 {
        assert(upsert_child(cs, seg, n) =~= cs.insert(0, (seg, n)));
    } else if j == 0 {
        lemma_lex_trichotomy(cs[0].0, seg);
        assert(upsert_child(cs, seg, n) =~= cs.insert(0, (seg, n)));
    } else {
        assert(lex_lt(cs[0].0, seg));
        lemma_lex_trichotomy(cs[0].0, seg);
        lemma_upsert_insert(cs.drop_first(), seg, n, j - 1);
        assert(cs.drop_first().insert(j - 1, (seg, n)) =~= cs.insert(j, (seg, n)).drop_first());
        assert(upsert_child(cs, seg, n) =~= cs.insert(j, (seg, n))) by {
            assert(upsert_child(cs, seg, n) == seq![cs[0]] + cs.drop_first().insert(j - 1, (seg, n)));
        }
    }
}

/// What well-formedness of a branch gives for its child list: strictly
/// sorted segments and well-formed subtrees.
pub proof fn lemma_wf_branch(cs: Seq<(Seq<char>, SpecNode)>)
    requires
        SpecNode::Branch(cs).wf(),
    ensures
        forall|i: int, j: int|
            0 <= i < j < cs.len() ==> lex_lt((#[trigger] cs[i]).0, (#[trigger] cs[j]).0),
        forall|i: int| 0 <= i < cs.len() ==> (#[trigger] cs[i]).1.wf(),
{
    assert(children_sorted(cs));
    assert(children_all_wf(cs));
}

/// After an upsert, the upserted segment maps to the new child.
pub proof fn lemma_upsert_find_same(cs: Seq<(Seq<char>, SpecNode)>, seg: Seq<char>, n: SpecNode)
    ensures
        find_child(upsert_child(cs, seg, n), seg) == Some(n),
    decreases cs.len(),
{
    let up = upsert_child(cs, seg, n);
    if cs.len() == 0 {
        assert(up[0] == (seg, n));
    } else if cs[0].0 == seg {
        assert(up[0] == (seg, n));
    } else if lex_lt(seg, cs[0].0) {
        assert(up[0] == (seg, n));
    } else {
        lemma_upsert_find_same(cs.drop_first(), seg, n);
        assert(up[0] == cs[0]);
        assert(up.drop_first() =~= upsert_child(cs.drop_first(), seg, n));
    }
}

/// An upsert leaves every other segment's child unchanged.
pub proof fn lemma_upsert_find_other(
    cs: Seq<(Seq<char>, SpecNode)>,
    seg: Seq<char>,
    n: SpecNode,
    t: Seq<char>,
)
    requires
        t != seg,
    ensures
        find_child(upsert_child(cs, seg, n), t) == find_child(cs, t),
    decreases cs.len(),
{
    let up = upsert_child(cs, seg, n);
    if cs.len() == 0 {
        assert(up[0] == (seg, n));
        assert(up.drop_first() =~= cs);
    } else if cs[0].0 == seg {
        assert(up[0] == (seg, n));
        assert(up.drop_first() =~= cs.drop_first());
    } else if lex_lt(seg, cs[0].0) {
        assert(up[0] == (seg, n));
        assert(up.drop_first() =~= cs);
    } else {
        lemma_upsert_find_other(cs.drop_first(), seg, n, t);
        assert(up[0] == cs[0]);
        assert(up.drop_first() =~= upsert_child(cs.drop_first(), seg, n));
    }
}

/// A fresh chain holds its leaf at the path it was built for.
pub proof fn lemma_chain_lookup(path: Seq<Seq<char>>, h: u64)
    ensures
        spec_chain(path, h).lookup(path) == Some(SpecNode::Leaf(h)),
    decreases path.len(),
{
    if path.len() > 0 {
        lemma_chain_lookup(path.drop_first(), h);
        let cs = seq![(path[0], spec_chain(path.drop_first(), h))];
        assert(find_child(cs, path[0]) == Some(cs[0].1));
    }
}

/// A successful insertion makes the inserted path resolve to the new leaf.
pub proof fn lemma_insert_gives_leaf(n: SpecNode, path: Seq<Seq<char>>, h: u64)
    requires
        n.insert(path, h) is Some,
    ensures
        n.insert(path, h).unwrap().lookup(path) == Some(SpecNode::Leaf(h)),
    decreases path.len(),
{
    let m = n.insert(path, h).unwrap();
    if path.len() == 0 {
    } else {
        match n {
            SpecNode::Leaf(_) => {},
            SpecNode::Branch(cs) => {
                let tail = path.drop_first();
                match find_child(cs, path[0]) {
                    Some(c) => {
                        let c2 = c.insert(tail, h).unwrap();
                        lemma_upsert_find_same(cs, path[0], c2);
                        lemma_insert_gives_leaf(c, tail, h);
                    },
                    None => {
                        lemma_upsert_find_same(cs, path[0], spec_chain(tail, h));
                        lemma_chain_lookup(tail, h);
                    },
                }
            },
        }
    }
}

/// A successful insertion leaves every previously recorded leaf in place.
pub proof fn lemma_insert_preserves(n: SpecNode, path: Seq<Seq<char>>, h: u64, q: Seq<Seq<char>>)
    requires
        n.insert(path, h) is Some,
        n.lookup(q) is Some,
        n.lookup(q).unwrap() is Leaf,
        q != path,
    ensures
        n.insert(path, h).unwrap().lookup(q) == n.lookup(q),
    decreases path.len(),
{
    let m = n.insert(path, h).unwrap();
    if q.len() == 0 {
        // The tree itself is the recorded leaf: an empty insertion path
        // would coincide with q, and a longer one conflicts with the leaf.
        assert(n is Leaf);
        if path.len() == 0 {
            assert(q =~= path);
        }
        assert(false);
    } else {
        match n {
            SpecNode::Leaf(_) => {
                assert(false);
            },
            SpecNode::Branch(cs) => {
                assert(path.len() > 0);
                let cq = find_child(cs, q[0]).unwrap();
                let tail = path.drop_first();
                let qtail = q.drop_first();
                if q[0] != path[0] {
                    match find_child(cs, path[0]) {
                        Some(c) => {
                            let c2 = c.insert(tail, h).unwrap();
                            lemma_upsert_find_other(cs, path[0], c2, q[0]);
                        },
                        None => {
                            lemma_upsert_find_other(cs, path[0], spec_chain(tail, h), q[0]);
                        },
                    }
                } else {
                    assert(find_child(cs, path[0]) == Some(cq));
                    let c2 = cq.insert(tail, h).unwrap();
                    lemma_upsert_find_same(cs, path[0], c2);
                    assert(qtail != tail) by {
                        if qtail == tail {
                            assert forall|k: int| 0 <= k < q.len() implies q[k] == path[k] by {
                                if k > 0 {
                                    assert(q[k] == qtail[k - 1]);
                                    assert(path[k] == tail[k - 1]);
                                }
                            }
                            assert(q =~= path);
                        }
                    }
                    lemma_insert_preserves(cq, tail, h, qtail);
                }
            },
        }
    }
}

/// Wherever a lookup succeeds, every strict prefix of its path resolves to a
/// branch.
pub proof fn lemma_lookup_prefix(n: SpecNode, q: Seq<Seq<char>>, j: int)
    requires
        0 <= j < q.len(),
        n.lookup(q) is Some,
    ensures
        n.lookup(q.take(j)) is Some,
        n.lookup(q.take(j)).unwrap() is Branch,
    decreases j,
{
    match n {
        SpecNode::Leaf(_) => {
            assert(false);
        },
        SpecNode::Branch(cs) => {
            if j == 0 {
                assert(q.take(0) =~= Seq::<Seq<char>>::empty());
            } else {
                let c = find_child(cs, q[0]).unwrap();
                assert(q.take(j)[0] == q[0]);
                assert(q.take(j).drop_first() =~= q.drop_first().take(j - 1));
                lemma_lookup_prefix(c, q.drop_first(), j - 1);
            }
        },
    }
}

/// Whether the node addressed by `p` exists and is a branch.
pub open spec fn lookup_is_branch(n: SpecNode, p: Seq<Seq<char>>) -> bool {
    match n.lookup(p) {
        Some(b) => b is Branch,
        None => false,
    }
}

/// Pairwise distinct identifiers, as the loader's texture map guarantees.
pub open spec fn distinct_ids(ps: Seq<(Id, TextureHandle)>) -> bool {
    forall|a: int, b: int|
        0 <= a < b < ps.len() ==> (#[trigger] ps[a]).0@ != (#[trigger] ps[b]).0@
}

/// The tree obtained by inserting each pair in turn into `n`, or `None` as
/// soon as one insertion conflicts.
pub open spec fn spec_build_from(n: SpecNode, ps: Seq<(Id, TextureHandle)>) -> Option<SpecNode>
    decreases ps.len(),
{
    if ps.len() == 0 {
        Some(n)
    } else {
        match n.insert(ps[0].0@, ps[0].1.0) {
            Some(m) => spec_build_from(m, ps.drop_first()),
            None => None,
        }
    }
}

/// The tree built from the loader's pairs, starting from an empty root.
pub open spec fn spec_build(ps: Seq<(Id, TextureHandle)>) -> Option<SpecNode> {
    spec_build_from(SpecNode::Branch(Seq::empty()), ps)
}

/// A found child sits at some position of the list.
pub proof fn lemma_find_child_index(cs: Seq<(Seq<char>, SpecNode)>, seg: Seq<char>)
    requires
        find_child(cs, seg) is Some,
    ensures
        exists|i: int|
            0 <= i < cs.len() && (#[trigger] cs[i]).0 == seg && cs[i].1
                == find_child(cs, seg).unwrap(),
    decreases cs.len(),
{
    if cs.len() > 0 {
        if cs[0].0 == seg {
            assert(cs[0].0 == seg && cs[0].1 == find_child(cs, seg).unwrap());
        } else {
            lemma_find_child_index(cs.drop_first(), seg);
            let i = choose|i: int|
                0 <= i < cs.drop_first().len() && (#[trigger] cs.drop_first()[i]).0 == seg
                    && cs.drop_first()[i].1 == find_child(
                    cs.drop_first(),
                    seg,
                ).unwrap();
            assert(cs.drop_first()[i] == cs[i + 1]);
        }
    }
}

/// A lookup that succeeds yields a well-formed subtree.
pub proof fn lemma_lookup_wf(n: SpecNode, p: Seq<Seq<char>>)
    requires
        n.wf(),
        n.lookup(p) is Some,
    ensures
        n.lookup(p).unwrap().wf(),
    decreases p.len(),
{
    if p.len() > 0 {
        match n {
            SpecNode::Leaf(_) => {},
            SpecNode::Branch(cs) => {
                let c = find_child(cs, p[0]).unwrap();
                lemma_wf_branch(cs);
                lemma_find_child_index(cs, p[0]);
                let i = choose|i: int|
                    0 <= i < cs.len() && (#[trigger] cs[i]).0 == p[0] && cs[i].1 == c;
                assert(cs[i].1.wf());
                lemma_lookup_wf(c, p.drop_first());
            },
        }
    }
}

/// Freshly created chains are well-formed.
pub proof fn lemma_chain_wf(path: Seq<Seq<char>>, h: u64)
    ensures
        spec_chain(path, h).wf(),
    decreases path.len(),
{
    if path.len() > 0 {
        lemma_chain_wf(path.drop_first(), h);
        let cs = seq![(path[0], spec_chain(path.drop_first(), h))];
        assert(cs[0].1.wf());
    }
}

/// The first position whose segment is not below `seg` in sorted order.
fn child_lower_bound(cs: &Vec<(String, TextureNode)>, seg: &String) -> (j: usize)
    ensures
        j <= cs@.len(),
        forall|k: int| 0 <= k < j ==> lex_lt((#[trigger] cs@[k]).0@, seg@),
        j < cs@.len() ==> !lex_lt(cs@[j as int].0@, seg@),
{
    let m = cs.len();
    let mut j: usize = 0;
    while j < m
        invariant
            j <= m,
            m == cs@.len(),
            forall|k: int| 0 <= k < j ==> lex_lt((#[trigger] cs@[k]).0@, seg@),
        decreases m - j,
    {
        if !str_lex_lt(cs[j].0.as_str(), seg.as_str()) {
            return j;
        }
        j += 1;
    }
    j
}

impl TextureNode {
    /// The chain of single-child branches holding the tail `id[depth..]` of
    /// a freshly inserted path.
    fn chain(id: &Id, depth: usize, handle: TextureHandle) -> (r: TextureNode)
        requires
            depth <= id@.len(),
        ensures
            r@ == spec_chain(id@.skip(depth as int), handle.0),
        decreases id@.len() - depth,
    {
        let n = id.len();
        if depth == n {
            assert(id@.skip(depth as int) =~= Seq::<Seq<char>>::empty());
            TextureNode::Leaf(handle)
        } else {
            assert(id@.len() == id.0@.len());
            let tail = TextureNode::chain(id, depth + 1, handle);
            let ghost tailv = tail@;
            let seg: String = id.0[depth].clone();
            let ghost segv = seg@;
            let mut cs: Vec<(String, TextureNode)> = Vec::new();
            cs.push((seg, tail));
            let ghost csv = cs@;
            let r = TextureNode::Branch(cs);
            proof {
                let path = id@.skip(depth as int);
                lemma_children_view(csv);
                assert(children_view(csv) =~= seq![(segv, tailv)]);
                assert(segv == id.0@[depth as int]@);
                assert(path[0] == id@[depth as int]);
                assert(path.drop_first() =~= id@.skip(depth + 1));
                assert(seq![(segv, tailv)] =~= seq![(path[0], spec_chain(path.drop_first(), handle.0))]);
            }
            r
        }
    }

    /// Inserts `handle` at the path `id[depth..]` below this node, keeping
    /// the branch order; a conflict leaves the tree unchanged.
    fn insert_from(&mut self, id: &Id, depth: usize, handle: TextureHandle) -> (r: Result<
        (),
        TreeError,
    >)
        requires
            depth <= id@.len(),
            old(self)@.wf(),
        ensures
            match r {
                Ok(_) => old(self)@.insert(id@.skip(depth as int), handle.0) == Some(final(self)@)
                    && final(self)@.wf(),
                Err(_) => final(self)@ == old(self)@ && old(self)@.insert(
                    id@.skip(depth as int),
                    handle.0,
                ) is None,
            },
        decreases id@.len() - depth,
    {
        let n = id.len();
        let ghost path = id@.skip(depth as int);
        if depth == n {
            assert(path =~= Seq::<Seq<char>>::empty());
            match self {
                TextureNode::Leaf(_) => {
                    *self = TextureNode::Leaf(handle);
                    Ok(())
                },
                TextureNode::Branch(_) => Err(TreeError::PathConflict),
            }
        } else {
            assert(id@.len() == id.0@.len());
            assert(path[0] == id@[depth as int]);
            match self {
                TextureNode::Leaf(_) => Err(TreeError::PathConflict),
                TextureNode::Branch(cs) => {
                    proof {
                        lemma_children_view(cs@);
                    }
                    let ghost cv = children_view(cs@);
                    let ghost old_cs = cs@;
                    proof {
                        assert(old(self)@ == SpecNode::Branch(cv));
                        assert(SpecNode::Branch(cv).wf());
                    }
                    let j = child_lower_bound(cs, &id.0[depth]);
                    let m = cs.len();
                    let found = j < m && str_eq(cs[j].0.as_str(), id.0[depth].as_str());
                    proof {
                        assert forall|k: int| 0 <= k < j implies (#[trigger] cv[k]).0
                            != path[0] by {
                            assert(cv[k].0 == old_cs[k].0@);
                            lemma_lex_trichotomy(cv[k].0, path[0]);
                        }
                        lemma_find_child_skip(cv, path[0], j as int);
                    }
                    if found {
                        proof {
                            assert(cv.skip(j as int)[0] == cv[j as int]);
                            assert(cv[j as int].0 == path[0]);
                            assert(find_child(cv, path[0]) == Some(cv[j as int].1));
                        }
                        let ghost old_child = cs@[j as int].1;
                        let res = cs[j].1.insert_from(id, depth + 1, handle);
                        proof {
                            let new_cs = cs@;
                            let new_child = new_cs[j as int].1;
                            assert(new_cs =~= old_cs.update(j as int, (old_cs[j as int].0, new_child)));
                            lemma_children_view(new_cs);
                            assert(path.drop_first() =~= id@.skip(depth + 1));
                            match res {
                                Ok(_) => {
                                    assert(old_child@.insert(path.drop_first(), handle.0)
                                        == Some(new_child@));
                                    let cv2 = cv.update(j as int, (path[0], new_child@));
                                    assert(children_view(new_cs) =~= cv2);
                                    lemma_upsert_at(cv, path[0], new_child@, j as int);
                                    assert(old(self)@.insert(path, handle.0)
                                        == Some(SpecNode::Branch(cv2)));
                                    assert(final(self)@ == SpecNode::Branch(cv2));
                                    assert forall|k: int| 0 <= k < cv2.len() implies (
                                    #[trigger] cv2[k]).0 == cv[k].0 by {}
                                    assert(SpecNode::Branch(cv2).wf());
                                },
                                Err(_) => {
                                    assert(old_child@.insert(path.drop_first(), handle.0) is None);
                                    assert(new_child@ == old_child@);
                                    assert forall|k: int| 0 <= k < new_cs.len() implies #[trigger] children_view(new_cs)[k] == cv[k] by {
                                        assert(children_view(new_cs)[k] == (new_cs[k].0@, new_cs[k].1@));
                                        assert(cv[k] == (old_cs[k].0@, old_cs[k].1@));
                                    }
                                    assert(children_view(new_cs) =~= cv);
                                    assert(final(self)@ == old(self)@);
                                    assert(old(self)@.insert(path, handle.0) is None);
                                },
                            }
                        }
                        res
                    } else {
                        proof {
                            // The segment is nowhere among the children.
                            assert forall|k: int| 0 <= k < cv.len() implies (#[trigger] cv[k]).0
                                != path[0] by {
                                if k >= j {
                                    assert(j < m);
                                    assert(!lex_lt(old_cs[j as int].0@, path[0]));
                                    assert(cv[j as int].0 == old_cs[j as int].0@);
                                    assert(old_cs[j as int].0@ != path[0]);
                                    lemma_lex_trichotomy(cv[j as int].0, path[0]);
                                    assert(lex_lt(path[0], cv[j as int].0));
                                    if k > j {
                                        assert(lex_lt(cv[j as int].0, cv[k].0));
                                        lemma_lex_trans(path[0], cv[j as int].0, cv[k].0);
                                    }
                                    lemma_lex_trichotomy(cv[k].0, path[0]);
                                }
                            }
                            lemma_find_child_skip(cv, path[0], cv.len() as int);
                            assert(cv.skip(cv.len() as int) =~= Seq::<(Seq<char>, SpecNode)>::empty());
                            assert(find_child(cv, path[0]) is None);
                        }
                        let node = TextureNode::chain(id, depth + 1, handle);
                        let ghost nodev = node@;
                        let seg: String = id.0[depth].clone();
                        cs.insert(j, (seg, node));
                        proof {
                            let new_cs = cs@;
                            let pair = (path[0], nodev);
                            old_cs.insert_ensures(j as int, new_cs[j as int]);
                            cv.insert_ensures(j as int, pair);
                            lemma_children_view(new_cs);
                            assert(new_cs[j as int].0@ == path[0]);
                            assert(new_cs[j as int].1@ == nodev);
                            assert(children_view(new_cs) =~= cv.insert(j as int, pair));
                            assert(path.drop_first() =~= id@.skip(depth + 1));
                            assert(nodev == spec_chain(path.drop_first(), handle.0));
                            if j < m {
                                assert(cv[j as int].0 == old_cs[j as int].0@);
                                lemma_lex_trichotomy(cv[j as int].0, path[0]);
                            }
                            lemma_upsert_insert(cv, path[0], nodev, j as int);
                            assert(old(self)@.insert(path, handle.0) == Some(
                                SpecNode::Branch(cv.insert(j as int, pair)),
                            ));
                            assert(final(self)@ == SpecNode::Branch(cv.insert(j as int, pair)));
                            // Well-formedness of the widened branch.
                            let cv2 = cv.insert(j as int, pair);
                            assert forall|a: int, b: int| 0 <= a < b < cv2.len() implies lex_lt(
                                (#[trigger] cv2[a]).0,
                                (#[trigger] cv2[b]).0,
                            ) by {
                                if a < j && b < j {
                                    assert(cv2[a] == cv[a] && cv2[b] == cv[b]);
                                } else if a < j && b == j {
                                    assert(cv2[a] == cv[a]);
                                } else if a == j && b > j {
                                    assert(cv2[b] == cv[b - 1]);
                                    assert(b - 1 >= j && j < cv.len());
                                    assert(cv[j as int].0 == old_cs[j as int].0@);
                                    assert(!lex_lt(cv[j as int].0, path[0]));
                                    assert(old_cs[j as int].0@ != path[0]);
                                    lemma_lex_trichotomy(cv[j as int].0, path[0]);
                                    assert(lex_lt(path[0], cv[j as int].0));
                                    if b - 1 > j {
                                        assert(lex_lt(cv[j as int].0, cv[b - 1].0));
                                        lemma_lex_trans(path[0], cv[j as int].0, cv[b - 1].0);
                                    }
                                    assert(lex_lt(path[0], cv[b - 1].0));
                                } else if a < j && b > j {
                                    assert(cv2[a] == cv[a] && cv2[b] == cv[b - 1]);
                                    assert(lex_lt(cv[a].0, cv[b - 1].0));
                                } else {
                                    assert(a > j || (a == j && b == j));
                                    assert(cv2[a] == cv[a - 1] && cv2[b] == cv[b - 1]);
                                    assert(lex_lt(cv[a - 1].0, cv[b - 1].0));
                                }
                            }
                            lemma_chain_wf(path.drop_first(), handle.0);
                            assert forall|k: int| 0 <= k < cv2.len() implies (
                            #[trigger] cv2[k].1).wf() by {
                                if k < j {
                                    assert(cv2[k] == cv[k]);
                                } else if k == j {
                                    assert(cv2[k].1 == nodev);
                                } else {
                                    assert(cv2[k] == cv[k - 1]);
                                }
                            }
                            assert(SpecNode::Branch(cv2).wf());
                        }
                        Ok(())
                    }
                },
            }
        }
    }

    /// Inserts `handle` as the leaf at `id`, creating intermediate branches.
    /// Fails with [`TreeError::PathConflict`] when a leaf sits at a strict
    /// prefix of `id` or `id` addresses an existing branch; the tree is then
    /// unchanged.
    pub fn insert(&mut self, id: &Id, handle: TextureHandle) -> (r: Result<(), TreeError>)
        requires
            old(self)@.wf(),
        ensures
            match r {
                Ok(_) => old(self)@.insert(id@, handle.0) == Some(final(self)@)
                    && final(self)@.wf(),
                Err(_) => final(self)@ == old(self)@ && old(self)@.insert(id@, handle.0) is None,
            },
    {
        proof {
            assert(id@.skip(0) =~= id@);
        }
        self.insert_from(id, 0, handle)
    }

    /// Builds the catalog tree by inserting every `(identifier, handle)`
    /// pair in turn into an empty root.  On success every inserted
    /// identifier resolves to a leaf with its handle, and every strict
    /// prefix of an inserted identifier resolves to a branch.
    pub fn new(pairs: &Vec<(Id, TextureHandle)>) -> (r: Result<TextureNode, TreeError>)
        requires
            distinct_ids(pairs@),
        ensures
            match r {
                Ok(t) => {
                    &&& spec_build(pairs@) == Some(t@)
                    &&& t@.wf()
                    &&& t@ is Branch
                    &&& forall|k: int|
                        0 <= k < pairs@.len() ==> t@.lookup((#[trigger] pairs@[k]).0@) == Some(
                            SpecNode::Leaf(pairs@[k].1.0),
                        )
                    &&& forall|k: int, j: int|
                        0 <= k < pairs@.len() && 0 <= j < pairs@[k].0@.len()
                            ==> lookup_is_branch(t@, #[trigger] pairs@[k].0@.take(j))
                },
                Err(_) => spec_build(pairs@) is None,
            },
    {
        let mut t = TextureNode::empty();
        proof {
            assert(t@.wf());
            assert(pairs@.skip(0) =~= pairs@);
        }
        let n = pairs.len();
        let mut i: usize = 0;
        while i < n
            invariant
                i <= n,
                n == pairs@.len(),
                distinct_ids(pairs@),
                t@.wf(),
                t@ is Branch,
                spec_build(pairs@) == spec_build_from(t@, pairs@.skip(i as int)),
                forall|k: int|
                    0 <= k < i ==> t@.lookup((#[trigger] pairs@[k]).0@) == Some(
                        SpecNode::Leaf(pairs@[k].1.0),
                    ),
            decreases n - i,
        {
            let ghost old_t = t@;
            let ghost rest = pairs@.skip(i as int);
            proof {
                assert(rest[0] == pairs@[i as int]);
                assert(rest.drop_first() =~= pairs@.skip(i + 1));
            }
            let res = t.insert(&pairs[i].0, pairs[i].1);
            match res {
                Err(e) => {
                    proof {
                        assert(spec_build_from(old_t, rest) is None);
                    }
                    return Err(e);
                },
                Ok(_) => {
                    proof {
                        let path = pairs@[i as int].0@;
                        let h = pairs@[i as int].1.0;
                        assert(old_t.insert(path, h) == Some(t@));
                        assert(spec_build_from(old_t, rest) == spec_build_from(
                            t@,
                            pairs@.skip(i + 1),
                        ));
                        lemma_insert_gives_leaf(old_t, path, h);
                        assert forall|k: int| 0 <= k < i + 1 implies t@.lookup(
                            (#[trigger] pairs@[k]).0@,
                        ) == Some(SpecNode::Leaf(pairs@[k].1.0)) by {
                            if k < i {
                                assert(pairs@[k].0@ != path);
                                lemma_insert_preserves(old_t, path, h, pairs@[k].0@);
                            }
                        }
                        // A successful insertion never happens at the root
                        // path, so the result is still a branch.
                        if path.len() == 0 {
                            assert(old_t.insert(path, h) is None);
                        }
                    }
                    i += 1;
                },
            }
        }
        proof {
            assert(pairs@.skip(n as int) =~= Seq::<(Id, TextureHandle)>::empty());
            assert(spec_build(pairs@) == Some(t@));
            assert forall|k: int, j: int|
                0 <= k < pairs@.len() && 0 <= j < pairs@[k].0@.len() implies
                lookup_is_branch(t@, #[trigger] pairs@[k].0@.take(j)) by {
                lemma_lookup_prefix(t@, pairs@[k].0@, j);
            }
        }
        Ok(t)
    }

    /// A fresh, empty branch: the root of a catalog before any insertion.
    pub fn empty() -> (r: TextureNode)
        ensures
            r@ == SpecNode::Branch(Seq::<(Seq<char>, SpecNode)>::empty()),
    {
        let cs: Vec<(String, TextureNode)> = Vec::new();
        let r = TextureNode::Branch(cs);
        proof {
            assert(children_view(Seq::<(String, TextureNode)>::empty()) =~= Seq::<(
                Seq<char>,
                SpecNode,
            )>::empty());
        }
        r
    }

    /// The texture of a leaf node, `None` on a branch.
    pub fn leaf(&self) -> (r: Option<TextureHandle>)
        ensures
            match self@ {
                SpecNode::Leaf(h) => r == Some(TextureHandle(h)),
                SpecNode::Branch(_) => r is None,
            },
    {
        match self {
            TextureNode::Leaf(h) => Some(*h),
            TextureNode::Branch(_) => None,
        }
    }

    /// The ordered children of a branch node, `None` on a leaf.
    pub fn branch(&self) -> (r: Option<&Vec<(String, TextureNode)>>)
        ensures
            match r {
                Some(cs) => self@ == SpecNode::Branch(children_view(cs@)),
                None => self@ is Leaf,
            },
    {
        match self {
            TextureNode::Branch(cs) => Some(cs),
            TextureNode::Leaf(_) => None,
        }
    }

    /// The child named `name` of a branch.
    pub fn get_branch(&self, name: &str) -> (r: Option<&TextureNode>)
        ensures
            match r {
                Some(c) => self@.child(name@) == Some(c@),
                None => self@.child(name@) is None,
            },
    {
        match self {
            TextureNode::Leaf(_) => None,
            TextureNode::Branch(cs) => {
                proof {
                    lemma_children_view(cs@);
                }
                let ghost cv = children_view(cs@);
                let n = cs.len();
                let mut j: usize = 0;
                while j < n
                    invariant
                        j <= n,
                        n == cs@.len(),
                        cv == children_view(cs@),
                        cv.len() == n,
                        self@ == SpecNode::Branch(cv),
                        forall|k: int| 0 <= k < n ==> #[trigger] cv[k] == (cs@[k].0@, cs@[k].1@),
                        forall|k: int| 0 <= k < j ==> (#[trigger] cv[k]).0 != name@,
                    decreases n - j,
                {
                    if str_eq(cs[j].0.as_str(), name) {
                        proof {
                            lemma_find_child_skip(cv, name@, j as int);
                            let sk = cv.skip(j as int);
                            assert(sk[0] == cv[j as int]);
                            assert(cv[j as int].0 == name@);
                            assert(find_child(sk, name@) == Some(cv[j as int].1));
                            assert(self@ == SpecNode::Branch(cv));
                            assert(self@.child(name@) == Some(cv[j as int].1));
                            assert(cv[j as int].1 == cs@[j as int].1@);
                        }
                        return Some(&cs[j].1);
                    }
                    j += 1;
                }
                proof {
                    lemma_find_child_skip(cv, name@, n as int);
                    assert(cv.skip(n as int) =~= Seq::<(Seq<char>, SpecNode)>::empty());
                }
                None
            },
        }
    }

    /// Whether a branch has a child named `name`.
    pub fn contains(&self, name: &str) -> (r: bool)
        ensures
            r == (self@.child(name@) is Some),
    {
        self.get_branch(name).is_some()
    }

    /// The node addressed by `id`, walking from this node.
    pub fn lookup(&self, id: &Id) -> (r: Option<&TextureNode>)
        ensures
            match r {
                Some(c) => self@.lookup(id@) == Some(c@),
                None => self@.lookup(id@) is None,
            },
    {
        proof {
            assert(id@.skip(0) =~= id@);
        }
        self.lookup_from(id, 0)
    }

    /// Walks the segments of `id` from position `depth` on.
    fn lookup_from(&self, id: &Id, depth: usize) -> (r: Option<&TextureNode>)
        requires
            depth <= id@.len(),
        ensures
            match r {
                Some(c) => self@.lookup(id@.skip(depth as int)) == Some(c@),
                None => self@.lookup(id@.skip(depth as int)) is None,
            },
        decreases id@.len() - depth,
    {
        let n = id.len();
        if depth == n {
            assert(id@.skip(depth as int) =~= Seq::<Seq<char>>::empty());
            return Some(self);
        }
        assert(id@.len() == id.0@.len());
        let seg: &str = id.0[depth].as_str();
        proof {
            assert(id@.skip(depth as int)[0] == id@[depth as int]);
            assert(id@[depth as int] == id.0@[depth as int]@);
        }
        match self.get_branch(seg) {
            Some(child) => {
                proof {
                    assert(id@.skip(depth as int).drop_first() =~= id@.skip(depth + 1));
                }
                child.lookup_from(id, depth + 1)
            },
            None => {
                assert(self@.lookup(id@.skip(depth as int)) is None) by {
                    match self@ {
                        SpecNode::Leaf(_) => {},
                        SpecNode::Branch(cs) => {},
                    }
                }
                None
            },
        }
    }

    /// The representative leaf: the handle reached by always descending into
    /// the first child; `None` if an empty branch is reached.
    pub fn representative_leaf(&self) -> (r: Option<TextureHandle>)
        ensures
            match r {
                Some(h) => self@.rep_leaf() == Some(h.0),
                None => self@.rep_leaf() is None,
            },
        decreases *self,
    {
        match self {
            TextureNode::Leaf(h) => Some(*h),
            TextureNode::Branch(cs) => {
                proof {
                    lemma_children_view(cs@);
                }
                if cs.len() == 0 {
                    None
                } else {
                    cs[0].1.representative_leaf()
                }
            },
        }
    }
}

} // verus!
