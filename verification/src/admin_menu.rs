//! The menu model: every drill-in menu, derived from the texture tree in a
//! single post-order pass.
//!
//! Each branch of the tree yields a menu with one button per child whose
//! subtree holds at least one leaf, in branch (lexicographic) order.  A
//! button previews the representative leaf of its child's subtree and
//! descends into the child when the child is itself a branch.

use vstd::prelude::*;
use crate::admin_button::{AdminButton, ButtonAction, SpecAction, SpecButton};
use crate::id::Id;
use crate::resources::TextureTreeResource;
use crate::texture_tree::{SpecNode, TextureHandle, TextureNode, children_view, lemma_children_view, lemma_wf_branch};

verus! {

/// The representative leaf for the menus: the first leaf found by a
/// depth-first walk, skipping children whose subtrees hold no leaf.
pub open spec fn menu_rep(n: SpecNode) -> Option<u64>
    decreases n,
{
    match n {
        SpecNode::Leaf(h) => Some(h),
        SpecNode::Branch(cs) => menu_rep_children(cs),
    }
}

/// The representative leaf contributed by an ordered child list: that of
/// the first child whose subtree holds one.
pub open spec fn menu_rep_children(cs: Seq<(Seq<char>, SpecNode)>) -> Option<u64>
    decreases cs,
{
    if cs.len() == 0 {
        None
    } else {
        match menu_rep(cs[0].1) {
            Some(h) => Some(h),
            None => menu_rep_children(cs.drop_first()),
        }
    }
}

/// Appending a child looks left first: the new child only decides when no
/// earlier subtree holds a leaf.
pub proof fn lemma_menu_rep_children_push(
    s: Seq<(Seq<char>, SpecNode)>,
    e: (Seq<char>, SpecNode),
)
    ensures
        menu_rep_children(s.push(e)) == (match menu_rep_children(s) {
            Some(h) => Some(h),
            None => menu_rep(e.1),
        }),
    decreases s.len(),
{
    if s.len() == 0 {
        assert(s.push(e)[0] == e);
        assert(s.push(e).drop_first() =~= s);
    } else {
        assert(s.push(e)[0] == s[0]);
        assert(s.push(e).drop_first() =~= s.drop_first().push(e));
        lemma_menu_rep_children_push(s.drop_first(), e);
    }
}

/// Wherever the strict first-child descent of the tree finds a leaf, the
/// menus' representative agrees with it.  (They can differ only below an
/// empty branch, which the loader never creates.)
pub proof fn lemma_menu_rep_agrees(n: SpecNode)
    requires
        n.rep_leaf() is Some,
    ensures
        menu_rep(n) == n.rep_leaf(),
    decreases n,
{
    match n {
        SpecNode::Leaf(_) => {},
        SpecNode::Branch(cs) => {
            assert(cs.len() > 0);
            lemma_menu_rep_agrees(cs[0].1);
        },
    }
}

/// The button derived for the child `(seg, child)` whose representative
/// leaf is `h`.
pub open spec fn spec_button_for(seg: Seq<char>, child: SpecNode, h: u64) -> SpecButton {
    SpecButton {
        texture: h,
        name: seg,
        on_click: if child is Branch {
            SpecAction::Descend(seg)
        } else {
            SpecAction::NoOp
        },
    }
}

/// The menu derived for an ordered child list: one button per child whose
/// subtree holds a leaf, in child order.
pub open spec fn spec_menu(cs: Seq<(Seq<char>, SpecNode)>) -> Seq<SpecButton>
    decreases cs.len(),
{
    if cs.len() == 0 {
        Seq::empty()
    } else {
        let rest = spec_menu(cs.drop_last());
        match menu_rep(cs.last().1) {
            Some(h) => rest.push(spec_button_for(cs.last().0, cs.last().1, h)),
            None => rest,
        }
    }
}

/// The menus of this node and of every internal descendant, each keyed by
/// its identifier (`at` being the identifier of `n` itself).
pub open spec fn spec_menu_map(n: SpecNode, at: Seq<Seq<char>>) -> Map<
    Seq<Seq<char>>,
    Seq<SpecButton>,
>
    decreases n,
{
    match n {
        SpecNode::Leaf(_) => Map::empty(),
        SpecNode::Branch(cs) => spec_menu_map_children(cs, at).insert(at, spec_menu(cs)),
    }
}

/// The menus contributed by the subtrees of an ordered child list.
pub open spec fn spec_menu_map_children(
    cs: Seq<(Seq<char>, SpecNode)>,
    at: Seq<Seq<char>>,
) -> Map<Seq<Seq<char>>, Seq<SpecButton>>
    decreases cs,
{
    if cs.len() == 0 {
        Map::empty()
    } else {
        spec_menu_map_children(cs.drop_last(), at).union_prefer_right(
            spec_menu_map(cs.last().1, at.push(cs.last().0)),
        )
    }
}

/// The children of a branch node; a leaf has none.
pub open spec fn children_of(n: SpecNode) -> Seq<(Seq<char>, SpecNode)> {
    match n {
        SpecNode::Branch(cs) => cs,
        SpecNode::Leaf(_) => Seq::empty(),
    }
}

/// How many children of the list have a subtree holding at least one leaf.
pub open spec fn count_present(cs: Seq<(Seq<char>, SpecNode)>) -> int
    decreases cs.len(),
{
    if cs.len() == 0 {
        0int
    } else {
        count_present(cs.drop_last()) + (if menu_rep(cs.last().1) is Some {
            1int
        } else {
            0int
        })
    }
}

/// A menu has exactly one button per child whose subtree holds a leaf.
pub proof fn lemma_menu_len(cs: Seq<(Seq<char>, SpecNode)>)
    ensures
        spec_menu(cs).len() == count_present(cs),
    decreases cs.len(),
{
    if cs.len() > 0 {
        lemma_menu_len(cs.drop_last());
    }
}

/// Every button of a menu comes from a child of the list: same name, the
/// child's representative leaf as preview, and a descend action exactly
/// when the child is itself a branch.
pub proof fn lemma_menu_button_source(cs: Seq<(Seq<char>, SpecNode)>, b: int)
    requires
        0 <= b < spec_menu(cs).len(),
    ensures
        exists|i: int|
            0 <= i < cs.len() && menu_rep((#[trigger] cs[i]).1) == Some(spec_menu(cs)[b].texture)
                && cs[i].0 == spec_menu(cs)[b].name && spec_menu(cs)[b] == spec_button_for(
                cs[i].0,
                cs[i].1,
                spec_menu(cs)[b].texture,
            ),
    decreases cs.len(),
{
    let menu = spec_menu(cs);
    let rest = spec_menu(cs.drop_last());
    match menu_rep(cs.last().1) {
        Some(h) => {
            if b == menu.len() - 1 {
                let i = cs.len() - 1;
                assert(cs[i] == cs.last());
                assert(menu[b] == spec_button_for(cs[i].0, cs[i].1, h));
            } else {
                lemma_menu_button_source(cs.drop_last(), b);
                let i = choose|i: int|
                    0 <= i < cs.drop_last().len() && menu_rep((#[trigger] cs.drop_last()[i]).1)
                        == Some(rest[b].texture) && cs.drop_last()[i].0 == rest[b].name
                        && rest[b] == spec_button_for(
                        cs.drop_last()[i].0,
                        cs.drop_last()[i].1,
                        rest[b].texture,
                    );
                assert(cs.drop_last()[i] == cs[i]);
                assert(menu[b] == rest[b]);
            }
        },
        None => {
            lemma_menu_button_source(cs.drop_last(), b);
            let i = choose|i: int|
                0 <= i < cs.drop_last().len() && menu_rep((#[trigger] cs.drop_last()[i]).1) == Some(
                    rest[b].texture,
                ) && cs.drop_last()[i].0 == rest[b].name && rest[b] == spec_button_for(
                    cs.drop_last()[i].0,
                    cs.drop_last()[i].1,
                    rest[b].texture,
                );
            assert(cs.drop_last()[i] == cs[i]);
        },
    }
}

/// In a well-formed branch the menu's buttons keep the branch key order:
/// their names are strictly increasing.
pub proof fn lemma_menu_sorted(cs: Seq<(Seq<char>, SpecNode)>, b1: int, b2: int)
    requires
        SpecNode::Branch(cs).wf(),
        0 <= b1 < b2 < spec_menu(cs).len(),
    ensures
        crate::order::lex_lt(spec_menu(cs)[b1].name, spec_menu(cs)[b2].name),
    decreases cs.len(),
{
    let menu = spec_menu(cs);
    let rest = spec_menu(cs.drop_last());
    crate::texture_tree::lemma_wf_branch(cs);
    assert(SpecNode::Branch(cs.drop_last()).wf()) by {
        assert forall|i: int, j: int|
            0 <= i < j < cs.drop_last().len() implies crate::order::lex_lt(
            (#[trigger] cs.drop_last()[i]).0,
            (#[trigger] cs.drop_last()[j]).0,
        ) by {
            assert(cs.drop_last()[i] == cs[i] && cs.drop_last()[j] == cs[j]);
            assert(crate::order::lex_lt(cs[i].0, cs[j].0));
        }
        assert forall|i: int| 0 <= i < cs.drop_last().len() implies (
        #[trigger] cs.drop_last()[i]).1.wf() by {
            assert(cs.drop_last()[i] == cs[i]);
            assert(cs[i].1.wf());
        }
    }
    match menu_rep(cs.last().1) {
        Some(h) => {
            if b2 == menu.len() - 1 {
                lemma_menu_button_source(cs.drop_last(), b1);
                let i = choose|i: int|
                    0 <= i < cs.drop_last().len() && menu_rep((#[trigger] cs.drop_last()[i]).1)
                        == Some(rest[b1].texture) && cs.drop_last()[i].0 == rest[b1].name
                        && rest[b1] == spec_button_for(
                        cs.drop_last()[i].0,
                        cs.drop_last()[i].1,
                        rest[b1].texture,
                    );
                assert(cs.drop_last()[i] == cs[i]);
                assert(crate::order::lex_lt(cs[i].0, cs[cs.len() - 1].0));
                assert(menu[b2].name == cs.last().0);
            } else {
                lemma_menu_sorted(cs.drop_last(), b1, b2);
            }
        },
        None => {
            lemma_menu_sorted(cs.drop_last(), b1, b2);
        },
    }
}

/// Each button's preview is the representative leaf of the child that the
/// button's name selects, and the button descends exactly when that child
/// is itself a branch.
pub proof fn lemma_button_preview(cs: Seq<(Seq<char>, SpecNode)>, b: int)
    requires
        SpecNode::Branch(cs).wf(),
        0 <= b < spec_menu(cs).len(),
    ensures
        ({
            let btn = spec_menu(cs)[b];
            &&& crate::texture_tree::find_child(cs, btn.name) is Some
            &&& menu_rep(crate::texture_tree::find_child(cs, btn.name).unwrap()) == Some(
                btn.texture,
            )
            &&& (btn.on_click == SpecAction::Descend(btn.name) <==> crate::texture_tree::find_child(
                cs,
                btn.name,
            ).unwrap() is Branch)
            &&& (btn.on_click == SpecAction::NoOp <==> crate::texture_tree::find_child(
                cs,
                btn.name,
            ).unwrap() is Leaf)
        }),
{
    let btn = spec_menu(cs)[b];
    lemma_menu_button_source(cs, b);
    lemma_wf_branch(cs);
    let i = choose|i: int|
        0 <= i < cs.len() && menu_rep((#[trigger] cs[i]).1) == Some(btn.texture) && cs[i].0
            == btn.name && btn == spec_button_for(cs[i].0, cs[i].1, btn.texture);
    assert forall|k: int| 0 <= k < i implies (#[trigger] cs[k]).0 != btn.name by {
        assert(crate::order::lex_lt(cs[k].0, cs[i].0));
        crate::order::lemma_lex_trichotomy(cs[k].0, cs[i].0);
    }
    crate::texture_tree::lemma_find_child_skip(cs, btn.name, i);
    assert(cs.skip(i)[0] == cs[i]);
    assert(crate::texture_tree::find_child(cs, btn.name) == Some(cs[i].1));
}

/// Every key of a node's menu map extends the node's own identifier.
pub proof fn lemma_menu_map_prefix(n: SpecNode, at: Seq<Seq<char>>)
    ensures
        forall|k: Seq<Seq<char>>|
            #[trigger] spec_menu_map(n, at).contains_key(k) ==> at.is_prefix_of(k),
    decreases n,
{
    match n {
        SpecNode::Leaf(_) => {},
        SpecNode::Branch(cs) => {
            lemma_children_map_prefix(cs, at);
            assert forall|k: Seq<Seq<char>>|
                #[trigger] spec_menu_map(n, at).contains_key(k) implies at.is_prefix_of(k) by {
                if k == at {
                    assert(at =~= k.subrange(0, at.len() as int));
                } else {
                    assert(spec_menu_map_children(cs, at).contains_key(k));
                    let i = choose|i: int|
                        0 <= i < cs.len() && (at.push((#[trigger] cs[i]).0)).is_prefix_of(k);
                    assert(at.push(cs[i].0) =~= k.subrange(0, at.len() as int + 1));
                    assert(at =~= k.subrange(0, at.len() as int));
                }
            }
        },
    }
}

/// Every key contributed by a child list extends the identifier of one of
/// its children.
pub proof fn lemma_children_map_prefix(cs: Seq<(Seq<char>, SpecNode)>, at: Seq<Seq<char>>)
    ensures
        forall|k: Seq<Seq<char>>|
            #[trigger] spec_menu_map_children(cs, at).contains_key(k) ==> exists|i: int|
                0 <= i < cs.len() && (at.push((#[trigger] cs[i]).0)).is_prefix_of(k),
    decreases cs,
{
    if cs.len() > 0 {
        lemma_children_map_prefix(cs.drop_last(), at);
        lemma_menu_map_prefix(cs.last().1, at.push(cs.last().0));
        assert forall|k: Seq<Seq<char>>|
            #[trigger] spec_menu_map_children(cs, at).contains_key(k) implies exists|i: int|
            0 <= i < cs.len() && (at.push((#[trigger] cs[i]).0)).is_prefix_of(k) by {
            if spec_menu_map(cs.last().1, at.push(cs.last().0)).contains_key(k) {
                let w = cs.len() - 1;
                assert(cs[w] == cs.last());
                assert((at.push(cs[w].0)).is_prefix_of(k));
            } else {
                assert(spec_menu_map_children(cs.drop_last(), at).contains_key(k));
                let i = choose|i: int|
                    0 <= i < cs.drop_last().len() && (at.push(
                        (#[trigger] cs.drop_last()[i]).0,
                    )).is_prefix_of(k);
                assert(cs.drop_last()[i] == cs[i]);
                assert((at.push(cs[i].0)).is_prefix_of(k));
            }
        }
    }
}

/// A key recorded by one child's subtree survives the fold over the whole
/// child list: sibling subtrees live in disjoint identifier spaces.
pub proof fn lemma_children_map_at(
    cs: Seq<(Seq<char>, SpecNode)>,
    at: Seq<Seq<char>>,
    i: int,
    k: Seq<Seq<char>>,
)
    requires
        crate::texture_tree::children_sorted(cs),
        0 <= i < cs.len(),
        spec_menu_map(cs[i].1, at.push(cs[i].0)).contains_key(k),
    ensures
        spec_menu_map_children(cs, at).contains_key(k),
        spec_menu_map_children(cs, at)[k] == spec_menu_map(cs[i].1, at.push(cs[i].0))[k],
    decreases cs.len(),
{
    lemma_menu_map_prefix(cs[i].1, at.push(cs[i].0));
    assert((at.push(cs[i].0)).is_prefix_of(k));
    if i == cs.len() - 1 {
        assert(cs[i] == cs.last());
    } else {
        assert(crate::texture_tree::children_sorted(cs.drop_last())) by {
            assert forall|a: int, b: int|
                0 <= a < b < cs.drop_last().len() implies crate::order::lex_lt(
                (#[trigger] cs.drop_last()[a]).0,
                (#[trigger] cs.drop_last()[b]).0,
            ) by {
                assert(cs.drop_last()[a] == cs[a] && cs.drop_last()[b] == cs[b]);
                assert(crate::order::lex_lt(cs[a].0, cs[b].0));
            }
        }
        assert(cs.drop_last()[i] == cs[i]);
        lemma_children_map_at(cs.drop_last(), at, i, k);
        // The last sibling cannot also hold the key: its identifier space
        // starts with a different segment.
        let lastm = spec_menu_map(cs.last().1, at.push(cs.last().0));
        if lastm.contains_key(k) {
            lemma_menu_map_prefix(cs.last().1, at.push(cs.last().0));
            assert((at.push(cs.last().0)).is_prefix_of(k));
            let la = at.len() as int;
            assert(k[la] == at.push(cs.last().0)[la]);
            assert(k[la] == at.push(cs[i].0)[la]);
            assert(cs[i].0 == cs[cs.len() - 1].0);
            assert(crate::order::lex_lt(cs[i].0, cs[cs.len() - 1].0));
            crate::order::lemma_lex_trichotomy(cs[i].0, cs[cs.len() - 1].0);
            assert(false);
        }
    }
}

/// A small step of sequence algebra: appending one segment and then the
/// rest of the path reaches the same identifier as appending the path.
proof fn lemma_push_concat(at: Seq<Seq<char>>, p: Seq<Seq<char>>)
    requires
        p.len() > 0,
    ensures
        at.push(p[0]) + p.drop_first() =~= at + p,
{
}

/// The menu map holds an entry for every internal node of the tree: an
/// identifier that resolves to a branch is a key, and its menu is the menu
/// derived from that branch's children.
pub proof fn lemma_menu_map_complete(n: SpecNode, at: Seq<Seq<char>>, p: Seq<Seq<char>>)
    requires
        n.wf(),
        n.lookup(p) is Some,
        n.lookup(p).unwrap() is Branch,
    ensures
        spec_menu_map(n, at).contains_key(at + p),
        spec_menu_map(n, at)[at + p] == spec_menu(children_of(n.lookup(p).unwrap())),
    decreases p.len(),
{
    match n {
        SpecNode::Leaf(_) => {
            assert(false);
        },
        SpecNode::Branch(cs) => {
            if p.len() == 0 {
                assert(at + p =~= at);
            } else {
                let c = crate::texture_tree::find_child(cs, p[0]).unwrap();
                crate::texture_tree::lemma_find_child_index(cs, p[0]);
                let i = choose|i: int|
                    0 <= i < cs.len() && (#[trigger] cs[i]).0 == p[0] && cs[i].1 == c;
                lemma_wf_branch(cs);
                assert(c.wf());
                lemma_menu_map_complete(c, at.push(p[0]), p.drop_first());
                lemma_push_concat(at, p);
                assert(spec_menu_map(c, at.push(p[0])).contains_key(at + p));
                lemma_children_map_at(cs, at, i, at + p);
                assert((at + p).len() > at.len());
                assert(at + p != at);
            }
        },
    }
}

/// The menu map is total on the internal identifiers of a well-formed
/// tree: every identifier that resolves to a branch is a key; its menu is
/// derived from that branch's children, has one button per child subtree
/// holding a leaf, and keeps the branch key order.
pub proof fn lemma_menu_map_properties(n: SpecNode, p: Seq<Seq<char>>)
    requires
        n.wf(),
        n.lookup(p) is Some,
        n.lookup(p).unwrap() is Branch,
    ensures
        spec_menu_map(n, Seq::empty()).contains_key(p),
        spec_menu_map(n, Seq::empty())[p] == spec_menu(children_of(n.lookup(p).unwrap())),
        spec_menu_map(n, Seq::empty())[p].len() == count_present(
            children_of(n.lookup(p).unwrap()),
        ),
        forall|b1: int, b2: int|
            0 <= b1 < b2 < spec_menu_map(n, Seq::empty())[p].len() ==> crate::order::lex_lt(
                (#[trigger] spec_menu(children_of(n.lookup(p).unwrap()))[b1]).name,
                (#[trigger] spec_menu(children_of(n.lookup(p).unwrap()))[b2]).name,
            ),
{
    lemma_menu_map_complete(n, Seq::empty(), p);
    assert(Seq::<Seq<char>>::empty() + p =~= p);
    let cs = children_of(n.lookup(p).unwrap());
    lemma_menu_len(cs);
    crate::texture_tree::lemma_lookup_wf(n, p);
    assert forall|b1: int, b2: int|
        0 <= b1 < b2 < spec_menu_map(n, Seq::empty())[p].len() implies crate::order::lex_lt(
        (#[trigger] spec_menu(cs)[b1]).name,
        (#[trigger] spec_menu(cs)[b2]).name,
    ) by {
        lemma_menu_sorted(cs, b1, b2);
    }
}

/// A menu of buttons, in visual order.
#[derive(Debug, Clone)]
pub struct AdminMenu(pub Vec<AdminButton>);

/// The view of a button vector, elementwise.
pub open spec fn buttons_view(bs: Seq<AdminButton>) -> Seq<SpecButton> {
    bs.map(|i: int, b: AdminButton| b@)
}

impl View for AdminMenu {
    type V = Seq<SpecButton>;

    open spec fn view(&self) -> Seq<SpecButton> {
        buttons_view(self.0@)
    }
}

/// Every menu, keyed by the identifier of its branch; later entries shadow
/// earlier ones (the builder records each identifier once).
pub struct AdminMenus(pub Vec<(Id, AdminMenu)>);

/// The map an ordered entry list stands for.
pub open spec fn menus_map_view(ms: Seq<(Id, AdminMenu)>) -> Map<Seq<Seq<char>>, Seq<SpecButton>>
    decreases ms.len(),
{
    if ms.len() == 0 {
        Map::empty()
    } else {
        menus_map_view(ms.drop_last()).insert(ms.last().0@, ms.last().1@)
    }
}

impl View for AdminMenus {
    type V = Map<Seq<Seq<char>>, Seq<SpecButton>>;

    open spec fn view(&self) -> Map<Seq<Seq<char>>, Seq<SpecButton>> {
        menus_map_view(self.0@)
    }
}

/// Entries beyond `i` that do not carry `k` leave the map at `k` as the
/// first `i` entries left it.
proof fn lemma_menus_map_unmatched(ms: Seq<(Id, AdminMenu)>, k: Seq<Seq<char>>, i: int)
    requires
        0 <= i <= ms.len(),
        forall|j: int| i <= j < ms.len() ==> (#[trigger] ms[j]).0@ != k,
    ensures
        menus_map_view(ms).contains_key(k) == menus_map_view(ms.take(i)).contains_key(k),
        menus_map_view(ms).contains_key(k) ==> menus_map_view(ms)[k] == menus_map_view(
            ms.take(i),
        )[k],
    decreases ms.len() - i,
{
    if i == ms.len() {
        assert(ms.take(i) =~= ms);
    } else {
        assert(ms.drop_last().take(i) =~= ms.take(i));
        assert forall|j: int| i <= j < ms.drop_last().len() implies (#[trigger] ms.drop_last()[j]).0@
            != k by {
            assert(ms.drop_last()[j] == ms[j]);
        }
        lemma_menus_map_unmatched(ms.drop_last(), k, i);
        assert(ms.last().0@ != k);
    }
}

impl AdminMenus {
    /// The menu recorded for `id`, if any.
    pub fn get(&self, id: &Id) -> (r: Option<&AdminMenu>)
        ensures
            match r {
                Some(m) => self@.contains_key(id@) && self@[id@] == m@,
                None => !self@.contains_key(id@),
            },
    {
        let ghost ms = self.0@;
        let n = self.0.len();
        let mut j: usize = n;
        while j > 0
            invariant
                j <= n,
                n == ms.len(),
                ms == self.0@,
                forall|k: int| j <= k < n ==> (#[trigger] ms[k]).0@ != id@,
            decreases j,
        {
            if &self.0[j - 1].0 == id {
                proof {
                    lemma_menus_map_unmatched(ms, id@, j as int);
                    let pre = ms.take(j as int);
                    assert(pre.drop_last() =~= ms.take(j - 1));
                    assert(pre.last() == ms[j - 1]);
                    assert(menus_map_view(pre) == menus_map_view(ms.take(j - 1)).insert(
                        ms[j - 1].0@,
                        ms[j - 1].1@,
                    ));
                }
                return Some(&self.0[j - 1].1);
            }
            j -= 1;
        }
        proof {
            lemma_menus_map_unmatched(ms, id@, 0);
            assert(ms.take(0) =~= Seq::<(Id, AdminMenu)>::empty());
        }
        None
    }

    /// Derives every menu from the finished texture tree, in one post-order
    /// pass.
    pub fn build(tree: &TextureTreeResource) -> (r: AdminMenus)
        ensures
            r@ == spec_menu_map(tree.0@, Seq::empty()),
    {
        let mut acc: Vec<(Id, AdminMenu)> = Vec::new();
        let root_id = Id(Vec::new());
        proof {
            crate::id::lemma_segments_deep_view(root_id.0);
            assert(root_id@ =~= Seq::<Seq<char>>::empty());
            assert(menus_map_view(acc@) =~= Map::<Seq<Seq<char>>, Seq<SpecButton>>::empty());
        }
        let rep = build_node(&tree.0, &root_id, &mut acc);
        proof {
            assert(menus_map_view(acc@) =~= spec_menu_map(tree.0@, Seq::empty()));
        }
        AdminMenus(acc)
    }
}

/// Builds the menus of `node`'s subtree into `acc` and returns the
/// subtree's representative leaf.
fn build_node(node: &TextureNode, id: &Id, acc: &mut Vec<(Id, AdminMenu)>) -> (rep: Option<
    TextureHandle,
>)
    ensures
        match rep {
            Some(h) => menu_rep(node@) == Some(h.0),
            None => menu_rep(node@) is None,
        },
        menus_map_view(final(acc)@) == menus_map_view(old(acc)@).union_prefer_right(
            spec_menu_map(node@, id@),
        ),
    decreases *node,
{
    match node {
        TextureNode::Leaf(h) => {
            proof {
                assert(menus_map_view(acc@) =~= menus_map_view(acc@).union_prefer_right(
                    Map::empty(),
                ));
            }
            Some(*h)
        },
        TextureNode::Branch(cs) => {
            proof {
                lemma_children_view(cs@);
            }
            let ghost cv = children_view(cs@);
            let ghost acc0 = acc@;
            let ghost at = id@;
            let mut buttons: Vec<AdminButton> = Vec::new();
            let mut rep: Option<TextureHandle> = None;
            let n = cs.len();
            let mut i: usize = 0;
            proof {
                assert(cv.take(0) =~= Seq::<(Seq<char>, SpecNode)>::empty());
                assert(buttons_view(buttons@) =~= Seq::<SpecButton>::empty());
                assert(menus_map_view(acc@) =~= menus_map_view(acc0).union_prefer_right(
                    spec_menu_map_children(cv.take(0), at),
                ));
            }
            while i < n
                invariant
                    i <= n,
                    n == cs@.len(),
                    cv == children_view(cs@),
                    cv.len() == n,
                    at == id@,
                    *node == TextureNode::Branch(*cs),
                    node@ == SpecNode::Branch(cv),
                    forall|k: int| 0 <= k < n ==> #[trigger] cv[k] == (cs@[k].0@, cs@[k].1@),
                    buttons_view(buttons@) == spec_menu(cv.take(i as int)),
                    menus_map_view(acc@) == menus_map_view(acc0).union_prefer_right(
                        spec_menu_map_children(cv.take(i as int), at),
                    ),
                    match rep {
                        Some(h) => menu_rep_children(cv.take(i as int)) == Some(h.0),
                        None => menu_rep_children(cv.take(i as int)) is None,
                    },
                decreases n - i,
            {
                let ghost cur = cv.take(i + 1);
                proof {
                    assert(cur.drop_last() =~= cv.take(i as int));
                    assert(cur.last() == cv[i as int]);
                    assert(cv.take(i as int).push(cv[i as int]) =~= cur);
                    lemma_menu_rep_children_push(cv.take(i as int), cv[i as int]);
                }
                let name: &String = &cs[i].0;
                let child_id = id.extend(name.clone());
                let ghost acc_before = acc@;
                let child_rep = build_node(&cs[i].1, &child_id, acc);
                proof {
                    assert(spec_menu_map_children(cur, at) == spec_menu_map_children(
                        cv.take(i as int),
                        at,
                    ).union_prefer_right(spec_menu_map(cv[i as int].1, at.push(cv[i as int].0))));
                    assert(child_id@ == at.push(cv[i as int].0));
                    assert(menus_map_view(acc@) =~= menus_map_view(acc0).union_prefer_right(
                        spec_menu_map_children(cur, at),
                    ));
                }
                match child_rep {
                    Some(h) => {
                        let is_branch = match &cs[i].1 {
                            TextureNode::Branch(_) => true,
                            TextureNode::Leaf(_) => false,
                        };
                        let ghost old_buttons = buttons@;
                        let action = if is_branch {
                            ButtonAction::Descend(name.clone())
                        } else {
                            ButtonAction::NoOp
                        };
                        buttons.push(AdminButton { texture: h, name: name.clone(), on_click: action });
                        proof {
                            let prev = buttons_view(old_buttons);
                            let now = buttons_view(buttons@);
                            let btn = spec_button_for(cv[i as int].0, cv[i as int].1, h.0);
                            assert forall|k: int| 0 <= k < now.len() implies #[trigger] now[k]
                                == prev.push(btn)[k] by {
                                assert(now[k] == buttons@[k]@);
                                if k < now.len() - 1 {
                                    assert(buttons@[k] == old_buttons[k]);
                                    assert(prev[k] == old_buttons[k]@);
                                } else {
                                    assert(buttons@[k]@ == btn);
                                }
                            }
                            assert(now =~= prev.push(btn));
                            assert(spec_menu(cur) == prev.push(btn));
                        }
                        if rep.is_none() {
                            rep = Some(h);
                        }
                    },
                    None => {
                        proof {
                            assert(spec_menu(cur) == buttons_view(buttons@));
                        }
                    },
                }
                i += 1;
            }
            proof {
                assert(cv.take(n as int) =~= cv);
            }
            let ghost before_push = acc@;
            let menu = AdminMenu(buttons);
            acc.push((id.clone(), menu));
            proof {
                assert(acc@.drop_last() =~= before_push);
                assert(acc@.last().0@ == at);
                assert(menus_map_view(acc@) == menus_map_view(before_push).insert(
                    at,
                    acc@.last().1@,
                ));
                assert(menus_map_view(acc@) =~= menus_map_view(acc0).union_prefer_right(
                    spec_menu_map_children(cv, at).insert(at, spec_menu(cv)),
                ));
            }
            rep
        },
    }
}

} // verus!
