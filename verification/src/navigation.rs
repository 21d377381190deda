//! The navigation controller: one breadcrumb identifier, moved by button
//! presses, with a re-render request whenever it changes.

use vstd::prelude::*;
use crate::admin_button::{ButtonAction, SpecAction};
use crate::admin_menu::AdminMenu;
use crate::id::Id;

verus! {

/// The breadcrumb: the identifier of the menu currently shown.
pub struct AdminMenuStack(pub Id);

/// The menu currently materialised on screen.
pub struct CurrentAdminMenu(pub AdminMenu);

/// The parent of an identifier; the root is its own parent.
pub open spec fn spec_parent(s: Seq<Seq<char>>) -> Seq<Seq<char>> {
    if s.len() == 0 {
        s
    } else {
        s.drop_last()
    }
}

/// The identifier a button action leads to from `at`.
pub open spec fn spec_activate(at: Seq<Seq<char>>, a: SpecAction) -> Seq<Seq<char>> {
    match a {
        SpecAction::Descend(seg) => at.push(seg),
        SpecAction::NoOp => at,
        SpecAction::Ascend => spec_parent(at),
    }
}

/// Executable interpretation of a button action.
pub fn activate(breadcrumb: &Id, action: &ButtonAction) -> (r: Id)
    ensures
        r@ == spec_activate(breadcrumb@, action@),
{
    match action {
        ButtonAction::Descend(seg) => breadcrumb.extend(seg.clone()),
        ButtonAction::NoOp => breadcrumb.clone(),
        ButtonAction::Ascend => breadcrumb.init(),
    }
}

impl AdminMenuStack {
    /// The breadcrumb after loading: the root.
    pub fn new() -> (r: AdminMenuStack)
        ensures
            r.0@ == Seq::<Seq<char>>::empty(),
    {
        let id = Id(Vec::new());
        proof {
            crate::id::lemma_segments_deep_view(id.0);
            assert(id@ =~= Seq::<Seq<char>>::empty());
        }
        AdminMenuStack(id)
    }

    /// Applies a pressed button.  A changed breadcrumb asks for exactly one
    /// re-render of the menu at the new identifier; a no-op press renders
    /// nothing.
    pub fn handle_press(&mut self, action: &ButtonAction) -> (render: Option<Id>)
        ensures
            final(self).0@ == spec_activate(old(self).0@, action@),
            match render {
                Some(id) => id@ == final(self).0@ && final(self).0@ != old(self).0@,
                None => final(self).0@ == old(self).0@,
            },
    {
        let new_id = activate(&self.0, action);
        if new_id == self.0 {
            None
        } else {
            let out = new_id.clone();
            self.0 = new_id;
            Some(out)
        }
    }
}

/// Applying `parent` `k` times.
pub open spec fn iter_parent(s: Seq<Seq<char>>, k: nat) -> Seq<Seq<char>>
    decreases k,
{
    if k == 0 {
        s
    } else {
        iter_parent(spec_parent(s), (k - 1) as nat)
    }
}

/// Navigation round trip, first half: from any identifier, going back once
/// per segment returns to the root.
pub proof fn lemma_parent_round_trip(s: Seq<Seq<char>>)
    ensures
        iter_parent(s, s.len()) == Seq::<Seq<char>>::empty(),
    decreases s.len(),
{
    if s.len() == 0 {
        assert(s =~= Seq::<Seq<char>>::empty());
    } else {
        lemma_parent_round_trip(s.drop_last());
    }
}

/// Descending: pressing the button named by the next segment moves the
/// breadcrumb from one prefix of the target to the next.
pub proof fn lemma_descend_step(id: Seq<Seq<char>>, j: int)
    requires
        0 <= j < id.len(),
    ensures
        spec_activate(id.take(j), SpecAction::Descend(id[j])) == id.take(j + 1),
{
    assert(id.take(j).push(id[j]) =~= id.take(j + 1));
}

/// Ascending: pressing back moves the breadcrumb from one prefix of the
/// target to the previous one.
pub proof fn lemma_ascend_step(id: Seq<Seq<char>>, j: int)
    requires
        0 < j <= id.len(),
    ensures
        spec_activate(id.take(j), SpecAction::Ascend) == id.take(j - 1),
{
    assert(id.take(j).drop_last() =~= id.take(j - 1));
}

/// The menus rendered while descending to `id`, in press order: each
/// non-root prefix of `id` once.
pub open spec fn descend_renders(id: Seq<Seq<char>>) -> Seq<Seq<Seq<char>>> {
    Seq::new(id.len(), |i: int| id.take(i + 1))
}

/// The menus rendered while ascending back to the root, in press order.
pub open spec fn ascend_renders(id: Seq<Seq<char>>) -> Seq<Seq<Seq<char>>> {
    Seq::new(id.len(), |i: int| id.take(id.len() - 1 - i))
}

/// Navigation round trip, second half: descending to `id` and ascending
/// back renders the menu of each intermediate identifier exactly twice --
/// at one position of each pass.
pub proof fn lemma_round_trip_visits(id: Seq<Seq<char>>, k: int)
    requires
        0 < k < id.len(),
    ensures
        forall|i: int|
            0 <= i < id.len() ==> ((#[trigger] descend_renders(id)[i] == id.take(k)) <==> i == k
                - 1),
        forall|i: int|
            0 <= i < id.len() ==> ((#[trigger] ascend_renders(id)[i] == id.take(k)) <==> i
                == id.len() - 1 - k),
{
    assert forall|i: int|
        0 <= i < id.len() implies ((#[trigger] descend_renders(id)[i] == id.take(k)) <==> i == k
        - 1) by {
        assert(descend_renders(id)[i] == id.take(i + 1));
        if descend_renders(id)[i] == id.take(k) {
            assert(id.take(i + 1).len() == i + 1);
            assert(id.take(k).len() == k);
        }
    }
    assert forall|i: int|
        0 <= i < id.len() implies ((#[trigger] ascend_renders(id)[i] == id.take(k)) <==> i
        == id.len() - 1 - k) by {
        assert(ascend_renders(id)[i] == id.take(id.len() - 1 - i));
        if ascend_renders(id)[i] == id.take(k) {
            assert(id.take(id.len() - 1 - i).len() == id.len() - 1 - i);
            assert(id.take(k).len() == k);
        }
    }
}

} // verus!
