//! Long-lived catalog state: the registered handlers, the texture pairs
//! collected while folders load, and the finished tree.

use vstd::prelude::*;
use crate::id::Id;
use crate::load_handler::{LoadHandler, entries_view};
use crate::texture_tree::{TextureHandle, TextureNode, distinct_ids};

verus! {

/// The ordered set of registered folder handlers.
pub struct LoadHandlers(pub Vec<LoadHandler>);

/// The finished texture tree, published once loading ends.
pub struct TextureTreeResource(pub TextureNode);

/// Marks the catalog as ready: the tree is built and the menus may be
/// derived.
pub struct AppLoaded;

/// The folders whose asynchronous load is still outstanding: folder name
/// and the opaque folder handle the asset collaborator returned.
pub struct FoldersLoading(pub Vec<(String, u64)>);

/// The two long-lived windows: the admin editor window and the mirroring
/// user window, as opaque window entities.
pub struct Windows {
    pub admin_window: u64,
    pub user_window: u64,
}

/// The screen-space entities the menu renderer currently owns: the bar
/// container, the back button, and the mounted menu buttons.
#[derive(Debug)]
pub struct UITracker {
    pub admin_bar: u64,
    pub back_button: u64,
    pub buttons: Vec<u64>,
}

impl UITracker {
    /// A tracker for a freshly built bar with no mounted buttons.
    pub fn new(admin_bar: u64, back_button: u64) -> (r: UITracker)
        ensures
            r.admin_bar == admin_bar,
            r.back_button == back_button,
            r.buttons@ == Seq::<u64>::empty(),
    {
        UITracker { admin_bar, back_button, buttons: Vec::new() }
    }

    /// The back button entity.
    pub fn back_button(&self) -> (r: u64)
        ensures
            r == self.back_button,
    {
        self.back_button
    }

    /// The bar container entity.
    pub fn admin_bar(&self) -> (r: u64)
        ensures
            r == self.admin_bar,
    {
        self.admin_bar
    }

    /// Replaces the mounted button list atomically, handing back the
    /// previous set so the caller can despawn each of its entities.
    pub fn replace_buttons(&mut self, buttons: Vec<u64>) -> (prev: Vec<u64>)
        ensures
            final(self).buttons == buttons,
            prev == old(self).buttons,
            final(self).admin_bar == old(self).admin_bar,
            final(self).back_button == old(self).back_button,
    {
        let mut incoming = buttons;
        core::mem::swap(&mut self.buttons, &mut incoming);
        incoming
    }
}

/// The first position of `pv` whose identifier equals `idv`, or `-1`.
pub open spec fn vid_index(pv: Seq<(Seq<Seq<char>>, u64)>, idv: Seq<Seq<char>>) -> int
    decreases pv.len(),
{
    if pv.len() == 0 {
        -1
    } else if pv[0].0 == idv {
        0
    } else {
        let r = vid_index(pv.drop_first(), idv);
        if r == -1 {
            -1
        } else {
            r + 1
        }
    }
}

/// What [`vid_index`] returns: the first matching position, or `-1` when
/// the identifier is absent.
pub proof fn lemma_vid_index(pv: Seq<(Seq<Seq<char>>, u64)>, idv: Seq<Seq<char>>)
    ensures
        ({
            let r = vid_index(pv, idv);
            &&& -1 <= r < pv.len()
            &&& r >= 0 ==> pv[r].0 == idv
            &&& forall|k: int| 0 <= k < r ==> (#[trigger] pv[k]).0 != idv
            &&& r == -1 ==> forall|k: int| 0 <= k < pv.len() ==> (#[trigger] pv[k]).0 != idv
        }),
    decreases pv.len(),
{
    if pv.len() > 0 && pv[0].0 != idv {
        lemma_vid_index(pv.drop_first(), idv);
        let r = vid_index(pv, idv);
        assert forall|k: int| 0 <= k < r implies (#[trigger] pv[k]).0 != idv by {
            if k > 0 {
                assert(pv.drop_first()[k - 1] == pv[k]);
            }
        }
        if r == -1 {
            assert forall|k: int| 0 <= k < pv.len() implies (#[trigger] pv[k]).0 != idv by {
                if k > 0 {
                    assert(pv.drop_first()[k - 1] == pv[k]);
                }
            }
        }
    }
}

/// Replaces the entry keyed by the identifier of `e`, or appends it.
pub open spec fn view_upsert(
    pv: Seq<(Seq<Seq<char>>, u64)>,
    e: (Seq<Seq<char>>, u64),
) -> Seq<(Seq<Seq<char>>, u64)> {
    let j = vid_index(pv, e.0);
    if j == -1 {
        pv.push(e)
    } else {
        pv.update(j, e)
    }
}

/// Folds freshly emitted entries into the collected map, first to last.
pub open spec fn view_insert_entries(
    pv: Seq<(Seq<Seq<char>>, u64)>,
    es: Seq<(Seq<Seq<char>>, u64)>,
) -> Seq<(Seq<Seq<char>>, u64)>
    decreases es.len(),
{
    if es.len() == 0 {
        pv
    } else {
        view_upsert(view_insert_entries(pv, es.drop_last()), es.last())
    }
}

/// The texture pairs collected while folders load, keyed uniquely by
/// identifier: inserting an identifier again replaces its handle.
pub struct TexturesMap(pub Vec<(Id, TextureHandle)>);

impl TexturesMap {
    /// Identifiers are pairwise distinct.
    pub open spec fn wf(self) -> bool {
        distinct_ids(self.0@)
    }

    /// An empty map.
    pub fn new() -> (r: TexturesMap)
        ensures
            r.wf(),
            r.0@ == Seq::<(Id, TextureHandle)>::empty(),
    {
        TexturesMap(Vec::new())
    }

    /// Inserts a pair, replacing the entry with the same identifier if one
    /// exists.
    pub fn insert(&mut self, id: Id, handle: TextureHandle)
        requires
            old(self).wf(),
        ensures
            final(self).wf(),
            entries_view(final(self).0@) == view_upsert(
                entries_view(old(self).0@),
                (id@, handle.0),
            ),
    {
        let ghost pv = entries_view(self.0@);
        proof {
            lemma_vid_index(pv, id@);
            assert forall|k: int| 0 <= k < self.0@.len() implies #[trigger] pv[k] == (
                self.0@[k].0@,
                self.0@[k].1.0,
            ) by {}
        }
        let n = self.0.len();
        let mut j: usize = 0;
        while j < n
            invariant
                j <= n,
                n == self.0@.len(),
                self.0@ == old(self).0@,
                pv == entries_view(self.0@),
                pv.len() == n,
                distinct_ids(self.0@),
                forall|k: int| 0 <= k < n ==> #[trigger] pv[k] == (self.0@[k].0@, self.0@[k].1.0),
                forall|k: int| 0 <= k < j ==> (#[trigger] pv[k]).0 != id@,
                -1 <= vid_index(pv, id@) < pv.len(),
                vid_index(pv, id@) >= 0 ==> pv[vid_index(pv, id@)].0 == id@,
                forall|k: int| 0 <= k < vid_index(pv, id@) ==> (#[trigger] pv[k]).0 != id@,
                vid_index(pv, id@) == -1 ==> forall|k: int|
                    0 <= k < pv.len() ==> (#[trigger] pv[k]).0 != id@,
            decreases n - j,
        {
            if self.0[j].0 == id {
                proof {
                    let r = vid_index(pv, id@);
                    assert(pv[j as int].0 == id@);
                    if r < j {
                        assert(pv[j as int].0 != id@);
                    }
                    if r > j {
                        assert(pv[j as int].0 != id@);
                    }
                    assert(r == j);
                }
                let elem = &mut self.0[j];
                *elem = (id, handle);
                proof {
                    let now = entries_view(self.0@);
                    assert forall|k: int| 0 <= k < now.len() implies #[trigger] now[k]
                        == pv.update(j as int, (id@, handle.0))[k] by {
                        assert(now[k] == (self.0@[k].0@, self.0@[k].1.0));
                    }
                    assert(now =~= pv.update(j as int, (id@, handle.0)));
                    assert forall|a: int, b: int|
                        0 <= a < b < self.0@.len() implies (#[trigger] self.0@[a]).0@ != (
                        #[trigger] self.0@[b]).0@ by {}
                }
                return ;
            }
            j += 1;
        }
        proof {
            assert(vid_index(pv, id@) == -1) by {
                let r = vid_index(pv, id@);
                if r >= 0 {
                    assert(pv[r].0 != id@);
                }
            }
        }
        self.0.push((id, handle));
        proof {
            let now = entries_view(self.0@);
            assert forall|k: int| 0 <= k < now.len() implies #[trigger] now[k] == pv.push(
                (id@, handle.0),
            )[k] by {
                assert(now[k] == (self.0@[k].0@, self.0@[k].1.0));
            }
            assert(now =~= pv.push((id@, handle.0)));
            assert forall|a: int, b: int|
                0 <= a < b < self.0@.len() implies (#[trigger] self.0@[a]).0@ != (
            #[trigger] self.0@[b]).0@ by {
                if b == self.0@.len() - 1 {
                    assert(pv[a].0 == self.0@[a].0@);
                }
            }
        }
    }

    /// The handle recorded for `id`, if any.
    pub fn get(&self, id: &Id) -> (r: Option<TextureHandle>)
        ensures
            ({
                let j = vid_index(entries_view(self.0@), id@);
                match r {
                    Some(h) => j >= 0 && entries_view(self.0@)[j].1 == h.0,
                    None => j == -1,
                }
            }),
    {
        let ghost pv = entries_view(self.0@);
        proof {
            lemma_vid_index(pv, id@);
            assert forall|k: int| 0 <= k < self.0@.len() implies #[trigger] pv[k] == (
                self.0@[k].0@,
                self.0@[k].1.0,
            ) by {}
        }
        let n = self.0.len();
        let mut j: usize = 0;
        while j < n
            invariant
                j <= n,
                n == self.0@.len(),
                pv == entries_view(self.0@),
                pv.len() == n,
                forall|k: int| 0 <= k < n ==> #[trigger] pv[k] == (self.0@[k].0@, self.0@[k].1.0),
                forall|k: int| 0 <= k < j ==> (#[trigger] pv[k]).0 != id@,
                -1 <= vid_index(pv, id@) < pv.len(),
                vid_index(pv, id@) >= 0 ==> pv[vid_index(pv, id@)].0 == id@,
                forall|k: int| 0 <= k < vid_index(pv, id@) ==> (#[trigger] pv[k]).0 != id@,
                vid_index(pv, id@) == -1 ==> forall|k: int|
                    0 <= k < pv.len() ==> (#[trigger] pv[k]).0 != id@,
            decreases n - j,
        {
            if &self.0[j].0 == id {
                proof {
                    let r = vid_index(pv, id@);
                    assert(pv[j as int].0 == id@);
                    if r < j {
                        assert(pv[j as int].0 != id@);
                    }
                    if r > j {
                        assert(pv[j as int].0 != id@);
                    }
                }
                return Some(self.0[j].1);
            }
            j += 1;
        }
        proof {
            let r = vid_index(pv, id@);
            if r >= 0 {
                assert(pv[r].0 != id@);
            }
        }
        None
    }
}

} // verus!
