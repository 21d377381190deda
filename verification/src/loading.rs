//! Catalog assembly: registering the folder handlers, folding each loaded
//! folder's textures into the collected map, and publishing the finished
//! tree.
//!
//! The surrounding program enumerates the asset folders and polls their
//! asynchronous loads; once a folder is fully loaded it hands the folder
//! name and the `(file name, handle)` pairs to
//! [`process_loaded_folder`], and when no load is outstanding it calls
//! [`transform_textures`].

use vstd::prelude::*;
use crate::errors::TreeError;
use crate::load_handler::{
    LoadHandler, entries_view, spec_handler_entries, spec_handler_matches,
};
use crate::resources::{LoadHandlers, TextureTreeResource, TexturesMap, view_insert_entries};
use crate::texture_tree::{
    SpecNode, TextureHandle, TextureNode, lookup_is_branch, spec_build,
};

verus! {

/// Registers the two folder handlers, the tile family first: the first
/// whose pattern matches a folder's name handles that folder.
pub fn register_load_handlers() -> (r: LoadHandlers)
    ensures
        r.0@ == seq![LoadHandler::TileFamily, LoadHandler::Overlay],
{
    let mut v: Vec<LoadHandler> = Vec::new();
    v.push(LoadHandler::TileFamily);
    v.push(LoadHandler::Overlay);
    proof {
        assert(v@ =~= seq![LoadHandler::TileFamily, LoadHandler::Overlay]);
    }
    LoadHandlers(v)
}

/// The entries emitted by the first handler whose pattern matches, `None`
/// when none does.
pub open spec fn spec_first_match(
    hs: Seq<LoadHandler>,
    folder: Seq<char>,
    files: Seq<(String, TextureHandle)>,
) -> Option<Seq<(Seq<Seq<char>>, u64)>>
    decreases hs.len(),
{
    if hs.len() == 0 {
        None
    } else if spec_handler_matches(hs[0], folder) {
        spec_handler_entries(hs[0], folder, files)
    } else {
        spec_first_match(hs.drop_first(), folder, files)
    }
}

/// Folds one fully loaded folder into the collected texture map: the first
/// handler whose pattern matches the folder name emits `(identifier,
/// handle)` pairs, which are inserted in order; a folder no handler
/// recognises leaves the map unchanged (the caller logs and skips it).
pub fn process_loaded_folder(
    handlers: &LoadHandlers,
    folder_name: &str,
    files: &Vec<(String, TextureHandle)>,
    textures: &mut TexturesMap,
) -> (matched: bool)
    requires
        old(textures).wf(),
    ensures
        final(textures).wf(),
        matched == (spec_first_match(handlers.0@, folder_name@, files@) is Some),
        match spec_first_match(handlers.0@, folder_name@, files@) {
            Some(ev) => entries_view(final(textures).0@) == view_insert_entries(
                entries_view(old(textures).0@),
                ev,
            ),
            None => final(textures).0@ == old(textures).0@,
        },
{
    let ghost hs = handlers.0@;
    let ghost fv = folder_name@;
    let hn = handlers.0.len();
    let mut hi: usize = 0;
    proof {
        assert(hs.skip(0) =~= hs);
    }
    while hi < hn
        invariant
            hi <= hn,
            hn == hs.len(),
            hs == handlers.0@,
            fv == folder_name@,
            textures.0@ == old(textures).0@,
            textures.wf(),
            spec_first_match(hs, fv, files@) == spec_first_match(hs.skip(hi as int), fv, files@),
        decreases hn - hi,
    {
        let handler = handlers.0[hi];
        proof {
            assert(hs.skip(hi as int)[0] == hs[hi as int]);
            assert(hs.skip(hi as int).drop_first() =~= hs.skip(hi + 1));
        }
        match handler.handle(folder_name, files) {
            Some(out) => {
                let ghost ev = entries_view(out@);
                proof {
                    assert(spec_first_match(hs, fv, files@) == Some(ev));
                }
                let ghost base = entries_view(textures.0@);
                let en = out.len();
                let mut ei: usize = 0;
                proof {
                    assert(ev.take(0) =~= Seq::<(Seq<Seq<char>>, u64)>::empty());
                }
                while ei < en
                    invariant
                        ei <= en,
                        en == out@.len(),
                        ev == entries_view(out@),
                        ev.len() == en,
                        textures.wf(),
                        entries_view(textures.0@) == view_insert_entries(
                            base,
                            ev.take(ei as int),
                        ),
                        forall|k: int|
                            0 <= k < en ==> #[trigger] ev[k] == (out@[k].0@, out@[k].1.0),
                    decreases en - ei,
                {
                    let id = out[ei].0.clone();
                    let h = out[ei].1;
                    textures.insert(id, h);
                    proof {
                        let cur = ev.take(ei + 1);
                        assert(cur.drop_last() =~= ev.take(ei as int));
                        assert(cur.last() == ev[ei as int]);
                    }
                    ei += 1;
                }
                proof {
                    assert(ev.take(en as int) =~= ev);
                }
                return true;
            },
            None => {
                proof {
                    assert(spec_first_match(hs.skip(hi as int), fv, files@) == spec_first_match(
                        hs.skip(hi + 1),
                        fv,
                        files@,
                    ));
                }
            },
        }
        hi += 1;
    }
    proof {
        assert(hs.skip(hn as int) =~= Seq::<LoadHandler>::empty());
    }
    false
}

/// Publishes the finished catalog: builds the texture tree from the
/// collected pairs.  On success every collected identifier resolves to a
/// leaf carrying its handle and every strict prefix to a branch; a path
/// conflict among the collected pairs surfaces as the error.
pub fn transform_textures(textures: TexturesMap) -> (r: Result<TextureTreeResource, TreeError>)
    requires
        textures.wf(),
    ensures
        match r {
            Ok(res) => {
                &&& spec_build(textures.0@) == Some(res.0@)
                &&& res.0@.wf()
                &&& res.0@ is Branch
                &&& forall|k: int|
                    0 <= k < textures.0@.len() ==> res.0@.lookup((#[trigger] textures.0@[k]).0@)
                        == Some(SpecNode::Leaf(textures.0@[k].1.0))
                &&& forall|k: int, j: int|
                    0 <= k < textures.0@.len() && 0 <= j < textures.0@[k].0@.len()
                        ==> lookup_is_branch(res.0@, #[trigger] textures.0@[k].0@.take(j))
            },
            Err(_) => spec_build(textures.0@) is None,
        },
{
    match TextureNode::new(&textures.0) {
        Ok(t) => Ok(TextureTreeResource(t)),
        Err(e) => Err(e),
    }
}

} // verus!
