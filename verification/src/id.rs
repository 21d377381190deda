//! Identifiers: ordered sequences of path segments.
//!
//! An [`Id`] addresses a node of the texture tree and, equally, the menu
//! derived for that node.  The empty sequence is the root.

use vstd::prelude::*;
use vstd::string::StringExecFns;

verus! {

/// An ordered sequence of path segments.  Two identifiers are equal exactly
/// when their segment sequences are equal; the display form joins the
/// segments with `/`.
#[derive(Debug, Eq, Hash)]
pub struct Id(pub Vec<String>);

impl View for Id {
    type V = Seq<Seq<char>>;

    open spec fn view(&self) -> Seq<Seq<char>> {
        self.0.deep_view()
    }
}

/// The deep view of a segment vector indexes to the views of its elements.
pub proof fn lemma_segments_deep_view(v: Vec<String>)
    ensures
        v.deep_view().len() == v@.len(),
        forall|k: int| 0 <= k < v@.len() ==> v.deep_view()[k] == v@[k]@,
{
}

/// The deep view of a segment slice indexes to the views of its elements.
proof fn lemma_str_slice_deep_view(v: &[&str])
    ensures
        v.deep_view().len() == v@.len(),
        forall|k: int| 0 <= k < v@.len() ==> v.deep_view()[k] == v@[k]@,
{
}

impl Clone for Id {
    fn clone(&self) -> (r: Self)
        ensures
            r@ == self@,
            r.0@ == self.0@,
    {
        let n = self.0.len();
        let mut segments: Vec<String> = Vec::new();
        let mut i: usize = 0;
        while i < n
            invariant
                i <= n,
                n == self.0@.len(),
                segments@ =~= self.0@.take(i as int),
            decreases n - i,
        {
            segments.push(self.0[i].clone());
            assert(segments@ =~= self.0@.take(i + 1));
            i += 1;
        }
        proof {
            assert(self.0@.take(n as int) =~= self.0@);
            lemma_segments_deep_view(segments);
            lemma_segments_deep_view(self.0);
            assert(segments.deep_view() =~= self@);
        }
        Id(segments)
    }
}

impl Default for Id {
    /// The root identifier: no segments.
    fn default() -> (r: Self)
        ensures
            r@ =~= Seq::<Seq<char>>::empty(),
    {
        Id(Vec::new())
    }
}

impl PartialEq for Id {
    fn eq(&self, other: &Id) -> (r: bool)
        ensures
            r == (self@ == other@),
    {
        proof {
            lemma_segments_deep_view(self.0);
            lemma_segments_deep_view(other.0);
        }
        if self.0.len() != other.0.len() {
            return false;
        }
        let n = self.0.len();
        let mut i: usize = 0;
        while i < n
            invariant
                n == self.0@.len() == other.0@.len(),
                self@.len() == n == other@.len(),
                i <= n,
                forall|k: int| 0 <= k < i ==> self@[k] == other@[k],
                forall|k: int| 0 <= k < n ==> self@[k] == self.0@[k]@,
                forall|k: int| 0 <= k < n ==> other@[k] == other.0@[k]@,
            decreases n - i,
        {
            if !(self.0[i] == other.0[i]) {
                assert(self@[i as int] != other@[i as int]);
                return false;
            }
            i += 1;
        }
        assert(self@ =~= other@);
        true
    }
}

impl vstd::std_specs::cmp::PartialEqSpecImpl for Id {
    open spec fn obeys_eq_spec() -> bool {
        true
    }

    open spec fn eq_spec(&self, other: &Id) -> bool {
        self@ == other@
    }
}

/// The `/`-joined display form of a segment sequence.
pub open spec fn spec_display(segs: Seq<Seq<char>>) -> Seq<char>
    decreases segs.len(),
{
    if segs.len() == 0 {
        Seq::empty()
    } else {
        spec_display(segs.drop_last()) + (if segs.len() == 1 {
            Seq::empty()
        } else {
            seq!['/']
        }) + segs.last()
    }
}

impl Id {
    /// Constructs an identifier from a slice of segments.
    pub fn new(values: &[&str]) -> (r: Id)
        ensures
            r@ == values.deep_view(),
    {
        let mut segments: Vec<String> = Vec::new();
        let n = values.len();
        let mut i: usize = 0;
        while i < n
            invariant
                i <= n,
                n == values@.len(),
                segments@.len() == i,
                forall|k: int| 0 <= k < i ==> segments@[k]@ == values@[k]@,
            decreases n - i,
        {
            let s: &str = values[i];
            segments.push(String::from_str(s));
            i += 1;
        }
        proof {
            lemma_segments_deep_view(segments);
            lemma_str_slice_deep_view(values);
            assert(segments.deep_view() =~= values.deep_view());
        }
        Id(segments)
    }

    /// Appends a segment in place.
    pub fn push(&mut self, value: String)
        ensures
            final(self)@ == old(self)@.push(value@),
    {
        proof {
            lemma_segments_deep_view(old(self).0);
        }
        self.0.push(value);
        proof {
            lemma_segments_deep_view(self.0);
            assert(final(self)@ =~= old(self)@.push(value@));
        }
    }

    /// Returns a new identifier with `value` appended; `self` is unchanged.
    pub fn extend(&self, value: String) -> (r: Id)
        ensures
            r@ == self@.push(value@),
    {
        let mut id = self.clone();
        id.push(value);
        id
    }

    /// The segment at `index`, or `None` past the end.
    pub fn get(&self, index: usize) -> (r: Option<&str>)
        ensures
            index < self@.len() ==> (r matches Some(s) && s@ == self@[index as int]),
            index >= self@.len() ==> r is None,
    {
        proof {
            lemma_segments_deep_view(self.0);
        }
        if index < self.0.len() {
            Some(self.0[index].as_str())
        } else {
            None
        }
    }

    /// Drops the last segment; the root is its own parent.
    pub fn init(&self) -> (r: Id)
        ensures
            self@.len() > 0 ==> r@ == self@.drop_last(),
            self@.len() == 0 ==> r@ == self@,
    {
        let mut id = self.clone();
        let popped = id.0.pop();
        proof {
            lemma_segments_deep_view(self.0);
            lemma_segments_deep_view(id.0);
            if self@.len() > 0 {
                assert(id.0@ =~= self.0@.drop_last());
                assert(id@ =~= self@.drop_last());
            } else {
                assert(id.0@ =~= self.0@);
                assert(id@ =~= self@);
            }
        }
        id
    }

    /// The number of segments.
    pub fn len(&self) -> (r: usize)
        ensures
            r == self@.len(),
    {
        proof {
            lemma_segments_deep_view(self.0);
        }
        self.0.len()
    }

    /// Whether this is the root identifier (no segments).
    pub fn is_root(&self) -> (r: bool)
        ensures
            r == (self@.len() == 0),
    {
        proof {
            lemma_segments_deep_view(self.0);
        }
        self.0.len() == 0
    }

    /// The `/`-joined display form.
    pub fn display(&self) -> (r: String)
        ensures
            r@ == spec_display(self@),
    {
        proof {
            lemma_segments_deep_view(self.0);
        }
        let mut out = String::new();
        let n = self.0.len();
        let mut i: usize = 0;
        while i < n
            invariant
                i <= n,
                n == self.0@.len(),
                n == self@.len(),
                out@ == spec_display(self@.take(i as int)),
                forall|k: int| 0 <= k < n ==> self@[k] == self.0@[k]@,
            decreases n - i,
        {
            if i > 0 {
                out.append("/");
            }
            out.append(self.0[i].as_str());
            proof {
                reveal_strlit("/");
                let cur = self@.take(i + 1);
                assert(cur.drop_last() =~= self@.take(i as int));
                assert(cur.last() == self@[i as int]);
                assert(out@ =~= spec_display(cur));
            }
            i += 1;
        }
        assert(self@.take(n as int) =~= self@);
        out
    }
}

} // verus!
