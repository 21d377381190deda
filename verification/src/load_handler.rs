//! Folder-name handlers of the asset catalog loader.
//!
//! A handler recognises a folder-name shape and turns the folder's files
//! into `(identifier, handle)` pairs.  Two handlers exist: the tile family
//! (`pointy.<type>_<variant>.<color>`) and the overlays
//! (`overlay_<name>.standard_full`).  File names contribute their trailing
//! number (`<digits>.<extension>`); files of any other shape are dropped.
//!
//! Word characters are ASCII letters, digits and the underscore; greedy
//! capture semantics make the decompositions below unique: the colour starts
//! after the last dot, the variant after the last underscore before it.

use vstd::prelude::*;
use vstd::string::StrSliceExecFns;
use crate::id::{Id, lemma_segments_deep_view};
use crate::texture_tree::TextureHandle;

verus! {

/// A word character: ASCII letter, digit or underscore.
pub open spec fn is_word_char(c: char) -> bool {
    ('a' <= c && c <= 'z') || ('A' <= c && c <= 'Z') || ('0' <= c && c <= '9') || c == '_'
}

/// An ASCII letter or digit.
pub open spec fn is_alnum_char(c: char) -> bool {
    ('a' <= c && c <= 'z') || ('A' <= c && c <= 'Z') || ('0' <= c && c <= '9')
}

/// An ASCII decimal digit.
pub open spec fn is_digit_char(c: char) -> bool {
    '0' <= c && c <= '9'
}

/// Every character of `s` is a word character.
pub open spec fn all_word(s: Seq<char>) -> bool {
    forall|i: int| 0 <= i < s.len() ==> is_word_char(#[trigger] s[i])
}

/// Every character of `s` is a letter or digit.
pub open spec fn all_alnum(s: Seq<char>) -> bool {
    forall|i: int| 0 <= i < s.len() ==> is_alnum_char(#[trigger] s[i])
}

/// The index of the last occurrence of `c` in `s`, or `-1`.
pub open spec fn last_index_of(s: Seq<char>, c: char) -> int
    decreases s.len(),
{
    if s.len() == 0 {
        -1
    } else if s.last() == c {
        s.len() - 1
    } else {
        last_index_of(s.drop_last(), c)
    }
}

/// What [`last_index_of`] returns: the largest index holding `c`, or `-1`
/// when `c` does not occur.
pub proof fn lemma_last_index_of(s: Seq<char>, c: char)
    ensures
        ({
            let r = last_index_of(s, c);
            &&& -1 <= r < s.len()
            &&& r >= 0 ==> s[r] == c
            &&& forall|k: int| r < k < s.len() ==> s[k] != c
        }),
    decreases s.len(),
{
    if s.len() > 0 && s.last() != c {
        lemma_last_index_of(s.drop_last(), c);
        assert forall|k: int| last_index_of(s, c) < k < s.len() implies s[k] != c by {
            if k < s.len() - 1 {
                assert(s.drop_last()[k] == s[k]);
            }
        }
    }
}

/// The start of the maximal digit run ending just before position `d`.
pub open spec fn digit_run_start(s: Seq<char>, d: int) -> int
    decreases d,
{
    if d <= 0 {
        0
    } else if is_digit_char(s[d - 1]) {
        digit_run_start(s, d - 1)
    } else {
        d
    }
}

/// What [`digit_run_start`] returns: digits fill `[start, d)` and the run
/// cannot be extended to the left.
pub proof fn lemma_digit_run_start(s: Seq<char>, d: int)
    requires
        0 <= d <= s.len(),
    ensures
        ({
            let st = digit_run_start(s, d);
            &&& 0 <= st <= d
            &&& forall|k: int| st <= k < d ==> is_digit_char(#[trigger] s[k])
            &&& st > 0 ==> !is_digit_char(s[st - 1])
        }),
    decreases d,
{
    if d > 0 && is_digit_char(s[d - 1]) {
        lemma_digit_run_start(s, d - 1);
    }
}

/// The segment sequence `pointy.` as characters.
pub open spec fn pointy_prefix() -> Seq<char> {
    seq!['p', 'o', 'i', 'n', 't', 'y', '.']
}

/// The prefix `overlay_` as characters.
pub open spec fn overlay_prefix() -> Seq<char> {
    seq!['o', 'v', 'e', 'r', 'l', 'a', 'y', '_']
}

/// The suffix `.standard_full` as characters.
pub open spec fn standard_full_suffix() -> Seq<char> {
    seq!['.', 's', 't', 'a', 'n', 'd', 'a', 'r', 'd', '_', 'f', 'u', 'l', 'l']
}

/// The fixed first segment of overlay identifiers.
pub open spec fn overlay_segment() -> Seq<char> {
    seq!['o', 'v', 'e', 'r', 'l', 'a', 'y']
}

/// The captures of the tile-family folder pattern
/// `pointy.<tile_type>_<tile_variant>.<color>`: the type is one or more
/// word characters (greedily including underscores up to the last one
/// before the final dot), the variant zero or more letters and digits, the
/// colour zero or more word characters.
pub open spec fn spec_tile_folder(s: Seq<char>) -> Option<(Seq<char>, Seq<char>, Seq<char>)> {
    let d = last_index_of(s, '.');
    if s.len() >= 8 && s.take(7) == pointy_prefix() && d >= 8 {
        let middle = s.subrange(7, d);
        let color = s.skip(d + 1);
        let u = last_index_of(middle, '_');
        if u >= 1 {
            let t = middle.take(u);
            let v = middle.skip(u + 1);
            if all_word(t) && all_alnum(v) && all_word(color) {
                Some((t, v, color))
            } else {
                None
            }
        } else {
            None
        }
    } else {
        None
    }
}

/// The capture of the overlay folder pattern
/// `overlay_<name>.standard_full`: the name is one or more word characters.
pub open spec fn spec_overlay_folder(s: Seq<char>) -> Option<Seq<char>> {
    if s.len() >= 23 && s.take(8) == overlay_prefix() && s.skip(s.len() - 14)
        == standard_full_suffix() {
        let nm = s.subrange(8, s.len() - 14);
        if nm.len() >= 1 && all_word(nm) {
            Some(nm)
        } else {
            None
        }
    } else {
        None
    }
}

/// The `number` capture of the file pattern `<digits>.<extension>` applied
/// as a search: the maximal digit run just before the last dot, whose tail
/// is made of word characters.
pub open spec fn spec_file_number(s: Seq<char>) -> Option<Seq<char>> {
    let d = last_index_of(s, '.');
    if d >= 1 {
        let st = digit_run_start(s, d);
        if st < d && all_word(s.skip(d + 1)) {
            Some(s.subrange(st, d))
        } else {
            None
        }
    } else {
        None
    }
}

/// Executable check that `c` is a word character.
fn word_char(c: char) -> (r: bool)
    ensures
        r == is_word_char(c),
{
    ('a' <= c && c <= 'z') || ('A' <= c && c <= 'Z') || ('0' <= c && c <= '9') || c == '_'
}

/// Executable check that `c` is a letter or digit.
fn alnum_char(c: char) -> (r: bool)
    ensures
        r == is_alnum_char(c),
{
    ('a' <= c && c <= 'z') || ('A' <= c && c <= 'Z') || ('0' <= c && c <= '9')
}

/// Executable check that `c` is a digit.
fn digit_char(c: char) -> (r: bool)
    ensures
        r == is_digit_char(c),
{
    '0' <= c && c <= '9'
}

/// The last occurrence of `c` in `s`, if any.
fn find_last(s: &str, c: char) -> (r: Option<usize>)
    ensures
        match r {
            Some(d) => last_index_of(s@, c) == d as int,
            None => last_index_of(s@, c) == -1,
        },
{
    proof {
        lemma_last_index_of(s@, c);
    }
    let n = s.unicode_len();
    let mut i: usize = n;
    while i > 0
        invariant
            i <= n,
            n == s@.len(),
            forall|k: int| i <= k < n ==> s@[k] != c,
            -1 <= last_index_of(s@, c) < s@.len(),
            last_index_of(s@, c) >= 0 ==> s@[last_index_of(s@, c)] == c,
            forall|k: int| last_index_of(s@, c) < k < s@.len() ==> s@[k] != c,
        decreases i,
    {
        let ch = s.get_char(i - 1);
        if ch == c {
            proof {
                let r = last_index_of(s@, c);
                assert(s@[i - 1] == c);
                if r < i - 1 {
                    assert(s@[i - 1] != c);
                }
                if r > i - 1 {
                    assert(s@[r] != c);
                }
            }
            return Some(i - 1);
        }
        i -= 1;
    }
    proof {
        let r = last_index_of(s@, c);
        if r >= 0 {
            assert(s@[r] != c);
        }
    }
    None
}

/// Whether `s[from..to)` is all word characters.
fn range_all_word(s: &str, from: usize, to: usize) -> (r: bool)
    requires
        from <= to <= s@.len(),
    ensures
        r == all_word(s@.subrange(from as int, to as int)),
{
    let ghost sub = s@.subrange(from as int, to as int);
    let mut i: usize = from;
    while i < to
        invariant
            from <= i <= to <= s@.len(),
            sub == s@.subrange(from as int, to as int),
            forall|k: int| 0 <= k < i - from ==> is_word_char(#[trigger] sub[k]),
        decreases to - i,
    {
        let ch = s.get_char(i);
        assert(sub[i - from] == s@[i as int]);
        if !word_char(ch) {
            return false;
        }
        i += 1;
    }
    true
}

/// Whether `s[from..to)` is all letters and digits.
fn range_all_alnum(s: &str, from: usize, to: usize) -> (r: bool)
    requires
        from <= to <= s@.len(),
    ensures
        r == all_alnum(s@.subrange(from as int, to as int)),
{
    let ghost sub = s@.subrange(from as int, to as int);
    let mut i: usize = from;
    while i < to
        invariant
            from <= i <= to <= s@.len(),
            sub == s@.subrange(from as int, to as int),
            forall|k: int| 0 <= k < i - from ==> is_alnum_char(#[trigger] sub[k]),
        decreases to - i,
    {
        let ch = s.get_char(i);
        assert(sub[i - from] == s@[i as int]);
        if !alnum_char(ch) {
            return false;
        }
        i += 1;
    }
    true
}

/// The start of the digit run ending at `d`, executable form.
fn digit_run_start_exec(s: &str, d: usize) -> (st: usize)
    requires
        d <= s@.len(),
    ensures
        st as int == digit_run_start(s@, d as int),
{
    let mut st: usize = d;
    while st > 0
        invariant
            st <= d <= s@.len(),
            digit_run_start(s@, d as int) == digit_run_start(s@, st as int),
        decreases st,
    {
        if digit_char(s.get_char(st - 1)) {
            st -= 1;
        } else {
            return st;
        }
    }
    st
}

/// Parses a tile-family folder name, yielding the `(tile_type,
/// tile_variant, color)` captures exactly when the name matches the
/// pattern.
pub fn parse_tile_folder(name: &str) -> (r: Option<(String, String, String)>)
    ensures
        match r {
            Some(c) => spec_tile_folder(name@) == Some((c.0@, c.1@, c.2@)),
            None => spec_tile_folder(name@) is None,
        },
{
    let n = name.unicode_len();
    if n < 8 {
        return None;
    }
    if name.get_char(0) != 'p' || name.get_char(1) != 'o' || name.get_char(2) != 'i'
        || name.get_char(3) != 'n' || name.get_char(4) != 't' || name.get_char(5) != 'y'
        || name.get_char(6) != '.' {
        proof {
            assert forall|k: int| 0 <= k < 7 implies #[trigger] name@.take(7)[k] == name@[k] by {}
            if name@.take(7) == pointy_prefix() {
                assert(name@[0] == 'p' && name@[1] == 'o' && name@[2] == 'i' && name@[3] == 'n'
                    && name@[4] == 't' && name@[5] == 'y' && name@[6] == '.');
            }
        }
        return None;
    }
    proof {
        assert(name@.take(7) =~= pointy_prefix());
    }
    let d = match find_last(name, '.') {
        Some(d) => d,
        None => {
            return None;
        },
    };
    if d < 8 {
        return None;
    }
    proof {
        lemma_last_index_of(name@, '.');
    }
    let middle = name.substring_char(7, d);
    proof {
        assert(middle@ == name@.subrange(7, d as int));
    }
    let u = match find_last(middle, '_') {
        Some(u) => u,
        None => {
            return None;
        },
    };
    if u < 1 {
        return None;
    }
    proof {
        lemma_last_index_of(middle@, '_');
    }
    let middle_len = middle.unicode_len();
    if !range_all_word(middle, 0, u) {
        proof {
            assert(middle@.subrange(0, u as int) =~= middle@.take(u as int));
        }
        return None;
    }
    if !range_all_alnum(middle, u + 1, middle_len) {
        proof {
            assert(middle@.subrange(u + 1, middle_len as int) =~= middle@.skip(u + 1));
        }
        return None;
    }
    if !range_all_word(name, d + 1, n) {
        proof {
            assert(name@.subrange(d + 1, n as int) =~= name@.skip(d + 1));
        }
        return None;
    }
    let t = middle.substring_char(0, u).to_owned();
    let v = middle.substring_char(u + 1, middle_len).to_owned();
    let c = name.substring_char(d + 1, n).to_owned();
    proof {
        assert(middle@.subrange(0, u as int) =~= middle@.take(u as int));
        assert(middle@.subrange(u + 1, middle_len as int) =~= middle@.skip(u + 1));
        assert(name@.subrange(d + 1, n as int) =~= name@.skip(d + 1));
    }
    Some((t, v, c))
}

/// Parses an overlay folder name, yielding the `name` capture exactly when
/// the folder matches the pattern.
pub fn parse_overlay_folder(name: &str) -> (r: Option<String>)
    ensures
        match r {
            Some(nm) => spec_overlay_folder(name@) == Some(nm@),
            None => spec_overlay_folder(name@) is None,
        },
{
    let n = name.unicode_len();
    if n < 23 {
        return None;
    }
    if name.get_char(0) != 'o' || name.get_char(1) != 'v' || name.get_char(2) != 'e'
        || name.get_char(3) != 'r' || name.get_char(4) != 'l' || name.get_char(5) != 'a'
        || name.get_char(6) != 'y' || name.get_char(7) != '_' {
        proof {
            assert forall|k: int| 0 <= k < 8 implies #[trigger] name@.take(8)[k] == name@[k] by {}
            if name@.take(8) == overlay_prefix() {
                assert(name@[0] == 'o' && name@[1] == 'v' && name@[2] == 'e' && name@[3] == 'r'
                    && name@[4] == 'l' && name@[5] == 'a' && name@[6] == 'y' && name@[7] == '_');
            }
        }
        return None;
    }
    proof {
        assert(name@.take(8) =~= overlay_prefix());
    }
    let s = n - 14;
    if name.get_char(s) != '.' || name.get_char(s + 1) != 's' || name.get_char(s + 2) != 't'
        || name.get_char(s + 3) != 'a' || name.get_char(s + 4) != 'n' || name.get_char(s + 5)
        != 'd' || name.get_char(s + 6) != 'a' || name.get_char(s + 7) != 'r' || name.get_char(
        s + 8,
    ) != 'd' || name.get_char(s + 9) != '_' || name.get_char(s + 10) != 'f' || name.get_char(
        s + 11,
    ) != 'u' || name.get_char(s + 12) != 'l' || name.get_char(s + 13) != 'l' {
        proof {
            assert forall|k: int| 0 <= k < 14 implies #[trigger] name@.skip(s as int)[k] == name@[s
                + k] by {}
            if name@.skip(s as int) == standard_full_suffix() {
                assert(name@[s as int] == '.' && name@[s + 1] == 's' && name@[s + 2] == 't'
                    && name@[s + 3] == 'a' && name@[s + 4] == 'n' && name@[s + 5] == 'd' && name@[s
                    + 6] == 'a' && name@[s + 7] == 'r' && name@[s + 8] == 'd' && name@[s + 9] == '_'
                    && name@[s + 10] == 'f' && name@[s + 11] == 'u' && name@[s + 12] == 'l'
                    && name@[s + 13] == 'l');
            }
        }
        return None;
    }
    proof {
        assert forall|k: int| 0 <= k < 14 implies #[trigger] name@.skip(s as int)[k]
            == standard_full_suffix()[k] by {}
        assert(name@.skip(s as int) =~= standard_full_suffix());
    }
    if !range_all_word(name, 8, s) {
        proof {
            assert(name@.subrange(8, s as int) == name@.subrange(8, n - 14));
        }
        return None;
    }
    let nm = name.substring_char(8, s).to_owned();
    Some(nm)
}

/// Extracts the trailing number of a file name, exactly when the file
/// matches the inner pattern.
pub fn parse_file_number(file: &str) -> (r: Option<String>)
    ensures
        match r {
            Some(num) => spec_file_number(file@) == Some(num@),
            None => spec_file_number(file@) is None,
        },
{
    let n = file.unicode_len();
    let d = match find_last(file, '.') {
        Some(d) => d,
        None => {
            return None;
        },
    };
    if d < 1 {
        return None;
    }
    proof {
        lemma_last_index_of(file@, '.');
    }
    if !range_all_word(file, d + 1, n) {
        proof {
            assert(file@.subrange(d + 1, n as int) =~= file@.skip(d + 1));
        }
        return None;
    }
    proof {
        assert(file@.subrange(d + 1, n as int) =~= file@.skip(d + 1));
    }
    proof {
        lemma_digit_run_start(file@, d as int);
    }
    let st = digit_run_start_exec(file, d);
    if st == d {
        return None;
    }
    Some(file.substring_char(st, d).to_owned())
}

/// A registered folder-name handler, in the loader's registration order.
#[derive(Debug, Clone, Copy, PartialEq, Eq, Structural)]
pub enum LoadHandler {
    /// Folders of the shape `pointy.<tile_type>_<tile_variant>.<color>`.
    TileFamily,
    /// Folders of the shape `overlay_<name>.standard_full`.
    Overlay,
}

/// The view of emitted pairs: identifier segments and raw handles.
pub open spec fn entries_view(es: Seq<(Id, TextureHandle)>) -> Seq<(Seq<Seq<char>>, u64)> {
    es.map(|i: int, e: (Id, TextureHandle)| (e.0@, e.1.0))
}

/// The pairs a tile-family folder contributes: `[type, variant, color,
/// number]` for each file with a recognised number, in file order.
pub open spec fn spec_tile_entries(
    t: Seq<char>,
    v: Seq<char>,
    c: Seq<char>,
    files: Seq<(String, TextureHandle)>,
) -> Seq<(Seq<Seq<char>>, u64)>
    decreases files.len(),
{
    if files.len() == 0 {
        Seq::empty()
    } else {
        let rest = spec_tile_entries(t, v, c, files.drop_last());
        match spec_file_number(files.last().0@) {
            Some(num) => rest.push((seq![t, v, c, num], files.last().1.0)),
            None => rest,
        }
    }
}

/// The pairs an overlay folder contributes: `[overlay, name, number]` for
/// each file with a recognised number, in file order.
pub open spec fn spec_overlay_entries(nm: Seq<char>, files: Seq<(String, TextureHandle)>) -> Seq<
    (Seq<Seq<char>>, u64),
>
    decreases files.len(),
{
    if files.len() == 0 {
        Seq::empty()
    } else {
        let rest = spec_overlay_entries(nm, files.drop_last());
        match spec_file_number(files.last().0@) {
            Some(num) => rest.push((seq![overlay_segment(), nm, num], files.last().1.0)),
            None => rest,
        }
    }
}

/// Whether a handler's folder pattern matches the folder name.
pub open spec fn spec_handler_matches(h: LoadHandler, folder: Seq<char>) -> bool {
    match h {
        LoadHandler::TileFamily => spec_tile_folder(folder) is Some,
        LoadHandler::Overlay => spec_overlay_folder(folder) is Some,
    }
}

/// What a handler emits for a folder: `None` when the folder name does not
/// match its pattern.
pub open spec fn spec_handler_entries(
    h: LoadHandler,
    folder: Seq<char>,
    files: Seq<(String, TextureHandle)>,
) -> Option<Seq<(Seq<Seq<char>>, u64)>> {
    match h {
        LoadHandler::TileFamily => match spec_tile_folder(folder) {
            Some(cap) => Some(spec_tile_entries(cap.0, cap.1, cap.2, files)),
            None => None,
        },
        LoadHandler::Overlay => match spec_overlay_folder(folder) {
            Some(nm) => Some(spec_overlay_entries(nm, files)),
            None => None,
        },
    }
}

impl LoadHandler {
    /// Applies the handler to a loaded folder: `None` when the folder name
    /// does not match the pattern, else the contributed pairs in file order.
    pub fn handle(&self, folder_name: &str, files: &Vec<(String, TextureHandle)>) -> (r: Option<
        Vec<(Id, TextureHandle)>,
    >)
        ensures
            (r is Some) == spec_handler_matches(*self, folder_name@),
            match r {
                Some(out) => spec_handler_entries(*self, folder_name@, files@) == Some(
                    entries_view(out@),
                ),
                None => true,
            },
    {
        match self {
            LoadHandler::TileFamily => {
                let cap = match parse_tile_folder(folder_name) {
                    Some(cap) => cap,
                    None => {
                        return None;
                    },
                };
                let (t, v, c) = cap;
                let mut out: Vec<(Id, TextureHandle)> = Vec::new();
                let n = files.len();
                let mut i: usize = 0;
                proof {
                    assert(files@.take(0) =~= Seq::<(String, TextureHandle)>::empty());
                    assert(entries_view(out@) =~= Seq::<(Seq<Seq<char>>, u64)>::empty());
                }
                while i < n
                    invariant
                        i <= n,
                        n == files@.len(),
                        spec_tile_folder(folder_name@) == Some((t@, v@, c@)),
                        entries_view(out@) == spec_tile_entries(t@, v@, c@, files@.take(i as int)),
                    decreases n - i,
                {
                    let ghost old_out = out@;
                    let ghost cur = files@.take(i + 1);
                    proof {
                        assert(cur.drop_last() =~= files@.take(i as int));
                        assert(cur.last() == files@[i as int]);
                    }
                    match parse_file_number(files[i].0.as_str()) {
                        Some(num) => {
                            let ghost numv = num@;
                            let mut segs: Vec<String> = Vec::new();
                            segs.push(t.clone());
                            segs.push(v.clone());
                            segs.push(c.clone());
                            segs.push(num);
                            let id = Id(segs);
                            proof {
                                lemma_segments_deep_view(id.0);
                                assert(id@ =~= seq![t@, v@, c@, numv]);
                            }
                            out.push((id, files[i].1));
                            proof {
                                let prev = entries_view(old_out);
                                let now = entries_view(out@);
                                let entry = (seq![t@, v@, c@, numv], files@[i as int].1.0);
                                assert forall|k: int| 0 <= k < now.len() implies #[trigger] now[k]
                                    == prev.push(entry)[k] by {
                                    assert(now[k] == (out@[k].0@, out@[k].1.0));
                                    if k < now.len() - 1 {
                                        assert(out@[k] == old_out[k]);
                                        assert(prev[k] == (old_out[k].0@, old_out[k].1.0));
                                    }
                                }
                                assert(now =~= prev.push(entry));
                                assert(spec_tile_entries(t@, v@, c@, cur) == prev.push(entry));
                            }
                        },
                        None => {
                            proof {
                                assert(spec_tile_entries(t@, v@, c@, cur) == entries_view(out@));
                            }
                        },
                    }
                    i += 1;
                }
                proof {
                    assert(files@.take(n as int) =~= files@);
                }
                Some(out)
            },
            LoadHandler::Overlay => {
                let nm = match parse_overlay_folder(folder_name) {
                    Some(nm) => nm,
                    None => {
                        return None;
                    },
                };
                let overlay_seg: String = "overlay".to_owned();
                proof {
                    reveal_strlit("overlay");
                    assert(overlay_seg@ =~= overlay_segment());
                }
                let mut out: Vec<(Id, TextureHandle)> = Vec::new();
                let n = files.len();
                let mut i: usize = 0;
                proof {
                    assert(files@.take(0) =~= Seq::<(String, TextureHandle)>::empty());
                    assert(entries_view(out@) =~= Seq::<(Seq<Seq<char>>, u64)>::empty());
                }
                while i < n
                    invariant
                        i <= n,
                        n == files@.len(),
                        spec_overlay_folder(folder_name@) == Some(nm@),
                        overlay_seg@ == overlay_segment(),
                        entries_view(out@) == spec_overlay_entries(nm@, files@.take(i as int)),
                    decreases n - i,
                {
                    let ghost old_out = out@;
                    let ghost cur = files@.take(i + 1);
                    proof {
                        assert(cur.drop_last() =~= files@.take(i as int));
                        assert(cur.last() == files@[i as int]);
                    }
                    match parse_file_number(files[i].0.as_str()) {
                        Some(num) => {
                            let ghost numv = num@;
                            let mut segs: Vec<String> = Vec::new();
                            segs.push(overlay_seg.clone());
                            segs.push(nm.clone());
                            segs.push(num);
                            let id = Id(segs);
                            proof {
                                lemma_segments_deep_view(id.0);
                                assert(id@ =~= seq![overlay_segment(), nm@, numv]);
                            }
                            out.push((id, files[i].1));
                            proof {
                                let prev = entries_view(old_out);
                                let now = entries_view(out@);
                                let entry = (
                                    seq![overlay_segment(), nm@, numv],
                                    files@[i as int].1.0,
                                );
                                assert forall|k: int| 0 <= k < now.len() implies #[trigger] now[k]
                                    == prev.push(entry)[k] by {
                                    assert(now[k] == (out@[k].0@, out@[k].1.0));
                                    if k < now.len() - 1 {
                                        assert(out@[k] == old_out[k]);
                                        assert(prev[k] == (old_out[k].0@, old_out[k].1.0));
                                    }
                                }
                                assert(now =~= prev.push(entry));
                                assert(spec_overlay_entries(nm@, cur) == prev.push(entry));
                            }
                        },
                        None => {
                            proof {
                                assert(spec_overlay_entries(nm@, cur) == entries_view(out@));
                            }
                        },
                    }
                    i += 1;
                }
                proof {
                    assert(files@.take(n as int) =~= files@);
                }
                Some(out)
            },
        }
    }
}

} // verus!
