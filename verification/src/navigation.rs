//! Moving through a book and remembering where one was: the reading order
//! (spine) cursor, the list of recently opened books and its keyboard
//! shortcuts, table-of-contents targets, and plain-text views of chapters.
use sha2::Digest;
use vstd::prelude::*;
use vstd::string::StrSliceExecFns;

use crate::paths::{components, file_name, is_absolute, normalized, parent_path, path_join, percent_bytes, utf8_lossy};
use crate::text::{chars_of, join, pieces, push_char, words};

verus! {

// ---------------------------------------------------------------------------
// Recent books
// ---------------------------------------------------------------------------

/// How many books the recent list keeps.
pub const MAX_RECENT_BOOKS: usize = 9;

/// The recent-book index bound to a typed key: `1`..`9` give `0`..`8`;
/// anything else, none.
pub open spec fn shortcut_index(value: Seq<char>) -> Option<usize> {
    if value.len() == 1 && '1' <= value[0] <= '9' {
        Some((value[0] as u32 - '1' as u32) as usize)
    } else {
        None
    }
}

pub fn recent_shortcut_index(value: &str) -> (r: Option<usize>)
    ensures
        r == shortcut_index(value@),
{
    let v = chars_of(value);
    if v.len() == 1 && '1' <= v[0] && v[0] <= '9' {
        let d = v[0] as u32 - '1' as u32;
        Some(d as usize)
    } else {
        None
    }
}

/// The recent list after opening `path`: it moves to the front, appears once,
/// and the list keeps at most nine books.
pub open spec fn remembered(recent: Seq<Seq<char>>, path: Seq<char>) -> Seq<Seq<char>> {
    let moved = seq![path] + recent.filter(other_than(path));
    if moved.len() > MAX_RECENT_BOOKS {
        moved.take(MAX_RECENT_BOOKS as int)
    } else {
        moved
    }
}

/// Whether a path is other than `path`.
pub open spec fn other_than(path: Seq<char>) -> spec_fn(Seq<char>) -> bool {
    |r: Seq<char>| r != path
}

pub open spec fn string_views(v: Seq<String>) -> Seq<Seq<char>> {
    v.map_values(|s: String| s@)
}

/// Records that the book at `path` was opened (its canonical path where
/// the file system gives one); see `remembered`.
pub fn remember_recent_book(recent: &mut Vec<String>, path: String)
    ensures
        string_views(final(recent)@) == remembered(string_views(old(recent)@), path@),
{
    let ghost olds = string_views(recent@);
    let ghost f = other_than(path@);
    let mut kept: Vec<String> = Vec::new();
    kept.push(path.clone());
    let mut i: usize = 0;
    while i < recent.len()
        invariant
            i <= recent.len(),
            olds == string_views(recent@),
            string_views(kept@) == seq![path@] + olds.take(i as int).filter(f),
            f == other_than(path@),
        decreases recent.len() - i,
    {
        proof {
            assert(olds.take(i + 1) =~= olds.take(i as int).push(olds[i as int]));
            olds.take(i as int).lemma_filter_push(olds[i as int], f);
            assert(olds[i as int] == recent@[i as int]@);
        }
        let ghost before = kept@;
        if !crate::text::str_eq(recent[i].as_str(), path.as_str()) {
            kept.push(recent[i].clone());
            assert(string_views(kept@) =~= string_views(before).push(recent@[i as int]@));
        }
        i += 1;
    }
    assert(olds.take(recent.len() as int) =~= olds);
    kept.truncate(MAX_RECENT_BOOKS);
    proof {
        let moved = seq![path@] + olds.filter(f);
        if moved.len() > MAX_RECENT_BOOKS {
            assert(string_views(kept@) =~= moved.take(MAX_RECENT_BOOKS as int));
        }
    }
    *recent = kept;
}

/// The recent book at `index`, if the list is that long.
pub fn recent_book(recent: &[String], index: usize) -> (r: Option<String>)
    ensures
        index < recent.len() ==> r == Some(recent@[index as int]),
        index >= recent.len() ==> r is None,
{
    if index < recent.len() {
        Some(recent[index].clone())
    } else {
        None
    }
}

// ---------------------------------------------------------------------------
// The spine cursor
// ---------------------------------------------------------------------------

/// The reading order of a book and the position in it.
pub struct SpineCursor {
    spine: Vec<String>,
    index: usize,
}

/// The position after a step forward: the next item when there is one.
pub open spec fn next_index(len: nat, index: nat) -> nat {
    if index + 1 < len {
        index + 1
    } else {
        index
    }
}

/// The position after a step back: the previous item when there is one.
pub open spec fn prev_index(index: nat) -> nat {
    if index > 0 {
        (index - 1) as nat
    } else {
        index
    }
}

impl SpineCursor {
    #[verifier::type_invariant]
    spec fn inv(self) -> bool {
        &&& self.spine.len() == 0 ==> self.index == 0
        &&& self.spine.len() > 0 ==> self.index < self.spine.len()
    }

    /// The ids of the reading order.
    pub closed spec fn items(&self) -> Seq<Seq<char>> {
        string_views(self.spine@)
    }

    /// The current position.
    pub closed spec fn position(&self) -> nat {
        self.index as nat
    }

    /// A cursor at the start of a reading order.
    pub fn new(spine: Vec<String>) -> (c: Self)
        ensures
            c.items() == string_views(spine@),
            c.position() == 0,
    {
        SpineCursor { spine, index: 0 }
    }

    pub fn spine_len(&self) -> (n: usize)
        ensures
            n == self.items().len(),
    {
        self.spine.len()
    }

    pub fn spine_index(&self) -> (i: usize)
        ensures
            i == self.position(),
            self.items().len() > 0 ==> i < self.items().len(),
            self.items().len() == 0 ==> i == 0,
    {
        proof {
            use_type_invariant(self);
        }
        self.index
    }

    /// The id at the current position, none for an empty reading order.
    pub fn current_chapter_id(&self) -> (r: Option<&str>)
        ensures
            self.items().len() > 0 ==> (r matches Some(s) && s@ == self.items()[self.position() as int]),
            self.items().len() == 0 ==> r is None,
    {
        proof {
            use_type_invariant(self);
        }
        if self.index < self.spine.len() {
            Some(self.spine[self.index].as_str())
        } else {
            None
        }
    }

    /// Steps to the next item; false at the last one.
    pub fn goto_next(&mut self) -> (moved: bool)
        ensures
            final(self).items() == old(self).items(),
            final(self).position() == next_index(old(self).items().len(), old(self).position()),
            moved == (old(self).position() + 1 < old(self).items().len()),
    {
        proof {
            use_type_invariant(&*self);
        }
        if self.spine.len() > 0 && self.index < self.spine.len() - 1 {
            self.index = self.index + 1;
            true
        } else {
            false
        }
    }

    /// Steps to the previous item; false at the first one.
    pub fn goto_prev(&mut self) -> (moved: bool)
        ensures
            final(self).items() == old(self).items(),
            final(self).position() == prev_index(old(self).position()),
            moved == (old(self).position() > 0),
    {
        proof {
            use_type_invariant(&*self);
        }
        if self.index > 0 {
            self.index = self.index - 1;
            true
        } else {
            false
        }
    }

    /// Goes to item `index` when it exists.
    pub fn goto_spine_index(&mut self, index: usize) -> (moved: bool)
        ensures
            final(self).items() == old(self).items(),
            moved == (index < old(self).items().len()),
            moved ==> final(self).position() == index,
            !moved ==> final(self).position() == old(self).position(),
    {
        if index < self.spine.len() {
            self.index = index;
            true
        } else {
            false
        }
    }

    /// Goes to the first item with id `id`, when there is one.
    pub fn goto_chapter_id(&mut self, id: &str) -> (moved: bool)
        ensures
            final(self).items() == old(self).items(),
            moved == old(self).items().contains(id@),
            moved ==> final(self).items()[final(self).position() as int] == id@ && forall|j: int|
                0 <= j < final(self).position() ==> old(self).items()[j] != id@,
            !moved ==> final(self).position() == old(self).position(),
    {
        let mut i: usize = 0;
        while i < self.spine.len()
            invariant
                i <= self.spine.len(),
                *self == *old(self),
                forall|j: int| 0 <= j < i ==> self.items()[j] != id@,
            decreases self.spine.len() - i,
        {
            proof {
                assert(self.items()[i as int] == self.spine@[i as int]@);
            }
            if crate::text::str_eq(self.spine[i].as_str(), id) {
                self.index = i;
                return true;
            }
            i += 1;
        }
        proof {
            if self.items().contains(id@) {
                let j = choose|j: int| 0 <= j < self.items().len() && self.items()[j] == id@;
                assert(self.items()[j] != id@);
            }
        }
        false
    }

    /// Goes to the first item for which `matches` holds, when there is one.
    pub fn goto_first_match(&mut self, matches: &[bool]) -> (moved: bool)
        ensures
            final(self).items() == old(self).items(),
            moved == exists|j: int| 0 <= j < matches.len() && j < old(self).items().len() && matches@[j],
            moved ==> matches@[final(self).position() as int] && forall|j: int|
                0 <= j < final(self).position() ==> !matches@[j],
            !moved ==> final(self).position() == old(self).position(),
    {
        let mut i: usize = 0;
        while i < self.spine.len() && i < matches.len()
            invariant
                i <= self.spine.len(),
                *self == *old(self),
                forall|j: int| 0 <= j < i && j < matches.len() ==> !matches@[j],
            decreases self.spine.len() - i,
        {
            if matches[i] {
                self.index = i;
                return true;
            }
            i += 1;
        }
        false
    }

    /// Restores a saved position: kept only when the reading order is that long.
    pub fn restore_position(&mut self, saved: usize)
        ensures
            final(self).items() == old(self).items(),
            saved < old(self).items().len() ==> final(self).position() == saved,
            saved >= old(self).items().len() ==> final(self).position() == old(self).position(),
    {
        if saved < self.spine.len() {
            self.index = saved;
        }
    }
}

/// The file a book's reading position is kept in:
/// `<config_dir>/pos_<book id made safe as a file name>.json`.
pub open spec fn position_file_of(config_dir: Seq<char>, book_id: Seq<char>) -> Seq<char> {
    path_join(config_dir, "pos_"@ + crate::paths::sanitized_id(book_id) + ".json"@)
}

pub fn position_file(config_dir: &str, book_id: &str) -> (r: String)
    ensures
        r@ == position_file_of(config_dir@, book_id@),
{
    let mut name = crate::text::string_from(&chars_of("pos_"));
    crate::text::push_str(&mut name, crate::paths::sanitize_id(book_id).as_str());
    crate::text::push_str(&mut name, ".json");
    crate::paths::join_path(config_dir, name.as_str())
}

/// Whether the reading-order item with this resource is a link's target: its
/// path (and whether the file system finds it the same file as the target)
/// when the book could give one; an item without a resource never is.
pub open spec fn resource_matches(resource: Option<(String, bool)>, target: (Seq<char>, Option<Seq<char>>, bool)) -> bool {
    match resource {
        Some((path, same_file)) => toc_match(same_file, path@, target),
        None => false,
    }
}

impl SpineCursor {
    /// Follows a table-of-contents link: goes to the first item of the
    /// reading order whose resource is the link's target, given each item's
    /// resource in reading order; stays put, and says so, when none is.
    pub fn goto_toc_entry(&mut self, target: &TocTarget, resources: &[Option<(String, bool)>]) -> (moved: bool)
        ensures
            final(self).items() == old(self).items(),
            moved == exists|j: int|
                0 <= j < resources.len() && j < old(self).items().len() && resource_matches(
                    resources@[j],
                    target.view_target(),
                ),
            moved ==> resource_matches(resources@[final(self).position() as int], target.view_target())
                && forall|j: int| 0 <= j < final(self).position() ==> !resource_matches(resources@[j], target.view_target()),
            !moved ==> final(self).position() == old(self).position(),
    {
        let mut matches: Vec<bool> = Vec::new();
        let mut i: usize = 0;
        while i < resources.len()
            invariant
                i <= resources.len(),
                matches.len() == i,
                forall|j: int| 0 <= j < i ==> matches@[j] == resource_matches(resources@[j], target.view_target()),
            decreases resources.len() - i,
        {
            let m = match &resources[i] {
                Some((path, same_file)) => toc_entry_matches(*same_file, path.as_str(), target),
                None => false,
            };
            matches.push(m);
            i += 1;
        }
        let ghost t = target.view_target();
        let moved = self.goto_first_match(matches.as_slice());
        proof {
            let n = old(self).items().len();
            if moved {
                let j = choose|j: int| 0 <= j < matches.len() && j < n && matches@[j];
                assert(resource_matches(resources@[j], t));
                let p = self.position() as int;
                assert(matches@[p]);
                assert(p < matches.len());
                assert(resource_matches(resources@[p], t));
                assert forall|k: int| 0 <= k < p implies !resource_matches(resources@[k], t) by {
                    assert(!matches@[k]);
                }
            } else {
                assert forall|j: int| 0 <= j < resources.len() && j < n implies !resource_matches(resources@[j], t) by {
                    assert(matches@[j] == resource_matches(resources@[j], t));
                }
            }
        }
        moved
    }
}

/// A step back undoes a step forward that moved, and a step forward undoes a
/// step back that moved.
pub proof fn lemma_prev_undoes_next(len: nat, index: nat)
    ensures
        index + 1 < len ==> prev_index(next_index(len, index)) == index,
        index > 0 && index < len ==> next_index(len, prev_index(index)) == index,
{
}

// ---------------------------------------------------------------------------
// Table-of-contents targets
// ---------------------------------------------------------------------------

/// What a table-of-contents link points at: its file resolved against the
/// package directory, the file's name, and whether the link names a directory.
pub struct TocTarget {
    pub path: String,
    pub file_name: Option<String>,
    pub has_dir: bool,
}

/// The file part of a link: before the first `#`.
pub open spec fn file_part(href: Seq<char>) -> Seq<char> {
    match crate::text::find_char_from(href, 0, '#') {
        Some(i) => href.take(i),
        None => href,
    }
}

/// Whether a path's parent names anything other than the current directory.
pub open spec fn names_directory(p: Seq<char>) -> bool {
    match parent_path(p) {
        Some(q) => is_absolute(q) || components(q).len() > 0,
        None => false,
    }
}

pub open spec fn slashes_dropped(s: Seq<char>) -> Seq<char> {
    s.skip(crate::paths::leading_slashes(s) as int)
}

/// The file part of a link with its percent-escapes decoded.
pub open spec fn decoded_file_part(href: Seq<char>) -> Seq<char> {
    utf8_lossy(percent_bytes(vstd::utf8::encode_utf8(file_part(href))))
}

pub open spec fn toc_target_of(href: Seq<char>, base_dir: Seq<char>) -> (Seq<char>, Option<Seq<char>>, bool) {
    let d = decoded_file_part(href);
    (normalized(path_join(base_dir, slashes_dropped(d))), file_name(d), names_directory(d))
}

impl TocTarget {
    pub open spec fn view_target(&self) -> (Seq<char>, Option<Seq<char>>, bool) {
        (
            self.path@,
            match self.file_name {
                Some(n) => Some(n@),
                None => None,
            },
            self.has_dir,
        )
    }
}

fn drop_leading_slashes(s: &str) -> (r: String)
    ensures
        r@ == slashes_dropped(s@),
{
    let v = chars_of(s);
    let mut t: usize = 0;
    assert(v@.skip(0) =~= v@);
    while t < v.len() && v[t] == '/'
        invariant
            t <= v.len(),
            v@ == s@,
            crate::paths::leading_slashes(v@) == t + crate::paths::leading_slashes(v@.skip(t as int)),
        decreases v.len() - t,
    {
        assert(v@.skip(t as int).skip(1) =~= v@.skip(t + 1));
        t += 1;
    }
    proof {
        if t < v.len() {
            assert(v@.skip(t as int)[0] == v@[t as int]);
        }
        assert(v@.skip(t as int) =~= v@.subrange(t as int, v@.len() as int));
    }
    crate::text::string_from_range(&v, t, v.len())
}

/// Where a table-of-contents link points, for a book whose package
/// directory is `base_dir`; see `toc_target_of`.
pub fn toc_target(href: &str, base_dir: &str) -> (t: TocTarget)
    ensures
        t.view_target() == toc_target_of(href@, base_dir@),
{
    let v = chars_of(href);
    let end = match crate::text::find_char_exec(&v, 0, '#') {
        Some(i) => i,
        None => v.len(),
    };
    proof {
        crate::text::lemma_find_char_from_result(v@, 0, '#');
        if end == v.len() {
            assert(v@.subrange(0, end as int) =~= v@);
        }
    }
    let part = crate::text::string_from_range(&v, 0, end);
    assert(part@ == file_part(href@));
    let decoded = crate::paths::percent_decode(part.as_str());
    let relative = drop_leading_slashes(decoded.as_str());
    let joined = crate::paths::join_path(base_dir, relative.as_str());
    let path = crate::paths::normalize_path(joined.as_str());
    let dv = chars_of(decoded.as_str());
    let file_name = match crate::paths::file_name_of(&dv) {
        Some(n) => Some(crate::text::string_from(&n)),
        None => None,
    };
    let has_dir = match crate::paths::parent_of(decoded.as_str()) {
        Some(q) => {
            let qv = chars_of(q.as_str());
            (qv.len() > 0 && qv[0] == '/') || crate::paths::component_count(&qv) > 0
        },
        None => false,
    };
    TocTarget { path, file_name, has_dir }
}

/// Whether a reading-order item at `candidate` is the target of a link: it
/// is the same file (`same_file`, as the file system compares them), or the
/// link names no directory and the file names agree.
pub open spec fn toc_match(same_file: bool, candidate: Seq<char>, target: (Seq<char>, Option<Seq<char>>, bool)) -> bool {
    same_file || (!target.2 && target.1 is Some && file_name(candidate) == target.1)
}

pub fn toc_entry_matches(same_file: bool, candidate: &str, target: &TocTarget) -> (r: bool)
    ensures
        r == toc_match(same_file, candidate@, target.view_target()),
{
    if same_file {
        return true;
    }
    if target.has_dir {
        return false;
    }
    match &target.file_name {
        Some(n) => {
            let cv = chars_of(candidate);
            match crate::paths::file_name_of(&cv) {
                Some(c) => crate::text::str_eq(crate::text::string_from(&c).as_str(), n.as_str()),
                None => false,
            }
        },
        None => false,
    }
}

// ---------------------------------------------------------------------------
// Plain text of a chapter
// ---------------------------------------------------------------------------

/// The characters outside tags; each `>` that closes a tag becomes a space.
pub open spec fn outside_tags(s: Seq<char>, in_tag: bool) -> Seq<char>
    decreases s.len(),
{
    if s.len() == 0 {
        Seq::empty()
    } else if s[0] == '<' {
        outside_tags(s.skip(1), true)
    } else if s[0] == '>' {
        seq![' '] + outside_tags(s.skip(1), false)
    } else if !in_tag {
        seq![s[0]] + outside_tags(s.skip(1), in_tag)
    } else {
        outside_tags(s.skip(1), in_tag)
    }
}

/// A rough plain text of a chapter: tags dropped, words joined by one space.
pub open spec fn plaintext(html: Seq<char>) -> Seq<char> {
    join(words(outside_tags(html, false)), seq![' '])
}

pub fn quick_plaintext(html: &str) -> (r: String)
    ensures
        r@ == plaintext(html@),
{
    let v = chars_of(html);
    let mut text: Vec<char> = Vec::new();
    let mut in_tag = false;
    let mut i: usize = 0;
    assert(v@.skip(0) =~= v@);
    while i < v.len()
        invariant
            i <= v.len(),
            v@ == html@,
            text@ + outside_tags(v@.skip(i as int), in_tag) == outside_tags(v@, false),
        decreases v.len() - i,
    {
        let ghost before = text@;
        let ghost rest = v@.skip(i as int);
        let ghost was = in_tag;
        let ch = v[i];
        assert(rest[0] == ch);
        assert(rest.skip(1) =~= v@.skip(i + 1));
        if ch == '<' {
            in_tag = true;
        } else if ch == '>' {
            in_tag = false;
            text.push(' ');
            assert(text@ + outside_tags(v@.skip(i + 1), in_tag) =~= before + outside_tags(rest, was));
        } else if !in_tag {
            text.push(ch);
            assert(text@ + outside_tags(v@.skip(i + 1), in_tag) =~= before + outside_tags(rest, was));
        }
        i += 1;
    }
    assert(v@.skip(v.len() as int) =~= Seq::<char>::empty());
    assert(text@ + Seq::<char>::empty() =~= text@);
    let bounds = crate::text::word_bounds(&text, 0, text.len());
    assert(text@.subrange(0, text@.len() as int) =~= text@);
    let sep = vec![' '];
    assert(sep@ =~= seq![' ']);
    crate::text::join_pieces(&text, &bounds, &sep)
}

/// Whether a chapter has substantial text: its plain text takes more than
/// 3000 bytes in UTF-8.
pub open spec fn is_substantial(html: Seq<char>) -> bool {
    vstd::utf8::encode_utf8(plaintext(html)).len() > 3000
}

pub fn is_substantial_chapter(html: &str) -> (r: bool)
    ensures
        r == is_substantial(html@),
{
    let text = quick_plaintext(html);
    let bytes = text.as_str().as_bytes();
    bytes.len() > 3000
}

pub open spec fn substantial_entry(c: Option<String>) -> bool {
    match c {
        Some(h) => is_substantial(h@),
        None => false,
    }
}

/// The first reading-order item whose chapter has substantial text (see
/// `is_substantial`), given the chapters that could be read; the first item
/// when none has.
pub fn first_content_chapter(chapters: &[Option<String>]) -> (r: usize)
    ensures
        (exists|j: int| 0 <= j < chapters.len() && substantial_entry(#[trigger] chapters@[j])) ==> (r
            < chapters.len() && substantial_entry(chapters@[r as int]) && forall|j: int|
            0 <= j < r ==> !substantial_entry(#[trigger] chapters@[j])),
        !(exists|j: int| 0 <= j < chapters.len() && substantial_entry(#[trigger] chapters@[j])) ==> r == 0,
{
    let mut i: usize = 0;
    while i < chapters.len()
        invariant
            i <= chapters.len(),
            forall|j: int| 0 <= j < i ==> !substantial_entry(#[trigger] chapters@[j]),
        decreases chapters.len() - i,
    {
        if let Some(h) = &chapters[i] {
            if is_substantial_chapter(h.as_str()) {
                return i;
            }
        }
        i += 1;
    }
    0
}

/// The first `max_chars` characters of a text (all of it when shorter).
pub fn truncate_text(text: &str, max_chars: usize) -> (r: &str)
    ensures
        text@.len() <= max_chars ==> r@ == text@,
        text@.len() > max_chars ==> r@ == text@.take(max_chars as int),
{
    let n = text.unicode_len();
    if n <= max_chars {
        return text;
    }
    text.substring_char(0, max_chars)
}

/// The speech engine to run: `piper` when it is on the search path, else the
/// copy installed under `/opt/piper-tts`, when it exists.
pub fn piper_binary(on_path: bool, installed_copy_exists: bool) -> (r: Option<&'static str>)
    ensures
        on_path ==> r == Some("piper"),
        !on_path && installed_copy_exists ==> r == Some("/opt/piper-tts/piper"),
        !on_path && !installed_copy_exists ==> r is None,
{
    if on_path {
        Some("piper")
    } else if installed_copy_exists {
        Some("/opt/piper-tts/piper")
    } else {
        None
    }
}

// ---------------------------------------------------------------------------
// Where a book is unpacked
// ---------------------------------------------------------------------------

/// A name for the SHA-256 digest of a byte string.
pub uninterp spec fn sha256_digest(bytes: Seq<u8>) -> Seq<u8>;

/// `Sha256::digest` from the `sha2` crate, copied into a vector. The
/// contract names the digest and states its length (the hasher's output
/// size is 32 bytes); what the digest is, is not stated.
#[verifier::external_body]
fn sha256(bytes: &[u8]) -> (r: Vec<u8>)
    ensures
        r@ == sha256_digest(bytes@),
        r@.len() == 32,
{
    sha2::Sha256::digest(bytes).to_vec()
}

/// Bytes written as two lower-case hexadecimal digits each, in order (as
/// `{:x}` writes a digest).
pub open spec fn hex_bytes(b: Seq<u8>) -> Seq<char>
    decreases b.len(),
{
    if b.len() == 0 {
        seq![]
    } else {
        hex_bytes(b.drop_last()) + crate::numbers::hex_digits(b.last() as nat, 2)
    }
}

pub open spec fn is_lower_hex(c: char) -> bool {
    ('0' <= c && c <= '9') || ('a' <= c && c <= 'f')
}

proof fn lemma_hex_char_is_lower_hex(d: nat)
    requires
        d < 16,
    ensures
        is_lower_hex(crate::numbers::hex_char(d)),
{
}

pub proof fn lemma_hex_bytes(b: Seq<u8>)
    ensures
        hex_bytes(b).len() == 2 * b.len(),
        forall|i: int| 0 <= i < hex_bytes(b).len() ==> is_lower_hex(#[trigger] hex_bytes(b)[i]),
    decreases b.len(),
{
    if b.len() > 0 {
        lemma_hex_bytes(b.drop_last());
        let n = b.last() as nat;
        let d = crate::numbers::hex_digits(n, 2);
        assert(crate::numbers::hex_digits(n / 16 / 16, 0) =~= Seq::<char>::empty());
        assert(crate::numbers::hex_digits(n / 16, 1) =~= seq![crate::numbers::hex_char((n / 16) % 16)]);
        assert(d =~= seq![crate::numbers::hex_char((n / 16) % 16), crate::numbers::hex_char(n % 16)]);
        lemma_hex_char_is_lower_hex((n / 16) % 16);
        lemma_hex_char_is_lower_hex(n % 16);
        let h = hex_bytes(b);
        let p = hex_bytes(b.drop_last());
        assert forall|i: int| 0 <= i < h.len() implies is_lower_hex(#[trigger] h[i]) by {
            if i < p.len() {
                assert(h[i] == p[i]);
            }
        }
    }
}

/// The folder a book is unpacked into and found again on later runs:
/// `<cache>/gutenreader/epubs/<digest>`, where `<cache>` is the user's cache
/// folder (`.` when there is none) and `<digest>` the book file's SHA-256 in
/// lower-case hexadecimal.
pub open spec fn extraction_dir_of(cache_dir: Option<Seq<char>>, bytes: Seq<u8>) -> Seq<char> {
    let base = match cache_dir {
        Some(d) => d,
        None => "."@,
    };
    path_join(path_join(path_join(base, "gutenreader"@), "epubs"@), hex_bytes(sha256_digest(bytes)))
}

fn hex_string(b: &Vec<u8>) -> (r: String)
    ensures
        r@ == hex_bytes(b@),
{
    let mut r = String::new();
    let mut i: usize = 0;
    while i < b.len()
        invariant
            i <= b.len(),
            r@ == hex_bytes(b@.take(i as int)),
        decreases b.len() - i,
    {
        assert(b@.take(i + 1).drop_last() =~= b@.take(i as int));
        crate::numbers::push_hex(&mut r, b[i] as u64, 2);
        i += 1;
    }
    assert(b@.take(b.len() as int) =~= b@);
    r
}

/// The folder the book with contents `bytes` is unpacked into; see
/// `extraction_dir_of`. Its last part is 64 lower-case hexadecimal digits.
pub fn extraction_dir(cache_dir: Option<&str>, bytes: &[u8]) -> (r: String)
    ensures
        r@ == extraction_dir_of(
            match cache_dir {
                Some(d) => Some(d@),
                None => None,
            },
            bytes@,
        ),
        hex_bytes(sha256_digest(bytes@)).len() == 64,
        forall|i: int|
            0 <= i < 64 ==> is_lower_hex(#[trigger] hex_bytes(sha256_digest(bytes@))[i]),
{
    let digest = sha256(bytes);
    let name = hex_string(&digest);
    proof {
        lemma_hex_bytes(digest@);
    }
    let base = match cache_dir {
        Some(d) => crate::text::string_from(&chars_of(d)),
        None => crate::text::string_from(&chars_of(".")),
    };
    let app = crate::paths::join_path(base.as_str(), "gutenreader");
    let dir = crate::paths::join_path(app.as_str(), "epubs");
    crate::paths::join_path(dir.as_str(), name.as_str())
}

} // verus!
