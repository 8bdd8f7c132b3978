//! Properties that hold across the library's operations, stated over the
//! same models their contracts use.
use vstd::prelude::*;

use crate::annotations::Annotation;
use crate::assoc::{assoc, lemma_or_insert, or_insert};
use crate::fonts::{font_name_key, resolution, with_variant, MapView};
use crate::library::{fallback_key, hash_key, is_ascii_hex, is_usable_hash};
use crate::navigation::{remembered, MAX_RECENT_BOOKS};
use crate::project::{kind_rank, resource_le, xml_escaped, ManifestItem};
use crate::sorting::{is_sorted_by, lemma_sorted_by, lemma_text_le_total_preorder, sorted_by, total_preorder};
use crate::text::replace_all;
use crate::tts::{voice_le, VoiceInfo};
use crate::viewer::{turns_of, viewer_step, ViewerMessage, ViewerState};

verus! {

// ---------------------------------------------------------------------------
// Recent books
// ---------------------------------------------------------------------------

/// After a book is opened it heads the recent list, the list never holds
/// more than nine books, and a list without repeats stays without repeats.
pub proof fn law_recent_books(recent: Seq<Seq<char>>, path: Seq<char>)
    ensures
        remembered(recent, path).len() >= 1,
        remembered(recent, path)[0] == path,
        remembered(recent, path).len() <= MAX_RECENT_BOOKS,
        recent.no_duplicates() ==> remembered(recent, path).no_duplicates(),
        forall|i: int| 1 <= i < remembered(recent, path).len() ==> #[trigger] remembered(recent, path)[i] != path,
{
    let f = crate::navigation::other_than(path);
    let kept = recent.filter(f);
    let moved = seq![path] + kept;
    assert(remembered(recent, path) == if moved.len() > MAX_RECENT_BOOKS {
        moved.take(MAX_RECENT_BOOKS as int)
    } else {
        moved
    });
    assert forall|i: int| 0 <= i < kept.len() implies #[trigger] kept[i] != path by {
        assert(f(kept[i]));
    }
    assert forall|i: int| 1 <= i < moved.len() implies #[trigger] moved[i] != path by {
        assert(moved[i] == kept[i - 1]);
    }
    if recent.no_duplicates() {
        lemma_filter_no_duplicates(recent, f);
        assert forall|i: int, j: int| 0 <= i < moved.len() && 0 <= j < moved.len() && i != j implies moved[i] != moved[j] by {
            if i > 0 && j > 0 {
                assert(moved[i] == kept[i - 1] && moved[j] == kept[j - 1]);
            } else if i == 0 {
                assert(moved[j] == kept[j - 1]);
            } else {
                assert(moved[i] == kept[i - 1]);
            }
        }
    }
    let r = remembered(recent, path);
    if moved.len() > MAX_RECENT_BOOKS {
        assert forall|i: int| 1 <= i < r.len() implies #[trigger] r[i] != path by {
            assert(r[i] == moved[i]);
        }
    }
}

proof fn lemma_filter_no_duplicates<A>(s: Seq<A>, f: spec_fn(A) -> bool)
    requires
        s.no_duplicates(),
    ensures
        s.filter(f).no_duplicates(),
    decreases s.len(),
{
    broadcast use vstd::seq_lib::group_filter_ensures;

    if s.len() > 0 {
        let t = s.drop_last();
        assert(t.no_duplicates());
        lemma_filter_no_duplicates(t, f);
        assert(s =~= t.push(s.last()));
        t.lemma_filter_push(s.last(), f);
        if f(s.last()) {
            assert(!t.contains(s.last())) by {
                if t.contains(s.last()) {
                    let k = choose|k: int| 0 <= k < t.len() && t[k] == s.last();
                    assert(s[k] == s[s.len() - 1]);
                }
            }
            assert(!t.filter(f).contains(s.last())) by {
                if t.filter(f).contains(s.last()) {
                    t.lemma_filter_contains_rev(f, s.last());
                }
            }
            let r = t.filter(f).push(s.last());
            assert forall|i: int, j: int| 0 <= i < r.len() && 0 <= j < r.len() && i != j implies r[i] != r[j] by {
                if i == r.len() - 1 {
                    assert(r[j] == t.filter(f)[j]);
                } else if j == r.len() - 1 {
                    assert(r[i] == t.filter(f)[i]);
                } else {
                    assert(r[i] == t.filter(f)[i] && r[j] == t.filter(f)[j]);
                }
            }
        }
    }
}

// ---------------------------------------------------------------------------
// Annotations
// ---------------------------------------------------------------------------

/// Removing the annotation just added, at the index it was given, leaves
/// the annotations as they were.
pub proof fn law_remove_undoes_add(entries: Seq<Annotation>, added: Annotation)
    ensures
        entries.push(added).remove(entries.len() as int) == entries,
{
    assert(entries.push(added).remove(entries.len() as int) =~= entries);
}

// ---------------------------------------------------------------------------
// Font families
// ---------------------------------------------------------------------------

/// A variant registered twice keeps the family it was first given.
pub proof fn law_font_first_registration_wins(
    m: MapView,
    name: Seq<char>,
    bold: bool,
    italic: bool,
    first: Seq<char>,
    second: Seq<char>,
)
    ensures
        with_variant(with_variant(m, name, bold, italic, first), name, bold, italic, second) == with_variant(
            m,
            name,
            bold,
            italic,
            first,
        ),
{
    let k = (font_name_key(name), bold, italic);
    let e1 = or_insert(m.0, k, first);
    lemma_or_insert(m.0, k, first, k);
    let e2 = or_insert(e1, (name, bold, italic), first);
    lemma_or_insert(e1, (name, bold, italic), first, (name, bold, italic));
    lemma_or_insert(e1, (name, bold, italic), first, k);
    lemma_or_insert(m.1, font_name_key(name), (first, bold, italic), font_name_key(name));
}

/// Once a variant is registered, asking for that name and variant finds a
/// family in that very variant: the one it had, or the one just given.
pub proof fn law_font_registered_resolves(m: MapView, name: Seq<char>, bold: bool, italic: bool, family: Seq<char>)
    ensures
        resolution(
            with_variant(m, name, bold, italic, family).0,
            with_variant(m, name, bold, italic, family).1,
            font_name_key(name),
            bold,
            italic,
        ) == Some(
            (
                match assoc(m.0, (font_name_key(name), bold, italic)) {
                    Some(f) => f,
                    None => family,
                },
                bold,
                italic,
            ),
        ),
{
    let k = (font_name_key(name), bold, italic);
    let e1 = or_insert(m.0, k, family);
    lemma_or_insert(m.0, k, family, k);
    lemma_or_insert(e1, (name, bold, italic), family, k);
    if (name, bold, italic) == k {
        assert(or_insert(e1, (name, bold, italic), family) == e1);
    }
}

// ---------------------------------------------------------------------------
// Cover cache keys
// ---------------------------------------------------------------------------

proof fn lemma_hex_digits_no_slash(n: nat, width: nat)
    ensures
        !crate::numbers::hex_digits(n, width).contains('/'),
    decreases width,
{
    if width > 0 {
        lemma_hex_digits_no_slash(n / 16, (width - 1) as nat);
        let c = crate::numbers::hex_char(n % 16);
        assert(c != '/');
        let s = crate::numbers::hex_digits(n, width);
        assert forall|i: int| 0 <= i < s.len() implies s[i] != '/' by {
            if i < s.len() - 1 {
                assert(s[i] == crate::numbers::hex_digits(n / 16, (width - 1) as nat)[i]);
            }
        }
    }
}

/// A cover's cache key is a single file name: it holds no `/` beyond those
/// of the cache version, whichever way it was made.
pub proof fn law_cover_key_is_a_file_name(version: Seq<char>, hash: Seq<char>, digest: u64)
    requires
        !version.contains('/'),
    ensures
        is_usable_hash(hash) ==> !hash_key(version, hash).contains('/'),
        !fallback_key(version, digest).contains('/'),
{
    reveal_strlit("-fallback-");
    if is_usable_hash(hash) {
        let k = hash_key(version, hash);
        let low = crate::text::ascii_lower_seq(hash);
        assert forall|i: int| 0 <= i < k.len() implies k[i] != '/' by {
            if i < version.len() {
                assert(k[i] == version[i]);
            } else if i > version.len() {
                let j = i - version.len() - 1;
                assert(k[i] == low[j]);
                assert(is_ascii_hex(hash[j]));
            }
        }
    }
    lemma_hex_digits_no_slash(digest as nat, 16);
    let k = fallback_key(version, digest);
    let h = crate::numbers::hex_digits(digest as nat, 16);
    assert forall|i: int| 0 <= i < k.len() implies k[i] != '/' by {
        if i < version.len() {
            assert(k[i] == version[i]);
        } else if i >= version.len() + 10 {
            assert(k[i] == h[i - version.len() - 10]);
        }
    }
}

// ---------------------------------------------------------------------------
// XML escaping
// ---------------------------------------------------------------------------

proof fn lemma_replace_keeps_absent(s: Seq<char>, pat: Seq<char>, rep: Seq<char>, c: char)
    requires
        !s.contains(c),
        !rep.contains(c),
    ensures
        !replace_all(s, pat, rep).contains(c),
    decreases s.len(),
{
    if pat.len() > 0 && s.len() > 0 {
        if crate::text::matches_at(s, 0, pat) {
            lemma_replace_keeps_absent(s.skip(pat.len() as int), pat, rep, c);
            let t = replace_all(s.skip(pat.len() as int), pat, rep);
            assert forall|i: int| 0 <= i < (rep + t).len() implies (rep + t)[i] != c by {
                if i >= rep.len() {
                    assert((rep + t)[i] == t[i - rep.len()]);
                }
            }
        } else {
            lemma_replace_keeps_absent(s.skip(1), pat, rep, c);
            let t = replace_all(s.skip(1), pat, rep);
            assert(s[0] != c);
            assert forall|i: int| 0 <= i < (seq![s[0]] + t).len() implies (seq![s[0]] + t)[i] != c by {
                if i >= 1 {
                    assert((seq![s[0]] + t)[i] == t[i - 1]);
                }
            }
        }
    }
}

proof fn lemma_replace_removes(s: Seq<char>, c: char, rep: Seq<char>)
    requires
        !rep.contains(c),
    ensures
        !replace_all(s, seq![c], rep).contains(c),
    decreases s.len(),
{
    if s.len() > 0 {
        if crate::text::matches_at(s, 0, seq![c]) {
            lemma_replace_removes(s.skip(1), c, rep);
            let t = replace_all(s.skip(1), seq![c], rep);
            assert forall|i: int| 0 <= i < (rep + t).len() implies (rep + t)[i] != c by {
                if i >= rep.len() {
                    assert((rep + t)[i] == t[i - rep.len()]);
                }
            }
        } else {
            lemma_replace_removes(s.skip(1), c, rep);
            let t = replace_all(s.skip(1), seq![c], rep);
            assert(s.subrange(0, 1) =~= seq![s[0]]);
            assert(s[0] != c);
            assert forall|i: int| 0 <= i < (seq![s[0]] + t).len() implies (seq![s[0]] + t)[i] != c by {
                if i >= 1 {
                    assert((seq![s[0]] + t)[i] == t[i - 1]);
                }
            }
        }
    }
}

/// Escaped text holds none of the characters that would end an attribute
/// or start or end a tag.
pub proof fn law_escaped_text_has_no_markup(v: Seq<char>)
    ensures
        !xml_escaped(v).contains('<'),
        !xml_escaped(v).contains('>'),
        !xml_escaped(v).contains('"'),
        !xml_escaped(v).contains('\''),
{
    reveal_strlit("&");
    reveal_strlit("&amp;");
    reveal_strlit("<");
    reveal_strlit("&lt;");
    reveal_strlit(">");
    reveal_strlit("&gt;");
    reveal_strlit("\"");
    reveal_strlit("&quot;");
    reveal_strlit("'");
    reveal_strlit("&apos;");
    let s1 = replace_all(v, "&"@, "&amp;"@);
    let s2 = replace_all(s1, "<"@, "&lt;"@);
    let s3 = replace_all(s2, ">"@, "&gt;"@);
    let s4 = replace_all(s3, "\""@, "&quot;"@);
    let s5 = replace_all(s4, "'"@, "&apos;"@);
    assert("<"@ =~= seq!['<']);
    assert(">"@ =~= seq!['>']);
    assert("\""@ =~= seq!['"']);
    assert("'"@ =~= seq!['\'']);
    assert(!"&lt;"@.contains('<'));
    assert(!"&gt;"@.contains('<') && !"&gt;"@.contains('>'));
    assert(!"&quot;"@.contains('<') && !"&quot;"@.contains('>') && !"&quot;"@.contains('"'));
    assert(!"&apos;"@.contains('<') && !"&apos;"@.contains('>') && !"&apos;"@.contains('"') && !"&apos;"@.contains(
        '\'',
    ));
    lemma_replace_removes(s1, '<', "&lt;"@);
    lemma_replace_keeps_absent(s2, ">"@, "&gt;"@, '<');
    lemma_replace_keeps_absent(s3, "\""@, "&quot;"@, '<');
    lemma_replace_keeps_absent(s4, "'"@, "&apos;"@, '<');
    lemma_replace_removes(s2, '>', "&gt;"@);
    lemma_replace_keeps_absent(s3, "\""@, "&quot;"@, '>');
    lemma_replace_keeps_absent(s4, "'"@, "&apos;"@, '>');
    lemma_replace_removes(s3, '"', "&quot;"@);
    lemma_replace_keeps_absent(s4, "'"@, "&apos;"@, '"');
    lemma_replace_removes(s4, '\'', "&apos;"@);
}

// ---------------------------------------------------------------------------
// Sorted lists
// ---------------------------------------------------------------------------

/// The voices come out ordered by name, each voice there as often as it
/// was found.
pub proof fn law_voices_sorted(voices: Seq<VoiceInfo>)
    ensures
        is_sorted_by(sorted_by(voices, |a: VoiceInfo, b: VoiceInfo| voice_le(a, b)), |a: VoiceInfo, b: VoiceInfo| voice_le(a, b)),
        sorted_by(voices, |a: VoiceInfo, b: VoiceInfo| voice_le(a, b)).to_multiset() == voices.to_multiset(),
{
    let le = |a: VoiceInfo, b: VoiceInfo| voice_le(a, b);
    assert(total_preorder(le)) by {
        assert forall|a: VoiceInfo, b: VoiceInfo| #[trigger] le(a, b) || le(b, a) by {
            lemma_text_le_total_preorder(a.name@, b.name@, b.name@);
        }
        assert forall|a: VoiceInfo, b: VoiceInfo, c: VoiceInfo| #[trigger] le(a, b) && #[trigger] le(b, c) implies le(a, c) by {
            lemma_text_le_total_preorder(a.name@, b.name@, c.name@);
        }
    }
    lemma_sorted_by(voices, le);
}

/// The editor's resource list holds every resource exactly as often as the
/// manifest does, ordered by kind and, within a kind, as `resource_le` says.
pub proof fn law_resources_listed_once(items: Seq<ManifestItem>, spine: Seq<Seq<char>>)
    ensures
        sorted_by(items, |a: ManifestItem, b: ManifestItem| resource_le(spine, a, b)).to_multiset()
            == items.to_multiset(),
        is_sorted_by(
            sorted_by(items, |a: ManifestItem, b: ManifestItem| resource_le(spine, a, b)),
            |a: ManifestItem, b: ManifestItem| resource_le(spine, a, b),
        ),
{
    crate::project::lemma_resource_le_total_preorder(spine);
    lemma_sorted_by(items, |a: ManifestItem, b: ManifestItem| resource_le(spine, a, b));
}

// ---------------------------------------------------------------------------
// The image viewer
// ---------------------------------------------------------------------------

/// Flipping twice the same way gives back the picture as it was, and a
/// clockwise turn followed by a counter-clockwise one draws it as before.
pub proof fn law_viewer_undo(s: ViewerState, dropdown: bool)
    requires
        crate::viewer::is_quarter_angle(s.rotation as int),
    ensures
        viewer_step(viewer_step(s, dropdown, ViewerMessage::FlipH).0, dropdown, ViewerMessage::FlipH).0 == s,
        viewer_step(viewer_step(s, dropdown, ViewerMessage::FlipV).0, dropdown, ViewerMessage::FlipV).0 == s,
        turns_of(
            viewer_step(viewer_step(s, dropdown, ViewerMessage::RotateCW).0, dropdown, ViewerMessage::RotateCCW).0.rotation as int,
        ) == turns_of(s.rotation as int),
{
    crate::viewer::lemma_quarter_turns(s.rotation as int);
}

// ---------------------------------------------------------------------------
// Preferences read back
// ---------------------------------------------------------------------------

proof fn lemma_trim_unpadded(t: Seq<char>)
    requires
        t.len() > 0,
        !crate::text::is_white_space(t[0]),
        !crate::text::is_white_space(t.last()),
    ensures
        crate::text::trim(t) == t,
{
    assert(crate::text::leading_ws(t) == 0);
    assert(t.skip(0) =~= t);
    assert(crate::text::trailing_ws(t) == 0);
    assert(t.take(t.len() as int) =~= t);
}

/// A page size the library offers, written as the library writes it, reads
/// back as the same size.
pub proof fn law_page_size_round_trip(n: usize)
    requires
        crate::library::covers_per_page_options().contains(n),
    ensures
        crate::library::page_size_of(Some(crate::numbers::decimal_digits(n as nat))) == n,
{
    let d = crate::numbers::decimal_digits(n as nat);
    crate::numbers::lemma_decimal_digits_value(n as nat);
    assert(crate::numbers::digit_value(d[0], 10) is Some);
    assert(crate::numbers::digit_value(d.last(), 10) is Some);
    lemma_trim_unpadded(d);
    assert(crate::numbers::unsigned_body(d) == d);
}

/// A card design's id, written as the library writes it, reads back as that
/// design.
pub proof fn law_card_design_round_trip(i: int)
    requires
        0 <= i < crate::library::design_ids().len(),
    ensures
        crate::text::trim(crate::library::design_ids()[i]) == crate::library::design_ids()[i],
        crate::library::design_ids().contains(crate::text::trim(crate::library::design_ids()[i])),
{
    reveal_strlit("basic");
    reveal_strlit("elevated");
    reveal_strlit("gradient");
    reveal_strlit("minimal");
    reveal_strlit("badges");
    reveal_strlit("horizontal");
    reveal_strlit("highlighted");
    reveal_strlit("progress");
    reveal_strlit("secondary-info");
    reveal_strlit("glass");
    reveal_strlit("quick-actions");
    reveal_strlit("square");
    let t = crate::library::design_ids()[i];
    assert(t.len() > 0 && 'a' <= t[0] <= 'z' && 'a' <= t.last() <= 'z') by {
        assert(0 <= i < 12);
        if i == 0 {
        } else if i == 1 {
        } else if i == 2 {
        } else if i == 3 {
        } else if i == 4 {
        } else if i == 5 {
        } else if i == 6 {
        } else if i == 7 {
        } else if i == 8 {
        } else if i == 9 {
        } else if i == 10 {
        } else {
        }
    }
    lemma_trim_unpadded(t);
}

} // verus!
