//! The book editor's decisions: its keyboard shortcuts, the export formats,
//! the names of new chapters, reordering the reading order by dragging,
//! which tab stays active when one closes, and the choices made in the
//! table-of-contents dialog.
use vstd::prelude::*;

use crate::navigation::string_views;
use crate::project::{doc_view, doc_views, heading_view, DocToc, DocView, HeadingItem, HeadingView};
use crate::text::{chars_of, push_str, str_eq, string_from};

verus! {

/// What an editor shortcut asks for.
#[derive(Debug, Clone, Copy, PartialEq, Eq, Structural)]
pub enum EditorCommand {
    OpenProject,
    SaveCurrent,
    NewProject,
}

/// The shortcut of a typed key with the command modifier, not repeated:
/// `o` opens a project, `s` saves, `n` makes a new one, in either case.
pub open spec fn shortcut_of(key: Seq<char>, command: bool, repeat: bool) -> Option<EditorCommand> {
    if !command || repeat || key.len() != 1 {
        None
    } else if key[0] == 'o' || key[0] == 'O' {
        Some(EditorCommand::OpenProject)
    } else if key[0] == 's' || key[0] == 'S' {
        Some(EditorCommand::SaveCurrent)
    } else if key[0] == 'n' || key[0] == 'N' {
        Some(EditorCommand::NewProject)
    } else {
        None
    }
}

pub fn editor_shortcut(key: &str, command: bool, repeat: bool) -> (r: Option<EditorCommand>)
    ensures
        r == shortcut_of(key@, command, repeat),
{
    let k = chars_of(key);
    if !command || repeat || k.len() != 1 {
        None
    } else if k[0] == 'o' || k[0] == 'O' {
        Some(EditorCommand::OpenProject)
    } else if k[0] == 's' || k[0] == 'S' {
        Some(EditorCommand::SaveCurrent)
    } else if k[0] == 'n' || k[0] == 'N' {
        Some(EditorCommand::NewProject)
    } else {
        None
    }
}

/// The formats a book is exported in.
#[derive(Debug, Clone, Copy, PartialEq, Eq, Structural)]
pub enum ExportFormat {
    Epub,
    Text,
}

impl ExportFormat {
    /// The extension the exported file is given.
    pub fn extension(self) -> (r: &'static str)
        ensures
            self == ExportFormat::Epub ==> r@ == "epub"@,
            self == ExportFormat::Text ==> r@ == "txt"@,
    {
        match self {
            ExportFormat::Epub => "epub",
            ExportFormat::Text => "txt",
        }
    }

    /// The name of the format in the file dialog's filter.
    pub fn label(self) -> (r: &'static str)
        ensures
            self == ExportFormat::Epub ==> r@ == "EPUB"@,
            self == ExportFormat::Text ==> r@ == "Texto plano"@,
    {
        match self {
            ExportFormat::Epub => "EPUB",
            ExportFormat::Text => "Texto plano",
        }
    }

    /// What the user is told once the export is written.
    pub fn done_message(self) -> (r: &'static str)
        ensures
            self == ExportFormat::Epub ==> r@ == "EPUB exportado"@,
            self == ExportFormat::Text ==> r@ == "Texto plano exportado"@,
    {
        match self {
            ExportFormat::Epub => "EPUB exportado",
            ExportFormat::Text => "Texto plano exportado",
        }
    }
}

/// `s` without every leading `prefix` (`str::trim_start_matches`).
pub open spec fn trim_start_all(s: Seq<char>, prefix: Seq<char>) -> Seq<char>
    decreases s.len(),
{
    if prefix.len() > 0 && crate::text::starts_with(s, prefix) {
        trim_start_all(s.skip(prefix.len() as int), prefix)
    } else {
        s
    }
}

/// The title of a new chapter: `Capítulo` and its identifier without the
/// leading `chapter`.
pub open spec fn chapter_title_of(id: Seq<char>) -> Seq<char> {
    "Capítulo "@ + trim_start_all(id, "chapter"@)
}

pub fn chapter_title(id: &str) -> (r: String)
    ensures
        r@ == chapter_title_of(id@),
{
    proof {
        reveal_strlit("chapter");
        reveal_strlit("Capítulo ");
    }
    let v = chars_of(id);
    let p = chars_of("chapter");
    let mut start: usize = 0;
    assert(v@.skip(0) =~= v@);
    assert(p@.len() == 7);
    while v.len() - start >= p.len() && crate::text::matches_at_exec(&v, start, &p)
        invariant
            start <= v.len(),
            p@ == "chapter"@,
            p@.len() == 7,
            trim_start_all(v@, "chapter"@) == trim_start_all(v@.skip(start as int), "chapter"@),
        decreases v.len() - start,
    {
        proof {
            let t = v@.skip(start as int);
            assert(v@.subrange(start as int, start + 7) == p@);
            assert(t.take(7) =~= v@.subrange(start as int, start + 7));
            assert(crate::text::starts_with(t, "chapter"@));
            assert(t.skip(7) =~= v@.skip(start + 7));
        }
        start = start + p.len();
    }
    proof {
        let t = v@.skip(start as int);
        if crate::text::starts_with(t, "chapter"@) {
            assert(t.take(7) =~= v@.subrange(start as int, start + 7));
        }
    }
    let mut r = string_from(&chars_of("Capítulo "));
    let rest = crate::text::string_from_range(&v, start, v.len());
    assert(rest@ =~= v@.skip(start as int));
    push_str(&mut r, rest.as_str());
    r
}

/// Where a dragged item of the reading order lands when dropped on
/// another: at the target's place, counted once the dragged item is taken
/// out; nothing when either is not in the reading order or they are the
/// same.
pub open spec fn drop_index(spine: Seq<Seq<char>>, dragged: Seq<char>, target: Seq<char>) -> Option<nat> {
    if dragged == target {
        None
    } else {
        match (crate::project::spine_position(spine, dragged), crate::project::spine_position(spine, target)) {
            (Some(d), Some(t)) => Some(
                if d < t {
                    (t - 1) as nat
                } else {
                    t as nat
                },
            ),
            _ => None,
        }
    }
}

fn position_in(spine: &Vec<String>, id: &str) -> (r: Option<usize>)
    ensures
        match r {
            Some(i) => crate::project::spine_position(string_views(spine@), id@) == Some(i as int) && i < spine.len(),
            None => crate::project::spine_position(string_views(spine@), id@) is None,
        },
{
    let ghost v = string_views(spine@);
    let mut i: usize = 0;
    assert(v.skip(0) =~= v);
    while i < spine.len()
        invariant
            i <= spine.len(),
            v == string_views(spine@),
            crate::project::spine_position(v, id@) == match crate::project::spine_position(v.skip(i as int), id@) {
                Some(k) => Some(k + i),
                None => None::<int>,
            },
        decreases spine.len() - i,
    {
        assert(v.skip(i as int)[0] == v[i as int]);
        assert(v.skip(i as int).drop_first() =~= v.skip(i + 1));
        if str_eq(spine[i].as_str(), id) {
            return Some(i);
        }
        i += 1;
    }
    assert(v.skip(i as int) =~= Seq::<Seq<char>>::empty());
    None
}

pub fn drop_target_index(spine: &Vec<String>, dragged: &str, target: &str) -> (r: Option<usize>)
    ensures
        match r {
            Some(i) => drop_index(string_views(spine@), dragged@, target@) == Some(i as nat),
            None => drop_index(string_views(spine@), dragged@, target@) is None,
        },
{
    if str_eq(dragged, target) {
        return None;
    }
    match (position_in(spine, dragged), position_in(spine, target)) {
        (Some(d), Some(t)) => {
            if d < t {
                Some(t - 1)
            } else {
                Some(t)
            }
        },
        _ => None,
    }
}

/// The tab that is active once the tab of `closed` is closed: unchanged
/// unless it was the one closed; then the tab before it, or the first left,
/// or none.
pub open spec fn active_after_close(tabs: Seq<Seq<char>>, active: Option<Seq<char>>, closed: Seq<char>) -> Option<
    Seq<char>,
> {
    match crate::project::spine_position(tabs, closed) {
        None => active,
        Some(i) => if active == Some(closed) {
            let left = tabs.remove(i);
            let j = if i >= 1 {
                i - 1
            } else {
                0
            };
            if j < left.len() {
                Some(left[j])
            } else {
                None
            }
        } else {
            active
        },
    }
}

/// Closes the tab of a resource: gives its position among the tabs and the
/// tab active after it; see `active_after_close`. Nothing when no tab shows
/// that resource.
pub fn close_tab(tabs: &Vec<String>, active: Option<&str>, closed: &str) -> (r: Option<(usize, Option<String>)>)
    ensures
        match r {
            Some((i, a)) => crate::project::spine_position(string_views(tabs@), closed@) == Some(i as int)
                && crate::library_ui::opt_text(a) == active_after_close(
                string_views(tabs@),
                match active {
                    Some(x) => Some(x@),
                    None => None,
                },
                closed@,
            ),
            None => crate::project::spine_position(string_views(tabs@), closed@) is None,
        },
{
    let ghost v = string_views(tabs@);
    let i = match position_in(tabs, closed) {
        Some(i) => i,
        None => {
            return None;
        },
    };
    let was_active = match active {
        Some(x) => str_eq(x, closed),
        None => false,
    };
    if !was_active {
        let a = match active {
            Some(x) => Some(string_from(&chars_of(x))),
            None => None,
        };
        return Some((i, a));
    }
    let j = if i >= 1 {
        i - 1
    } else {
        0
    };
    let ghost left = v.remove(i as int);
    let k = if j < i {
        j
    } else {
        j + 1
    };
    if j < tabs.len() - 1 {
        assert(left[j as int] == v[k as int]);
        Some((i, Some(tabs[k].clone())))
    } else {
        Some((i, None))
    }
}

// ---------------------------------------------------------------------------
// The table-of-contents dialog
// ---------------------------------------------------------------------------

/// A document included or left out: leaving it out leaves out its
/// headings too.
pub open spec fn doc_included(d: DocView, keep: bool) -> DocView {
    DocView {
        included: keep,
        items: if keep {
            d.items
        } else {
            d.items.map_values(|h: HeadingView| HeadingView { included: false, ..h })
        },
        ..d
    }
}

/// A heading included or left out: including it includes its document.
pub open spec fn heading_included(d: DocView, h: int, keep: bool) -> DocView {
    DocView {
        items: if 0 <= h < d.items.len() {
            d.items.update(h, HeadingView { included: keep, ..d.items[h] })
        } else {
            d.items
        },
        included: if keep {
            true
        } else {
            d.included
        },
        ..d
    }
}

/// Every document and every heading included or left out.
pub open spec fn all_included(data: Seq<DocView>, keep: bool) -> Seq<DocView> {
    data.map_values(
        |d: DocView|
            DocView {
                included: keep,
                items: d.items.map_values(|h: HeadingView| HeadingView { included: keep, ..h }),
                ..d
            },
    )
}

fn set_headings(items: &mut Vec<HeadingItem>, keep: bool)
    ensures
        final(items)@.map_values(|h: HeadingItem| heading_view(h)) == old(items)@.map_values(
            |h: HeadingItem| heading_view(h),
        ).map_values(|h: HeadingView| HeadingView { included: keep, ..h }),
{
    let ghost before = items@.map_values(|h: HeadingItem| heading_view(h));
    let mut i: usize = 0;
    while i < items.len()
        invariant
            i <= items.len(),
            items@.len() == before.len(),
            before.len() == old(items)@.len(),
            forall|j: int| 0 <= j < i ==> #[trigger] heading_view(items@[j]) == (HeadingView { included: keep, ..before[j] }),
            forall|j: int| i <= j < items.len() ==> #[trigger] heading_view(items@[j]) == before[j],
        decreases items.len() - i,
    {
        let ghost prior = items@;
        assert(heading_view(prior[i as int]) == before[i as int]);
        let mut h = items.remove(i);
        h.included = keep;
        let ghost hv = heading_view(h);
        items.insert(i, h);
        assert(items@ =~= prior.update(i as int, h));
        assert(hv == (HeadingView { included: keep, ..before[i as int] }));
        i += 1;
    }
    assert(items@.map_values(|h: HeadingItem| heading_view(h)) =~= before.map_values(
        |h: HeadingView| HeadingView { included: keep, ..h },
    ));
}

/// Includes or leaves out a document of the dialog; see `doc_included`.
/// An index past the end changes nothing.
pub fn set_doc_included(data: &mut Vec<DocToc>, doc: usize, keep: bool)
    ensures
        doc < old(data).len() ==> doc_views(final(data)@) == doc_views(old(data)@).update(
            doc as int,
            doc_included(doc_views(old(data)@)[doc as int], keep),
        ),
        doc >= old(data).len() ==> doc_views(final(data)@) == doc_views(old(data)@),
{
    if doc >= data.len() {
        return;
    }
    let ghost before = doc_views(data@);
    let mut d = data.remove(doc);
    d.included = keep;
    if !keep {
        set_headings(&mut d.items, false);
    }
    let ghost dv = doc_view(d);
    data.insert(doc, d);
    assert(dv == doc_included(before[doc as int], keep));
    assert(doc_views(data@) =~= before.update(doc as int, dv));
}

/// Includes or leaves out a heading of a document of the dialog; see
/// `heading_included`. A document index past the end changes nothing.
pub fn set_heading_included(data: &mut Vec<DocToc>, doc: usize, heading: usize, keep: bool)
    ensures
        doc < old(data).len() ==> doc_views(final(data)@) == doc_views(old(data)@).update(
            doc as int,
            heading_included(doc_views(old(data)@)[doc as int], heading as int, keep),
        ),
        doc >= old(data).len() ==> doc_views(final(data)@) == doc_views(old(data)@),
{
    if doc >= data.len() {
        return;
    }
    let ghost before = doc_views(data@);
    let mut d = data.remove(doc);
    let ghost items_before = d.items@.map_values(|h: HeadingItem| heading_view(h));
    if heading < d.items.len() {
        let mut h = d.items.remove(heading);
        h.included = keep;
        d.items.insert(heading, h);
        assert(d.items@.map_values(|h: HeadingItem| heading_view(h)) =~= items_before.update(
            heading as int,
            HeadingView { included: keep, ..items_before[heading as int] },
        ));
    }
    if keep {
        d.included = true;
    }
    let ghost dv = doc_view(d);
    data.insert(doc, d);
    assert(dv == heading_included(before[doc as int], heading as int, keep));
    assert(doc_views(data@) =~= before.update(doc as int, dv));
}

/// Includes or leaves out everything in the dialog; see `all_included`.
pub fn set_all_included(data: &mut Vec<DocToc>, keep: bool)
    ensures
        doc_views(final(data)@) == all_included(doc_views(old(data)@), keep),
{
    let ghost before = doc_views(data@);
    let ghost target = all_included(before, keep);
    let mut i: usize = 0;
    while i < data.len()
        invariant
            i <= data.len(),
            data@.len() == before.len(),
            before.len() == old(data)@.len(),
            target == all_included(before, keep),
            forall|j: int| 0 <= j < i ==> #[trigger] doc_view(data@[j]) == target[j],
            forall|j: int| i <= j < data.len() ==> #[trigger] doc_view(data@[j]) == before[j],
        decreases data.len() - i,
    {
        let ghost prior = data@;
        assert(doc_view(prior[i as int]) == before[i as int]);
        let mut d = data.remove(i);
        d.included = keep;
        set_headings(&mut d.items, keep);
        let ghost dv = doc_view(d);
        assert(dv.items =~= before[i as int].items.map_values(|h: HeadingView| HeadingView { included: keep, ..h }));
        data.insert(i, d);
        assert(data@ =~= prior.update(i as int, d));
        assert(dv == target[i as int]);
        i += 1;
    }
    assert(doc_views(data@) =~= target);
}

/// What the user is told when the dialog opens: that nothing can be
/// scanned, or how many documents could not be and the first reason.
pub open spec fn toc_dialog_message(found: nat, errors: Seq<Seq<char>>) -> Option<Seq<char>> {
    if found == 0 {
        Some("No hay documentos XHTML para escanear"@)
    } else if errors.len() > 0 {
        Some("TOC: "@ + crate::numbers::decimal_digits(errors.len()) + " no escaneado ("@ + errors[0] + ")"@)
    } else {
        None
    }
}

pub fn toc_dialog_status(found: usize, errors: &Vec<String>) -> (r: Option<String>)
    ensures
        crate::library_ui::opt_text(r) == toc_dialog_message(found as nat, string_views(errors@)),
{
    proof {
        reveal_strlit("No hay documentos XHTML para escanear");
        reveal_strlit("TOC: ");
        reveal_strlit(" no escaneado (");
        reveal_strlit(")");
    }
    if found == 0 {
        Some(string_from(&chars_of("No hay documentos XHTML para escanear")))
    } else if errors.len() > 0 {
        let mut m = string_from(&chars_of("TOC: "));
        crate::numbers::push_decimal(&mut m, errors.len() as u64);
        push_str(&mut m, " no escaneado (");
        push_str(&mut m, errors[0].as_str());
        push_str(&mut m, ")");
        Some(m)
    } else {
        None
    }
}

/// Leaving a document out leaves out all its headings; including a heading
/// includes its document; selecting everything, or nothing, leaves no
/// document or heading otherwise.
pub proof fn law_toc_dialog_choices(data: Seq<DocView>, d: DocView, h: int, keep: bool)
    ensures
        forall|k: int| 0 <= k < doc_included(d, false).items.len() ==> !(#[trigger] doc_included(d, false).items[k]).included,
        heading_included(d, h, true).included,
        forall|i: int|
            0 <= i < all_included(data, keep).len() ==> (#[trigger] all_included(data, keep)[i]).included == keep
                && forall|k: int| 0 <= k < all_included(data, keep)[i].items.len() ==> (#[trigger] all_included(data, keep)[i].items[k]).included == keep,
{
}

} // verus!
