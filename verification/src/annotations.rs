//! Highlights and notes a reader attaches to a book: the per-book store, the
//! notes of one chapter, a Markdown export, and where the store is kept.
use vstd::prelude::*;
use vstd::string::StrSliceExecFns;

use crate::paths::{sanitize_id, sanitized_id};
use crate::text::{chars_of, push_char, push_str, replace_char};

verus! {

/// A highlighted passage, with the reader's note on it.
#[derive(Debug, Clone)]
pub struct Annotation {
    pub chapter_id: String,
    pub selected_text: String,
    pub note: String,
    /// `yellow`, `green`, `blue` or `pink`.
    pub color: String,
    pub created_at: String,
    /// Id of the HTML element the passage is in, when known.
    pub anchor: Option<String>,
}

/// The annotations of one book, identified by the book's hash.
#[derive(Debug, Clone, Default)]
pub struct AnnotationStore {
    pub annotations: Vec<Annotation>,
    book_hash: String,
}

impl AnnotationStore {
    pub closed spec fn hash(&self) -> Seq<char> {
        self.book_hash@
    }

    /// The annotations, in the order they were added.
    pub closed spec fn entries(&self) -> Seq<Annotation> {
        self.annotations@
    }

    /// An empty store for a book.
    pub fn empty(book_hash: &str) -> (s: Self)
        ensures
            s.entries() == Seq::<Annotation>::empty(),
            s.hash() == book_hash@,
    {
        AnnotationStore {
            annotations: Vec::new(),
            book_hash: crate::text::string_from(&chars_of(book_hash)),
        }
    }

    /// A store made of its parts; the hash names the book it belongs to.
    pub fn from_parts(annotations: Vec<Annotation>, book_hash: String) -> (s: Self)
        ensures
            s.entries() == annotations@,
            s.hash() == book_hash@,
    {
        AnnotationStore { annotations, book_hash }
    }

    pub fn book_hash(&self) -> (r: &str)
        ensures
            r@ == self.hash(),
    {
        self.book_hash.as_str()
    }

    /// The store of a book from what was saved for it: the saved store when
    /// there is one and it belongs to this book, an empty store otherwise.
    pub fn restore(book_hash: &str, saved: Option<AnnotationStore>) -> (s: Self)
        ensures
            (match saved {
                Some(st) => st.hash() == book_hash@,
                None => false,
            }) ==> s == saved->0,
            !(match saved {
                Some(st) => st.hash() == book_hash@,
                None => false,
            }) ==> s.entries() == Seq::<Annotation>::empty() && s.hash() == book_hash@,
    {
        match saved {
            Some(st) => {
                if crate::text::str_eq(st.book_hash.as_str(), book_hash) {
                    st
                } else {
                    Self::empty(book_hash)
                }
            },
            None => Self::empty(book_hash),
        }
    }

    pub fn add(&mut self, annotation: Annotation)
        ensures
            final(self).entries() == old(self).entries().push(annotation),
            final(self).hash() == old(self).hash(),
    {
        self.annotations.push(annotation);
    }

    /// Removes the annotation at `idx`; an index past the end changes nothing.
    pub fn remove(&mut self, idx: usize)
        ensures
            idx < old(self).entries().len() ==> final(self).entries() == old(self).entries().remove(
                idx as int,
            ),
            idx >= old(self).entries().len() ==> final(self).entries() == old(self).entries(),
            final(self).hash() == old(self).hash(),
    {
        if idx < self.annotations.len() {
            self.annotations.remove(idx);
        }
    }

    /// The annotations of one chapter, in the order they were added.
    pub fn for_chapter(&self, chapter_id: &str) -> (r: Vec<&Annotation>)
        ensures
            deref_all(r@) == self.entries().filter(|a: Annotation| a.chapter_id@ == chapter_id@),
    {
        let mut r: Vec<&Annotation> = Vec::new();
        let mut i: usize = 0;
        while i < self.annotations.len()
            invariant
                i <= self.annotations.len(),
                deref_all(r@) == self.annotations@.take(i as int).filter(|a: Annotation| a.chapter_id@ == chapter_id@),
            decreases self.annotations.len() - i,
        {
            let a = &self.annotations[i];
            proof {
                assert(self.annotations@.take(i + 1) =~= self.annotations@.take(i as int).push(*a));
                self.annotations@.take(i as int).lemma_filter_push(
                    *a,
                    |a: Annotation| a.chapter_id@ == chapter_id@,
                );
            }
            let ghost before = r@;
            if crate::text::str_eq(a.chapter_id.as_str(), chapter_id) {
                r.push(a);
                assert(deref_all(r@) =~= deref_all(before).push(*a));
            }
            i += 1;
        }
        assert(self.annotations@.take(self.annotations.len() as int) =~= self.annotations@);
        r
    }
}

pub open spec fn deref_all(rs: Seq<&Annotation>) -> Seq<Annotation> {
    rs.map_values(|a: &Annotation| *a)
}

/// The Markdown section of one annotation: the chapter as a heading, the
/// passage on one line as a quote, the note when there is one, and the date.
pub open spec fn markdown_entry(a: Annotation) -> Seq<char> {
    "## "@ + a.chapter_id@ + "\n\n"@ + "> **Destacado:** "@ + replace_char(a.selected_text@, '\n', ' ')
        + "\n\n"@ + (if a.note@.len() > 0 {
        "**Nota:** "@ + a.note@ + "\n\n"@
    } else {
        Seq::<char>::empty()
    }) + "_Fecha: "@ + a.created_at@ + "_\n\n---\n\n"@
}

pub open spec fn markdown_entries(anns: Seq<Annotation>) -> Seq<char>
    decreases anns.len(),
{
    if anns.len() == 0 {
        Seq::empty()
    } else {
        markdown_entries(anns.drop_last()) + markdown_entry(anns.last())
    }
}

/// The Markdown export of a store: a title, then one section per annotation.
pub open spec fn markdown_export(anns: Seq<Annotation>) -> Seq<char> {
    "# Anotaciones\n\n"@ + markdown_entries(anns)
}

fn push_replacing_newlines(md: &mut String, s: &str)
    ensures
        final(md)@ == old(md)@ + replace_char(s@, '\n', ' '),
{
    let v = chars_of(s);
    let mut i: usize = 0;
    while i < v.len()
        invariant
            i <= v.len(),
            v@ == s@,
            md@ == old(md)@ + replace_char(v@, '\n', ' ').take(i as int),
        decreases v.len() - i,
    {
        if v[i] == '\n' {
            push_char(md, ' ');
        } else {
            push_char(md, v[i]);
        }
        assert(replace_char(v@, '\n', ' ').take(i + 1) =~= replace_char(v@, '\n', ' ').take(i as int).push(
            replace_char(v@, '\n', ' ')[i as int],
        ));
        i += 1;
    }
    assert(replace_char(v@, '\n', ' ').take(v.len() as int) =~= replace_char(v@, '\n', ' '));
}

fn push_entry(md: &mut String, a: &Annotation)
    ensures
        final(md)@ == old(md)@ + markdown_entry(*a),
{
    push_str(md, "## ");
    push_str(md, a.chapter_id.as_str());
    push_str(md, "\n\n");
    push_str(md, "> **Destacado:** ");
    push_replacing_newlines(md, a.selected_text.as_str());
    push_str(md, "\n\n");
    let ghost mid = md@;
    if !a.note.as_str().is_empty() {
        push_str(md, "**Nota:** ");
        push_str(md, a.note.as_str());
        push_str(md, "\n\n");
        assert(md@ =~= mid + ("**Nota:** "@ + a.note@ + "\n\n"@));
    } else {
        assert(md@ =~= mid + Seq::<char>::empty());
    }
    push_str(md, "_Fecha: ");
    push_str(md, a.created_at.as_str());
    push_str(md, "_\n\n---\n\n");
    assert(md@ =~= old(md)@ + markdown_entry(*a));
}

impl AnnotationStore {
    /// The annotations as a Markdown document; see `markdown_export`.
    pub fn export_markdown(&self) -> (md: String)
        ensures
            md@ == markdown_export(self.entries()),
    {
        let mut md = String::new();
        push_str(&mut md, "# Anotaciones\n\n");
        let mut i: usize = 0;
        while i < self.annotations.len()
            invariant
                i <= self.annotations.len(),
                md@ == "# Anotaciones\n\n"@ + markdown_entries(self.annotations@.take(i as int)),
            decreases self.annotations.len() - i,
        {
            proof {
                assert(self.annotations@.take(i + 1).drop_last() =~= self.annotations@.take(i as int));
            }
            push_entry(&mut md, &self.annotations[i]);
            i += 1;
        }
        assert(self.annotations@.take(self.annotations.len() as int) =~= self.annotations@);
        md
    }
}

/// The file the store of a book is kept in: `<config>/gutenreader/annotations/`
/// and the book's hash with every character but letters, digits and `-`
/// turned into `_`, with `.json`; `<config>` is the configuration directory,
/// or `.` when there is none.
pub open spec fn store_path_of(config_dir: Option<Seq<char>>, book_hash: Seq<char>) -> Seq<char> {
    let base = match config_dir {
        Some(d) => d,
        None => "."@,
    };
    crate::paths::path_join(
        crate::paths::path_join(crate::paths::path_join(base, "gutenreader"@), "annotations"@),
        sanitized_id(book_hash) + ".json"@,
    )
}

pub fn store_path(config_dir: Option<&str>, book_hash: &str) -> (r: String)
    ensures
        r@ == store_path_of(
            match config_dir {
                Some(d) => Some(d@),
                None => None,
            },
            book_hash@,
        ),
{
    let base = match config_dir {
        Some(d) => crate::text::string_from(&chars_of(d)),
        None => crate::text::string_from(&chars_of(".")),
    };
    let app = crate::paths::join_path(base.as_str(), "gutenreader");
    let dir = crate::paths::join_path(app.as_str(), "annotations");
    let mut file = sanitize_id(book_hash);
    push_str(&mut file, ".json");
    crate::paths::join_path(dir.as_str(), file.as_str())
}


// ---------------------------------------------------------------------------
// Highlights in the reading view
// ---------------------------------------------------------------------------

/// Text put inside a quoted JavaScript string: each `\\` doubled and each
/// `"` escaped.
pub open spec fn js_quoted(s: Seq<char>) -> Seq<char> {
    crate::text::replace_all(crate::text::replace_all(s, "\\"@, "\\\\"@), "\""@, "\\\""@)
}

/// The script that marks the first occurrence of a passage in the page
/// (within the element of `anchor` when given) with a background colour.
pub open spec fn highlight_script_of(text: Seq<char>, color: Seq<char>, anchor: Option<Seq<char>>) -> Seq<char> {
    let text_part = crate::text::replace_all(js_quoted(text), "\n"@, "\\n"@);
    let anchor_part = match anchor {
        Some(a) => "'"@ + js_quoted(a) + "'"@,
        None => "null"@,
    };
    let color_part = js_quoted(color);
    "\n            (function() {\n                var container = "@ + anchor_part + " ? document.getElementById("@ + anchor_part + ") : document.body;\n                if (!container) container = document.body;\n                var walker = document.createTreeWalker(container, NodeFilter.SHOW_TEXT, null, false);\n                var node;\n                while (node = walker.nextNode()) {\n                    var idx = node.textContent.indexOf(\""@ + text_part + "\");\n                    if (idx !== -1) {\n                        var range = document.createRange();\n                        range.setStart(node, idx);\n                        range.setEnd(node, idx + "@ + crate::numbers::decimal_digits(text.len()) + ");\n                        var span = document.createElement('span');\n                        span.style.backgroundColor = '"@ + color_part + "';\n                        span.style.borderRadius = '3px';\n                        span.style.padding = '1px 0px';\n                        span.className = 'gutenreader-highlight';\n                        try {\n                            range.surroundContents(span);\n                            return true;\n                        } catch(e) {}\n                    }\n                }\n                return false;\n            })()\n            "@
}

fn js_quote_exec(s: &str) -> (r: String)
    ensures
        r@ == js_quoted(s@),
{
    proof {
        reveal_strlit("\\");
        reveal_strlit("\"");
    }
    let v = chars_of(s);
    let a = crate::entities::replace_all_exec(&v, &chars_of("\\"), &chars_of("\\\\"));
    let b = crate::entities::replace_all_exec(&a, &chars_of("\""), &chars_of("\\\""));
    crate::text::string_from(&b)
}

/// The script marking a passage; see `highlight_script_of`.
pub fn highlight_script(text: &str, color: &str, anchor: Option<&str>) -> (r: String)
    ensures
        r@ == highlight_script_of(text@, color@, match anchor {
            Some(a) => Some(a@),
            None => None,
        }),
{
    proof {
        reveal_strlit("\n");
    }
    let q = js_quote_exec(text);
    let qv = chars_of(q.as_str());
    let tv = crate::entities::replace_all_exec(&qv, &chars_of("\n"), &chars_of("\\n"));
    let text_part = crate::text::string_from(&tv);
    let anchor_part = match anchor {
        Some(a) => {
            let mut p = crate::text::string_from(&chars_of("'"));
            push_str(&mut p, js_quote_exec(a).as_str());
            push_str(&mut p, "'");
            p
        },
        None => crate::text::string_from(&chars_of("null")),
    };
    let color_part = js_quote_exec(color);
    let len = text.unicode_len();
    let mut s = String::new();
    push_str(&mut s, "\n            (function() {\n                var container = ");
    push_str(&mut s, anchor_part.as_str());
    push_str(&mut s, " ? document.getElementById(");
    push_str(&mut s, anchor_part.as_str());
    push_str(&mut s, ") : document.body;\n                if (!container) container = document.body;\n                var walker = document.createTreeWalker(container, NodeFilter.SHOW_TEXT, null, false);\n                var node;\n                while (node = walker.nextNode()) {\n                    var idx = node.textContent.indexOf(\"");
    push_str(&mut s, text_part.as_str());
    push_str(&mut s, "\");\n                    if (idx !== -1) {\n                        var range = document.createRange();\n                        range.setStart(node, idx);\n                        range.setEnd(node, idx + ");
    crate::numbers::push_decimal(&mut s, len as u64);
    push_str(&mut s, ");\n                        var span = document.createElement('span');\n                        span.style.backgroundColor = '");
    push_str(&mut s, color_part.as_str());
    push_str(&mut s, "';\n                        span.style.borderRadius = '3px';\n                        span.style.padding = '1px 0px';\n                        span.className = 'gutenreader-highlight';\n                        try {\n                            range.surroundContents(span);\n                            return true;\n                        } catch(e) {}\n                    }\n                }\n                return false;\n            })()\n            ");
    s
}

/// The script that scrolls the page smoothly to the element whose id is
/// `anchor`.
pub open spec fn anchor_scroll_script_of(anchor: Seq<char>) -> Seq<char> {
    "document.getElementById('"@ + anchor + "')?.scrollIntoView({behavior:'smooth', block:'start'});"@
}

/// The script scrolling to an anchor; see `anchor_scroll_script_of`.
pub fn anchor_scroll_script(anchor: &str) -> (r: String)
    ensures
        r@ == anchor_scroll_script_of(anchor@),
{
    let mut s = String::new();
    push_str(&mut s, "document.getElementById('");
    push_str(&mut s, anchor);
    push_str(&mut s, "')?.scrollIntoView({behavior:'smooth', block:'start'});");
    s
}

} // verus!
