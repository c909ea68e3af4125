//! Rendering the entry sequence: the numbered one-line-per-entry
//! overview, and the full markdown document that keeps every description
//! verbatim.

use vstd::prelude::*;

use crate::digits::dec_digits;
use crate::digits::fmt_usize;
use crate::entry::Entry;
use crate::entry::views_of;
use crate::textops::preview;
use crate::textops::preview_exec;

verus! {

/// One overview line: the 1-based display number, a dot and a space, the
/// description's preview, and a newline.
pub open spec fn overview_line(number: nat, d: Seq<char>) -> Seq<char> {
    dec_digits(number) + seq!['.', ' '] + preview(d) + seq!['\n']
}

/// The overview lines for the entries from position `i` on, numbered by
/// their 1-based positions.
pub open spec fn overview_from(es: Seq<Seq<char>>, i: nat) -> Seq<char>
    decreases es.len() - i,
{
    if i >= es.len() {
        Seq::empty()
    } else {
        overview_line(i + 1, es[i as int]) + overview_from(es, i + 1)
    }
}

/// The whole overview: one numbered line per entry, in sequence order.
pub open spec fn overview_of(es: Seq<Seq<char>>) -> Seq<char> {
    overview_from(es, 0)
}

/// The markdown document for the entries from position `i` on: each
/// description verbatim, closed by a newline, with a blank line between
/// consecutive entries.
pub open spec fn markdown_from(es: Seq<Seq<char>>, i: nat) -> Seq<char>
    decreases es.len() - i,
{
    if i >= es.len() {
        Seq::empty()
    } else if i + 1 == es.len() {
        es[i as int] + seq!['\n']
    } else {
        es[i as int] + seq!['\n', '\n'] + markdown_from(es, i + 1)
    }
}

/// The whole markdown document; the empty store renders to the empty
/// document.
pub open spec fn markdown_of(es: Seq<Seq<char>>) -> Seq<char> {
    markdown_from(es, 0)
}

/// Each description from position `j` on stands verbatim, as one
/// contiguous run of characters, in the document rendered from `j` on.
proof fn lemma_markdown_from_contains(es: Seq<Seq<char>>, j: nat, i: nat)
    requires
        j <= i < es.len(),
    ensures
        exists|off: int|
            0 <= off && off + es[i as int].len() <= markdown_from(es, j).len()
                && #[trigger] markdown_from(es, j).subrange(off, off + es[i as int].len())
                == es[i as int],
    decreases i - j,
{
    let doc = markdown_from(es, j);
    let n: int = es[i as int].len() as int;
    if i == j {
        let off: int = 0;
        assert(doc.subrange(off, off + n) =~= es[i as int]);
        assert(0 <= off && off + n <= doc.len() && doc.subrange(off, off + n) == es[i as int]);
    } else {
        lemma_markdown_from_contains(es, j + 1, i);
        let off0 = choose|off: int|
            0 <= off && off + es[i as int].len() <= markdown_from(es, j + 1).len()
                && #[trigger] markdown_from(es, j + 1).subrange(off, off + es[i as int].len())
                == es[i as int];
        let off: int = es[j as int].len() + 2 + off0;
        assert(doc =~= es[j as int] + seq!['\n', '\n'] + markdown_from(es, j + 1));
        assert(doc.subrange(off, off + n) =~= markdown_from(es, j + 1).subrange(off0, off0 + n));
        assert(0 <= off && off + n <= doc.len() && doc.subrange(off, off + n) == es[i as int]);
    }
}

/// Markdown keeps every description intact: each one appears verbatim,
/// embedded newlines and all, as a contiguous run of the document.
pub proof fn lemma_markdown_contains(es: Seq<Seq<char>>, i: nat)
    requires
        i < es.len(),
    ensures
        exists|off: int|
            0 <= off && off + es[i as int].len() <= markdown_of(es).len()
                && #[trigger] markdown_of(es).subrange(off, off + es[i as int].len())
                == es[i as int],
{
    lemma_markdown_from_contains(es, 0, i);
    let off0 = choose|off: int|
        0 <= off && off + es[i as int].len() <= markdown_from(es, 0).len()
            && #[trigger] markdown_from(es, 0).subrange(off, off + es[i as int].len())
            == es[i as int];
    assert(markdown_of(es) == markdown_from(es, 0));
    assert(0 <= off0 && off0 + es[i as int].len() <= markdown_of(es).len() && markdown_of(
        es,
    ).subrange(off0, off0 + es[i as int].len()) == es[i as int]);
}

/// Each entry's numbered line from position `j` on stands contiguously in
/// the overview rendered from `j` on.
proof fn lemma_overview_from_contains(es: Seq<Seq<char>>, j: nat, i: nat)
    requires
        j <= i < es.len(),
    ensures
        exists|off: int|
            0 <= off && off + overview_line(i + 1, es[i as int]).len() <= overview_from(
                es,
                j,
            ).len() && #[trigger] overview_from(es, j).subrange(
                off,
                off + overview_line(i + 1, es[i as int]).len(),
            ) == overview_line(i + 1, es[i as int]),
    decreases i - j,
{
    let doc = overview_from(es, j);
    let line = overview_line(i + 1, es[i as int]);
    let n: int = line.len() as int;
    if i == j {
        let off: int = 0;
        assert(doc.subrange(off, off + n) =~= line);
        assert(0 <= off && off + n <= doc.len() && doc.subrange(off, off + n) == line);
    } else {
        lemma_overview_from_contains(es, j + 1, i);
        let off0 = choose|off: int|
            0 <= off && off + line.len() <= overview_from(es, j + 1).len()
                && #[trigger] overview_from(es, j + 1).subrange(off, off + line.len()) == line;
        let off: int = overview_line(j + 1, es[j as int]).len() + off0;
        assert(doc =~= overview_line(j + 1, es[j as int]) + overview_from(es, j + 1));
        assert(doc.subrange(off, off + n) =~= overview_from(es, j + 1).subrange(off0, off0 + n));
        assert(0 <= off && off + n <= doc.len() && doc.subrange(off, off + n) == line);
    }
}

/// The overview drops no entry: every entry's numbered line appears
/// contiguously in the overview.
pub proof fn lemma_overview_contains(es: Seq<Seq<char>>, i: nat)
    requires
        i < es.len(),
    ensures
        exists|off: int|
            0 <= off && off + overview_line(i + 1, es[i as int]).len() <= overview_of(es).len()
                && #[trigger] overview_of(es).subrange(
                off,
                off + overview_line(i + 1, es[i as int]).len(),
            ) == overview_line(i + 1, es[i as int]),
{
    lemma_overview_from_contains(es, 0, i);
    let line = overview_line(i + 1, es[i as int]);
    let off0 = choose|off: int|
        0 <= off && off + line.len() <= overview_from(es, 0).len()
            && #[trigger] overview_from(es, 0).subrange(off, off + line.len()) == line;
    assert(overview_of(es) == overview_from(es, 0));
    assert(0 <= off0 && off0 + line.len() <= overview_of(es).len() && overview_of(es).subrange(
        off0,
        off0 + line.len(),
    ) == line);
}

/// A one-character newline string.
pub(crate) fn newline_str() -> (r: &'static str)
    ensures
        r@ =~= seq!['\n'],
{
    proof {
        reveal_strlit("\n");
    }
    "\n"
}

/// The separator between a display number and a preview.
fn dot_space_str() -> (r: &'static str)
    ensures
        r@ =~= seq!['.', ' '],
{
    proof {
        reveal_strlit(". ");
    }
    ". "
}

/// The blank-line separator between markdown blocks.
fn two_newlines_str() -> (r: &'static str)
    ensures
        r@ =~= seq!['\n', '\n'],
{
    proof {
        reveal_strlit("\n\n");
    }
    "\n\n"
}

/// Renders the numbered overview of the entries.
pub fn overview_exec(entries: &Vec<Entry>) -> (out: String)
    ensures
        out@ == overview_of(views_of(entries@)),
{
    let ghost vs = views_of(entries@);
    let mut out = String::new();
    let mut i: usize = 0;
    while i < entries.len()
        invariant
            i <= entries@.len(),
            vs == views_of(entries@),
            out@ + overview_from(vs, i as nat) == overview_of(vs),
        decreases entries@.len() - i,
    {
        let e = &entries[i];
        let num = fmt_usize(i + 1);
        out.append(num.as_str());
        out.append(dot_space_str());
        out.append(preview_exec(e.description()));
        out.append(newline_str());
        proof {
            assert(overview_from(vs, i as nat) == overview_line(
                i as nat + 1,
                vs[i as int],
            ) + overview_from(vs, i as nat + 1));
            assert(out@ + overview_from(vs, i as nat + 1) =~= overview_of(vs));
        }
        i = i + 1;
    }
    proof {
        assert(out@ =~= overview_of(vs));
    }
    out
}

/// Renders the full markdown document of the entries.
pub fn markdown_exec(entries: &Vec<Entry>) -> (out: String)
    ensures
        out@ == markdown_of(views_of(entries@)),
{
    let ghost vs = views_of(entries@);
    let mut out = String::new();
    let mut i: usize = 0;
    while i < entries.len()
        invariant
            i <= entries@.len(),
            vs == views_of(entries@),
            out@ + markdown_from(vs, i as nat) == markdown_of(vs),
        decreases entries@.len() - i,
    {
        let e = &entries[i];
        out.append(e.description());
        if i + 1 < entries.len() {
            out.append(two_newlines_str());
            proof {
                assert(out@ + markdown_from(vs, i as nat + 1) =~= markdown_of(vs));
            }
        } else {
            out.append(newline_str());
            proof {
                assert(markdown_from(vs, i as nat + 1) =~= Seq::<char>::empty());
                assert(out@ + markdown_from(vs, i as nat + 1) =~= markdown_of(vs));
            }
        }
        i = i + 1;
    }
    proof {
        assert(out@ =~= markdown_of(vs));
    }
    out
}

} // verus!
