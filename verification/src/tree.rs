//! The directory-tree model and the verified renderer.

use vstd::prelude::*;
use vstd::string::StringExecFns;
use crate::excl::ExclusionSet;
use crate::excl::should_exclude;

verus! {

/// Whether a tree entry is a directory or a file.
#[derive(Clone, Copy, PartialEq, Eq, Structural, Debug)]
pub enum EntryKind {
    Directory,
    File,
}

/// One entry of a directory listing: a base name, a kind, and (for a
/// directory) the listing of its own entries in raw listing order.
pub struct Entry {
    pub name: String,
    pub kind: EntryKind,
    pub children: Vec<Entry>,
}

/// The mathematical shape of an [`Entry`].
pub ghost struct EntryV {
    pub name: Seq<char>,
    pub kind: EntryKind,
    pub children: Seq<EntryV>,
}

/// The mathematical value of one entry.
pub open spec fn entry_view(e: Entry) -> EntryV
    decreases e, 0int,
{
    EntryV {
        name: e.name@,
        kind: e.kind,
        children: entries_view_upto(e.children@, e.children@.len() as int),
    }
}

/// The mathematical values of the first `i` entries of a listing.
pub open spec fn entries_view_upto(es: Seq<Entry>, i: int) -> Seq<EntryV>
    decreases es, i,
{
    if i <= 0 || i > es.len() {
        Seq::empty()
    } else {
        entries_view_upto(es, i - 1).push(entry_view(es[i - 1]))
    }
}

/// The mathematical values of a whole listing.
pub open spec fn entries_view(es: Seq<Entry>) -> Seq<EntryV> {
    entries_view_upto(es, es.len() as int)
}

pub proof fn lemma_entries_view_upto(es: Seq<Entry>, i: int)
    requires
        0 <= i <= es.len(),
    ensures
        entries_view_upto(es, i).len() == i,
        forall|j: int| 0 <= j < i ==> entries_view_upto(es, i)[j] == entry_view(es[j]),
    decreases i,
{
    if i > 0 {
        lemma_entries_view_upto(es, i - 1);
    }
}

/// A listing's view has one element per entry, in order.
pub proof fn lemma_entries_view(es: Seq<Entry>)
    ensures
        entries_view(es).len() == es.len(),
        forall|j: int| 0 <= j < es.len() ==> entries_view(es)[j] == entry_view(es[j]),
{
    lemma_entries_view_upto(es, es.len() as int);
}

impl DeepView for Entry {
    type V = EntryV;

    open spec fn deep_view(&self) -> EntryV {
        entry_view(*self)
    }
}

/// The box-drawing connector of a line: the last raw sibling gets the
/// closing elbow, every earlier one the tee.
pub open spec fn connector(is_last: bool) -> Seq<char> {
    if is_last {
        "└──"@
    } else {
        "├──"@
    }
}

/// The kind tag printed between brackets.
pub open spec fn kind_label(k: EntryKind) -> Seq<char> {
    match k {
        EntryKind::Directory => "Directory"@,
        EntryKind::File => "File"@,
    }
}

/// The one output line of an entry.
pub open spec fn entry_line(
    indent: Seq<char>,
    is_last: bool,
    kind: EntryKind,
    name: Seq<char>,
) -> Seq<char> {
    indent + connector(is_last) + " ["@ + kind_label(kind) + "] "@ + name
}

/// The indentation handed to an entry's children: the parent's indentation
/// plus a continuation bar, or blanks after the last sibling.
pub open spec fn child_indent(indent: Seq<char>, is_last: bool) -> Seq<char> {
    indent + if is_last {
        "    "@
    } else {
        "│   "@
    }
}

/// The lines one entry contributes: nothing when its name is excluded,
/// otherwise its own line followed by the lines of its children.
pub open spec fn render_entry(
    e: EntryV,
    indent: Seq<char>,
    is_last: bool,
    excl: Set<Seq<char>>,
) -> Seq<Seq<char>>
    decreases e, 0int,
{
    if excl.contains(e.name) {
        Seq::empty()
    } else {
        seq![entry_line(indent, is_last, e.kind, e.name)] + if e.kind is Directory {
            render_upto(
                e.children,
                e.children.len() as int,
                child_indent(indent, is_last),
                excl,
            )
        } else {
            Seq::empty()
        }
    }
}

/// The lines of the first `i` entries of a listing of `es.len()` raw
/// entries.  The connector of entry `j` is decided by `j == es.len() - 1`,
/// against the raw count, before exclusion.
pub open spec fn render_upto(
    es: Seq<EntryV>,
    i: int,
    indent: Seq<char>,
    excl: Set<Seq<char>>,
) -> Seq<Seq<char>>
    decreases es, i,
{
    if i <= 0 || i > es.len() {
        Seq::empty()
    } else {
        render_upto(es, i - 1, indent, excl) + render_entry(
            es[i - 1],
            indent,
            i == es.len(),
            excl,
        )
    }
}

/// The lines of a whole listing.
pub open spec fn render_children(
    es: Seq<EntryV>,
    indent: Seq<char>,
    excl: Set<Seq<char>>,
) -> Seq<Seq<char>> {
    render_upto(es, es.len() as int, indent, excl)
}

/// The views of a sequence of line strings.
pub open spec fn views_of(v: Seq<String>) -> Seq<Seq<char>> {
    v.map_values(|s: String| s@)
}

pub proof fn lemma_views_of_concat(a: Seq<String>, b: Seq<String>)
    ensures
        views_of(a + b) == views_of(a) + views_of(b),
{
    assert(views_of(a + b) =~= views_of(a) + views_of(b));
}

/// Format the one line of a listing entry.
pub fn format_entry_line(indent: &str, is_last: bool, kind: EntryKind, name: &str) -> (line:
    String)
    ensures
        line@ == entry_line(indent@, is_last, kind, name@),
{
    let mut line = indent.to_owned();
    if is_last {
        line.append("└──");
    } else {
        line.append("├──");
    }
    line.append(" [");
    match kind {
        EntryKind::Directory => line.append("Directory"),
        EntryKind::File => line.append("File"),
    }
    line.append("] ");
    line.append(name);
    proof {
        assert(line@ =~= entry_line(indent@, is_last, kind, name@));
    }
    line
}

/// The indentation for the children of an entry rendered at `indent`.
pub fn extend_indent(indent: &str, is_last: bool) -> (r: String)
    ensures
        r@ == child_indent(indent@, is_last),
{
    let mut r = indent.to_owned();
    if is_last {
        r.append("    ");
    } else {
        r.append("│   ");
    }
    r
}

/// The lines one entry contributes to the output: none when excluded, its
/// own line and then its subtree's lines otherwise.
pub fn render_entry_lines(e: &Entry, indent: &str, is_last: bool, excl: &ExclusionSet) -> (lines:
    Vec<String>)
    ensures
        views_of(lines@) == render_entry(e.deep_view(), indent@, is_last, excl@),
    decreases *e, 0int,
{
    let mut lines: Vec<String> = Vec::new();
    if should_exclude(&e.name, excl) {
        proof {
            assert(views_of(lines@) =~= render_entry(e.deep_view(), indent@, is_last, excl@));
        }
        return lines;
    }
    lines.push(format_entry_line(indent, is_last, e.kind, e.name.as_str()));
    let ghost first = lines@;
    if e.kind == EntryKind::Directory {
        let ci = extend_indent(indent, is_last);
        let mut sub = generate_tree(&e.children, ci.as_str(), excl);
        let ghost subv = sub@;
        lines.append(&mut sub);
        proof {
            lemma_views_of_concat(first, subv);
            assert(views_of(first) =~= seq![
                entry_line(indent@, is_last, e.kind, e.name@),
            ]);
            assert(views_of(lines@) =~= render_entry(e.deep_view(), indent@, is_last, excl@));
        }
    } else {
        proof {
            assert(views_of(lines@) =~= render_entry(e.deep_view(), indent@, is_last, excl@));
        }
    }
    lines
}

/// Render a whole listing: one line per visible entry, in raw listing
/// order, children indented below their directory.
pub fn generate_tree(entries: &Vec<Entry>, indent: &str, excl: &ExclusionSet) -> (lines: Vec<
    String,
>)
    ensures
        views_of(lines@) == render_children(entries_view(entries@), indent@, excl@),
        lines@.len() == visible_count_children(entries_view(entries@), excl@),
    decreases *entries, 0int,
{
    proof {
        lemma_line_count(entries_view(entries@), indent@, excl@);
    }
    let n = entries.len();
    let mut lines: Vec<String> = Vec::new();
    let mut i: usize = 0;
    proof {
        lemma_entries_view(entries@);
    }
    while i < n
        invariant
            n == entries@.len(),
            i <= n,
            entries_view(entries@).len() == n,
            forall|j: int|
                0 <= j < n ==> entries_view(entries@)[j] == entry_view(
                    #[trigger] entries@[j],
                ),
            views_of(lines@) == render_upto(entries_view(entries@), i as int, indent@, excl@),
        decreases n - i,
    {
        let is_last = i == n - 1;
        let ghost pre = lines@;
        let mut sub = render_entry_lines(&entries[i], indent, is_last, excl);
        let ghost subv = sub@;
        lines.append(&mut sub);
        proof {
            lemma_views_of_concat(pre, subv);
            let ev = entries_view(entries@);
            assert(render_upto(ev, i + 1, indent@, excl@) == render_upto(ev, i as int, indent@, excl@)
                + render_entry(ev[i as int], indent@, i + 1 == ev.len(), excl@));
            assert(ev[i as int] == entry_view(entries@[i as int]));
        }
        i += 1;
    }
    lines
}

/// How many entries of the subtree rooted at `e` are visible: none when
/// `e` is excluded, else `e` itself plus, for a directory, its visible
/// descendants.
pub open spec fn visible_count(e: EntryV, excl: Set<Seq<char>>) -> nat
    decreases e, 0int,
{
    if excl.contains(e.name) {
        0
    } else {
        1 + if e.kind is Directory {
            visible_count_upto(e.children, e.children.len() as int, excl)
        } else {
            0nat
        }
    }
}

/// Visible entries among the first `i` entries of a listing.
pub open spec fn visible_count_upto(es: Seq<EntryV>, i: int, excl: Set<Seq<char>>) -> nat
    decreases es, i,
{
    if i <= 0 || i > es.len() {
        0
    } else {
        visible_count_upto(es, i - 1, excl) + visible_count(es[i - 1], excl)
    }
}

/// Visible entries of a whole listing, descendants included.
pub open spec fn visible_count_children(es: Seq<EntryV>, excl: Set<Seq<char>>) -> nat {
    visible_count_upto(es, es.len() as int, excl)
}

pub proof fn lemma_entry_line_count(e: EntryV, indent: Seq<char>, is_last: bool, excl: Set<
    Seq<char>,
>)
    ensures
        render_entry(e, indent, is_last, excl).len() == visible_count(e, excl),
    decreases e, 0int,
{
    if !excl.contains(e.name) && e.kind is Directory {
        lemma_upto_line_count(
            e.children,
            e.children.len() as int,
            child_indent(indent, is_last),
            excl,
        );
    }
}

pub proof fn lemma_upto_line_count(es: Seq<EntryV>, i: int, indent: Seq<char>, excl: Set<
    Seq<char>,
>)
    ensures
        render_upto(es, i, indent, excl).len() == visible_count_upto(es, i, excl),
    decreases es, i,
{
    if 0 < i <= es.len() {
        lemma_upto_line_count(es, i - 1, indent, excl);
        lemma_entry_line_count(es[i - 1], indent, i == es.len(), excl);
    }
}

/// The output has exactly one line per visible entry: its length is the
/// number of non-excluded entries reachable through non-excluded
/// directories.
pub proof fn lemma_line_count(es: Seq<EntryV>, indent: Seq<char>, excl: Set<Seq<char>>)
    ensures
        render_children(es, indent, excl).len() == visible_count_children(es, excl),
{
    lemma_upto_line_count(es, es.len() as int, indent, excl);
}

proof fn lemma_upto_contains(es: Seq<EntryV>, i: int, j: int, indent: Seq<char>, excl: Set<
    Seq<char>,
>)
    requires
        0 <= i < j <= es.len(),
        !excl.contains(es[i].name),
    ensures
        render_upto(es, j, indent, excl).contains(
            entry_line(indent, i == es.len() - 1, es[i].kind, es[i].name),
        ),
    decreases j,
{
    let line = entry_line(indent, i == es.len() - 1, es[i].kind, es[i].name);
    let prev = render_upto(es, j - 1, indent, excl);
    let re = render_entry(es[j - 1], indent, j == es.len(), excl);
    assert(render_upto(es, j, indent, excl) == prev + re);
    if j == i + 1 {
        assert(re[0] == line);
        assert((prev + re)[prev.len() as int] == line);
    } else {
        lemma_upto_contains(es, i, j - 1, indent, excl);
        let k = choose|k: int| 0 <= k < prev.len() && prev[k] == line;
        assert((prev + re)[k] == line);
    }
}

/// Connector correctness: every non-excluded entry of a listing shows up
/// with the connector decided by its position in the raw listing — the
/// closing elbow exactly when it is the last raw sibling, the tee
/// otherwise, even when later raw siblings are excluded.
pub proof fn lemma_connector_of_sibling(es: Seq<EntryV>, i: int, indent: Seq<char>, excl: Set<
    Seq<char>,
>)
    requires
        0 <= i < es.len(),
        !excl.contains(es[i].name),
    ensures
        render_children(es, indent, excl).contains(
            entry_line(indent, i == es.len() - 1, es[i].kind, es[i].name),
        ),
        entry_line(indent, i == es.len() - 1, es[i].kind, es[i].name) == indent + connector(
            i == es.len() - 1,
        ) + " ["@ + kind_label(es[i].kind) + "] "@ + es[i].name,
{
    lemma_upto_contains(es, i, es.len() as int, indent, excl);
}

/// The two connectors are distinct, so within one listing exactly the
/// last raw sibling's line carries the closing elbow.
pub proof fn lemma_connectors_differ()
    ensures
        connector(true) != connector(false),
{
    reveal_strlit("└──");
    reveal_strlit("├──");
    assert(connector(true)[0] != connector(false)[0]);
}

/// `l` begins with `p`.
pub open spec fn starts_with(l: Seq<char>, p: Seq<char>) -> bool {
    l.len() >= p.len() && l.subrange(0, p.len() as int) == p
}

proof fn lemma_starts_with_widen(l: Seq<char>, a: Seq<char>, b: Seq<char>)
    requires
        starts_with(l, a + b),
    ensures
        starts_with(l, a),
{
    assert(l.subrange(0, a.len() as int) =~= (a + b).subrange(0, a.len() as int));
    assert((a + b).subrange(0, a.len() as int) =~= a);
}

pub proof fn lemma_indent_prefix_entry(e: EntryV, indent: Seq<char>, is_last: bool, excl: Set<
    Seq<char>,
>)
    ensures
        forall|j: int|
            0 <= j < render_entry(e, indent, is_last, excl).len() ==> starts_with(
                #[trigger] render_entry(e, indent, is_last, excl)[j],
                indent,
            ),
        forall|j: int|
            1 <= j < render_entry(e, indent, is_last, excl).len() ==> starts_with(
                #[trigger] render_entry(e, indent, is_last, excl)[j],
                child_indent(indent, is_last),
            ),
    decreases e, 0int,
{
    if !excl.contains(e.name) {
        let out = render_entry(e, indent, is_last, excl);
        let line = entry_line(indent, is_last, e.kind, e.name);
        assert(line.subrange(0, indent.len() as int) =~= indent);
        assert(starts_with(line, indent));
        if e.kind is Directory {
            let ci = child_indent(indent, is_last);
            lemma_indent_prefix_upto(e.children, e.children.len() as int, ci, excl);
            assert forall|j: int| 1 <= j < out.len() implies starts_with(
                #[trigger] out[j],
                ci,
            ) by {
                let sub = render_upto(e.children, e.children.len() as int, ci, excl);
                assert(out[j] == sub[j - 1]);
            }
            assert forall|j: int| 0 <= j < out.len() implies starts_with(
                #[trigger] out[j],
                indent,
            ) by {
                if j >= 1 {
                    assert(starts_with(out[j], ci));
                    if is_last {
                        assert(ci == indent + "    "@);
                        lemma_starts_with_widen(out[j], indent, "    "@);
                    } else {
                        assert(ci == indent + "│   "@);
                        lemma_starts_with_widen(out[j], indent, "│   "@);
                    }
                }
            }
        } else {
            assert forall|j: int| 0 <= j < out.len() implies starts_with(
                #[trigger] out[j],
                indent,
            ) by {
                assert(out[j] == line);
            }
        }
    }
}

/// Every line of a listing rendered at `indent` begins with `indent`;
/// child listings are rendered one four-character unit deeper, so a line's
/// depth in the tree shows as its number of leading units.
pub proof fn lemma_indent_prefix_upto(es: Seq<EntryV>, i: int, indent: Seq<char>, excl: Set<
    Seq<char>,
>)
    ensures
        forall|j: int|
            0 <= j < render_upto(es, i, indent, excl).len() ==> starts_with(
                #[trigger] render_upto(es, i, indent, excl)[j],
                indent,
            ),
    decreases es, i,
{
    if 0 < i <= es.len() {
        lemma_indent_prefix_upto(es, i - 1, indent, excl);
        lemma_indent_prefix_entry(es[i - 1], indent, i == es.len(), excl);
        let prev = render_upto(es, i - 1, indent, excl);
        let re = render_entry(es[i - 1], indent, i == es.len(), excl);
        assert forall|j: int| 0 <= j < render_upto(es, i, indent, excl).len() implies starts_with(
            #[trigger] render_upto(es, i, indent, excl)[j],
            indent,
        ) by {
            if j < prev.len() {
                assert(render_upto(es, i, indent, excl)[j] == prev[j]);
            } else {
                assert(render_upto(es, i, indent, excl)[j] == re[j - prev.len()]);
            }
        }
    }
}

/// The child indentation is the parent's plus exactly one four-character
/// unit.
pub proof fn lemma_child_indent_unit(indent: Seq<char>, is_last: bool)
    ensures
        child_indent(indent, is_last).len() == indent.len() + 4,
        starts_with(child_indent(indent, is_last), indent),
{
    reveal_strlit("    ");
    reveal_strlit("│   ");
    let ci = child_indent(indent, is_last);
    assert(ci.subrange(0, indent.len() as int) =~= indent);
}

/// Rendering is a pure function of the tree, the indentation and the
/// exclusion set: generating twice over an unchanged tree with the same
/// exclusions yields identical output.
pub proof fn lemma_generation_deterministic(
    a: Seq<Seq<char>>,
    b: Seq<Seq<char>>,
    es: Seq<EntryV>,
    indent: Seq<char>,
    excl: Set<Seq<char>>,
)
    requires
        a == render_children(es, indent, excl),
        b == render_children(es, indent, excl),
    ensures
        a == b,
{
}

} // verus!
