//! The printed report: one aligned row for each file of one line or that
//! could not be read, then one block for each file of several lines.

use crate::text::{Text, TextView};
use vstd::prelude::*;
use vstd::utf8::encode_utf8;

verus! {

/// A path as the user gave it, with the classified content of its file.
#[derive(Debug)]
pub struct FileEntry {
    pub path: String,
    pub text: Text,
}

/// Mathematical model of a [`FileEntry`].
pub struct EntryView {
    pub path: Seq<char>,
    pub text: TextView,
}

impl View for FileEntry {
    type V = EntryView;

    open spec fn view(&self) -> EntryView {
        EntryView { path: self.path@, text: self.text@ }
    }
}

/// The models of the entries of a list, in its order.
pub open spec fn views_of(entries: Seq<FileEntry>) -> Seq<EntryView> {
    Seq::new(entries.len(), |i: int| entries[i]@)
}

/// The width that a path asks of the column of paths: the number of bytes
/// of its UTF-8 form.
pub open spec fn path_width(path: Seq<char>) -> usize {
    encode_utf8(path).len() as usize
}

/// The width of the column of paths: the greatest width that any entry's
/// path asks for, whatever the entry's text; 0 for no entries.
pub open spec fn column_width(entries: Seq<EntryView>) -> usize
    decreases entries.len(),
{
    if entries.len() == 0 {
        0
    } else {
        let rest = column_width(entries.drop_last());
        let last = path_width(entries.last().path);
        if last > rest {
            last
        } else {
            rest
        }
    }
}

/// `n` spaces.
pub open spec fn spaces(n: nat) -> Seq<char> {
    Seq::new(n, |i: int| ' ')
}

/// The number of spaces before a path of `chars` characters in a column of
/// `width`.
pub open spec fn padding(width: usize, chars: nat) -> nat {
    if width > chars {
        (width - chars) as nat
    } else {
        0
    }
}

/// The row of an entry: its path, moved right to fill the column, then `: `,
/// the text as it is printed, and a newline.
pub open spec fn row(width: usize, entry: EntryView) -> Seq<char> {
    spaces(padding(width, entry.path.len())) + entry.path + seq![':', ' '] + entry.text.display()
        + seq!['\n']
}

/// The block of an entry: an empty line, the path with a colon on a line of
/// its own, then the text as it is printed.
pub open spec fn block(entry: EntryView) -> Seq<char> {
    seq!['\n'] + entry.path + seq![':', '\n'] + entry.text.display()
}

/// Whether an entry is shown as a row.
pub open spec fn in_rows() -> spec_fn(EntryView) -> bool {
    |e: EntryView| !(e.text is MultiLine)
}

/// Whether an entry is shown as a block.
pub open spec fn in_blocks() -> spec_fn(EntryView) -> bool {
    |e: EntryView| e.text is MultiLine
}

/// The rows of all of `shown`, one after the other.
pub open spec fn rows(width: usize, shown: Seq<EntryView>) -> Seq<char>
    decreases shown.len(),
{
    if shown.len() == 0 {
        Seq::empty()
    } else {
        rows(width, shown.drop_last()) + row(width, shown.last())
    }
}

/// The blocks of all of `shown`, one after the other.
pub open spec fn blocks(shown: Seq<EntryView>) -> Seq<char>
    decreases shown.len(),
{
    if shown.len() == 0 {
        Seq::empty()
    } else {
        blocks(shown.drop_last()) + block(shown.last())
    }
}

/// The whole report: the rows of the entries that are not of several lines,
/// in the order of the list and in a column as wide as the widest path of
/// the whole list; then the blocks of the entries of several lines, in the
/// order of the list.
pub open spec fn report(entries: Seq<EntryView>) -> Seq<char> {
    rows(column_width(entries), entries.filter(in_rows())) + blocks(entries.filter(in_blocks()))
}

/// Whether some entry could not be read.
pub open spec fn any_failed(entries: Seq<EntryView>) -> bool {
    exists|i: int| 0 <= i < entries.len() && (#[trigger] entries[i]).text is ReadError
}

/// What [`render`] returns.
#[derive(Debug)]
pub struct Report {
    /// The text to print.
    pub output: String,
    /// Whether some file could not be read.
    pub failed: bool,
}

impl Report {
    /// The status with which the program ends: 1 if some file could not be
    /// read, else 0.
    pub fn exit_code(&self) -> (code: i32)
        ensures
            code == if self.failed {
                1i32
            } else {
                0i32
            },
    {
        if self.failed {
            1
        } else {
            0
        }
    }
}

/// The width of the column of paths for `entries`.
pub fn max_path_len(entries: &Vec<FileEntry>) -> (width: usize)
    ensures
        width == column_width(views_of(entries@)),
{
    let ghost all = views_of(entries@);
    let mut width: usize = 0;
    let mut i: usize = 0;
    assert(all.take(0) =~= Seq::<EntryView>::empty());
    while i < entries.len()
        invariant
            i <= entries.len(),
            all == views_of(entries@),
            width == column_width(all.take(i as int)),
        decreases entries.len() - i,
    {
        let len: usize = entries[i].path.as_str().len();
        proof {
            assert(all.take(i + 1).drop_last() =~= all.take(i as int));
            assert(all.take(i + 1).last() == entries[i as int]@);
        }
        if len > width {
            width = len;
        }
        i = i + 1;
    }
    assert(all.take(i as int) =~= all);
    width
}

/// The row of `entry` in a column of `width`.
pub fn render_row(width: usize, entry: &FileEntry) -> (r: String)
    ensures
        r@ == row(width, entry@),
{
    let chars: usize = entry.path.as_str().unicode_len();
    let pad: usize = if width > chars {
        width - chars
    } else {
        0
    };
    let mut out = String::new();
    let mut i: usize = 0;
    proof {
        reveal_strlit(" ");
        reveal_strlit(": ");
        reveal_strlit("\n");
        assert(" "@ =~= seq![' ']);
        assert(": "@ =~= seq![':', ' ']);
        assert("\n"@ =~= seq!['\n']);
    }
    while i < pad
        invariant
            i <= pad,
            out@ =~= spaces(i as nat),
            " "@ == seq![' '],
        decreases pad - i,
    {
        out.append(" ");
        i = i + 1;
    }
    let shown = entry.text.display();
    out.append(entry.path.as_str());
    out.append(": ");
    out.append(shown.as_str());
    out.append("\n");
    out
}

/// The block of `entry`.
pub fn render_block(entry: &FileEntry) -> (r: String)
    ensures
        r@ == block(entry@),
{
    proof {
        reveal_strlit(":\n");
        reveal_strlit("\n");
        assert(":\n"@ =~= seq![':', '\n']);
        assert("\n"@ =~= seq!['\n']);
    }
    let shown = entry.text.display();
    let mut out = String::from_str("\n");
    out.append(entry.path.as_str());
    out.append(":\n");
    out.append(shown.as_str());
    out
}

/// Renders the report on `entries`, and tells whether any of them could not
/// be read.
pub fn render(entries: &Vec<FileEntry>) -> (r: Report)
    ensures
        r.output@ == report(views_of(entries@)),
        r.failed == any_failed(views_of(entries@)),
{
    let ghost all = views_of(entries@);
    let width = max_path_len(entries);
    let mut out = String::new();
    let mut failed = false;
    let mut i: usize = 0;
    proof {
        reveal(Seq::filter);
        assert(all.take(0) =~= Seq::<EntryView>::empty());
    }
    while i < entries.len()
        invariant
            i <= entries.len(),
            all == views_of(entries@),
            out@ == rows(width, all.take(i as int).filter(in_rows())),
            failed == any_failed(all.take(i as int)),
        decreases entries.len() - i,
    {
        let entry = &entries[i];
        proof {
            let before = all.take(i as int);
            let after = all.take(i + 1);
            assert(after =~= before.push(entry@));
            before.lemma_filter_push(entry@, in_rows());
            let shown = before.filter(in_rows());
            assert(shown.push(entry@).drop_last() =~= shown);
            if any_failed(before) {
                let j = choose|j: int| 0 <= j < before.len() && (#[trigger] before[j]).text is ReadError;
                assert(after[j].text is ReadError);
            }
            if any_failed(after) && !(entry@.text is ReadError) {
                let j = choose|j: int| 0 <= j < after.len() && (#[trigger] after[j]).text is ReadError;
                assert(before[j].text is ReadError);
            }
            if entry@.text is ReadError {
                assert(after[i as int].text is ReadError);
            }
        }
        if !entry.text.is_multiline() {
            let line = render_row(width, entry);
            out.append(line.as_str());
            if entry.text.is_err() {
                failed = true;
            }
        }
        i = i + 1;
    }
    assert(all.take(i as int) =~= all);
    let ghost first = out@;
    i = 0;
    proof {
        reveal(Seq::filter);
    }
    while i < entries.len()
        invariant
            i <= entries.len(),
            all == views_of(entries@),
            out@ == first + blocks(all.take(i as int).filter(in_blocks())),
        decreases entries.len() - i,
    {
        let entry = &entries[i];
        proof {
            let before = all.take(i as int);
            assert(all.take(i + 1) =~= before.push(entry@));
            before.lemma_filter_push(entry@, in_blocks());
            let shown = before.filter(in_blocks());
            assert(shown.push(entry@).drop_last() =~= shown);
        }
        if entry.text.is_multiline() {
            let part = render_block(entry);
            out.append(part.as_str());
            assert(out@ =~= first + blocks(all.take(i + 1).filter(in_blocks())));
        }
        i = i + 1;
    }
    assert(all.take(i as int) =~= all);
    Report { output: out, failed }
}

/// The column is exactly as wide as the widest path of the list asks,
/// whichever entry that path belongs to.
pub proof fn law_column_width_is_max(entries: Seq<EntryView>)
    ensures
        forall|i: int|
            0 <= i < entries.len() ==> path_width((#[trigger] entries[i]).path) <= column_width(
                entries,
            ),
        entries.len() > 0 ==> exists|i: int|
            0 <= i < entries.len() && column_width(entries) == path_width(
                (#[trigger] entries[i]).path,
            ),
        entries.len() == 0 ==> column_width(entries) == 0,
    decreases entries.len(),
{
    if entries.len() > 0 {
        let rest = entries.drop_last();
        law_column_width_is_max(rest);
        assert forall|i: int| 0 <= i < entries.len() implies path_width(
            (#[trigger] entries[i]).path,
        ) <= column_width(entries) by {
            if i < rest.len() {
                assert(rest[i] == entries[i]);
            }
        }
        if column_width(entries) == path_width(entries.last().path) {
            assert(entries[entries.len() - 1] == entries.last());
        } else {
            let j = choose|j: int|
                0 <= j < rest.len() && column_width(rest) == path_width((#[trigger] rest[j]).path);
            assert(entries[j] == rest[j]);
        }
    }
}

/// The width of the column depends on the paths alone: two lists with the
/// same paths have the same width, whatever their texts.
pub proof fn law_column_width_ignores_texts(a: Seq<EntryView>, b: Seq<EntryView>)
    requires
        a.len() == b.len(),
        forall|i: int| 0 <= i < a.len() ==> (#[trigger] a[i]).path == b[i].path,
    ensures
        column_width(a) == column_width(b),
    decreases a.len(),
{
    if a.len() > 0 {
        let front_a = a.drop_last();
        let front_b = b.drop_last();
        assert forall|i: int| 0 <= i < front_a.len() implies (#[trigger] front_a[i]).path
            == front_b[i].path by {
            assert(a[i].path == b[i].path);
        }
        law_column_width_ignores_texts(front_a, front_b);
        assert(a[a.len() - 1].path == b[a.len() - 1].path);
    }
}

/// The rows of a list are the rows of its front followed by those of its
/// back.
pub proof fn lemma_rows_concat(width: usize, a: Seq<EntryView>, b: Seq<EntryView>)
    ensures
        rows(width, a + b) == rows(width, a) + rows(width, b),
    decreases b.len(),
{
    if b.len() == 0 {
        assert(a + b =~= a);
        assert(rows(width, a) + rows(width, b) =~= rows(width, a));
    } else {
        assert((a + b).drop_last() =~= a + b.drop_last());
        assert((a + b).last() == b.last());
        lemma_rows_concat(width, a, b.drop_last());
        assert(rows(width, a + b) =~= rows(width, a) + rows(width, b));
    }
}

/// The blocks of a list are the blocks of its front followed by those of its
/// back.
pub proof fn lemma_blocks_concat(a: Seq<EntryView>, b: Seq<EntryView>)
    ensures
        blocks(a + b) == blocks(a) + blocks(b),
    decreases b.len(),
{
    if b.len() == 0 {
        assert(a + b =~= a);
        assert(blocks(a) + blocks(b) =~= blocks(a));
    } else {
        assert((a + b).drop_last() =~= a + b.drop_last());
        assert((a + b).last() == b.last());
        lemma_blocks_concat(a, b.drop_last());
        assert(blocks(a + b) =~= blocks(a) + blocks(b));
    }
}

/// Each pass keeps the order of the list: in the rows, and in the blocks,
/// what stands for the entries of `a` comes before what stands for the
/// entries of `b` that follow them.
pub proof fn law_passes_keep_order(width: usize, a: Seq<EntryView>, b: Seq<EntryView>)
    ensures
        rows(width, (a + b).filter(in_rows())) == rows(width, a.filter(in_rows())) + rows(
            width,
            b.filter(in_rows()),
        ),
        blocks((a + b).filter(in_blocks())) == blocks(a.filter(in_blocks())) + blocks(
            b.filter(in_blocks()),
        ),
{
    Seq::filter_distributes_over_add(a, b, in_rows());
    Seq::filter_distributes_over_add(a, b, in_blocks());
    lemma_rows_concat(width, a.filter(in_rows()), b.filter(in_rows()));
    lemma_blocks_concat(a.filter(in_blocks()), b.filter(in_blocks()));
}

/// The two passes share no entry and leave none out: no entry among the
/// rows has several lines, every entry among the blocks has, and together
/// they are as many as the list.
pub proof fn law_passes_are_apart(entries: Seq<EntryView>)
    ensures
        forall|i: int|
            0 <= i < entries.filter(in_rows()).len() ==> !((#[trigger] entries.filter(
                in_rows(),
            )[i]).text is MultiLine),
        forall|i: int|
            0 <= i < entries.filter(in_blocks()).len() ==> (#[trigger] entries.filter(
                in_blocks(),
            )[i]).text is MultiLine,
        entries.filter(in_rows()).len() + entries.filter(in_blocks()).len() == entries.len(),
    decreases entries.len(),
{
    assert forall|i: int| 0 <= i < entries.filter(in_rows()).len() implies !((
    #[trigger] entries.filter(in_rows())[i]).text is MultiLine) by {
        entries.lemma_filter_pred(in_rows(), i);
    }
    assert forall|i: int| 0 <= i < entries.filter(in_blocks()).len() implies (
    #[trigger] entries.filter(in_blocks())[i]).text is MultiLine by {
        entries.lemma_filter_pred(in_blocks(), i);
    }
    reveal(Seq::filter);
    if entries.len() > 0 {
        law_passes_are_apart(entries.drop_last());
    }
}

} // verus!
