//! Classification of a file's content as one line, several lines, or a
//! failed read.

use vstd::prelude::*;
use vstd::std_specs::iter::IteratorSpec;

verus! {

/// The newline character, by which content is classified.
pub open spec fn newline() -> char {
    '\n'
}

/// Length of `s` once every newline at its end is removed.
pub open spec fn trimmed_len(s: Seq<char>) -> nat
    decreases s.len(),
{
    if s.len() > 0 && s.last() == newline() {
        trimmed_len(s.drop_last())
    } else {
        s.len()
    }
}

/// `s` without the run of newlines at its end.
pub open spec fn trim_newlines(s: Seq<char>) -> Seq<char> {
    s.subrange(0, trimmed_len(s) as int)
}

/// Mathematical model of a [`Text`].
pub enum TextView {
    OneLine(Seq<char>),
    MultiLine(Seq<char>),
    ReadError(Seq<char>),
}

/// What [`Text::new`] makes of the content `s`.
///
/// Content whose only newlines stand at its end is one line, and loses them.
/// Any other content has a line break inside; it keeps what stands before
/// the newlines at its end, and ends in exactly one newline.
pub open spec fn classify(s: Seq<char>) -> TextView {
    let trimmed = trim_newlines(s);
    if !trimmed.contains(newline()) {
        TextView::OneLine(trimmed)
    } else {
        TextView::MultiLine(trimmed.push(newline()))
    }
}

/// The content of one file, classified.
#[derive(Debug)]
pub enum Text {
    /// A single line of text, without a newline.
    OneLine(String),
    /// More than one line of text, ending in exactly one newline.
    MultiLine(String),
    /// The file could not be read; holds the reason.
    ReadError(String),
}

impl View for Text {
    type V = TextView;

    open spec fn view(&self) -> TextView {
        match self {
            Text::OneLine(s) => TextView::OneLine(s@),
            Text::MultiLine(s) => TextView::MultiLine(s@),
            Text::ReadError(e) => TextView::ReadError(e@),
        }
    }
}

impl TextView {
    /// The invariant of a classified text: one line holds no newline; several
    /// lines end in exactly one newline and hold another one before it.
    pub open spec fn wf(self) -> bool {
        match self {
            TextView::OneLine(s) => !s.contains(newline()),
            TextView::MultiLine(s) => s.len() >= 2 && s.last() == newline() && s[s.len() - 2]
                != newline() && s.drop_last().contains(newline()),
            TextView::ReadError(_) => true,
        }
    }

    /// The text that the value carries: the content, or the reason of the
    /// failure.
    pub open spec fn content(self) -> Seq<char> {
        match self {
            TextView::OneLine(s) => s,
            TextView::MultiLine(s) => s,
            TextView::ReadError(e) => e,
        }
    }

    /// What is printed for the value: the content as it is, or the reason of
    /// the failure between `[Error: ` and `]`.
    pub open spec fn display(self) -> Seq<char> {
        match self {
            TextView::OneLine(s) => s,
            TextView::MultiLine(s) => s,
            TextView::ReadError(e) => error_prefix() + e + error_suffix(),
        }
    }
}

/// The characters `[Error: `, which open a failure's description.
pub open spec fn error_prefix() -> Seq<char> {
    seq!['[', 'E', 'r', 'r', 'o', 'r', ':', ' ']
}

/// The character `]`, which closes a failure's description.
pub open spec fn error_suffix() -> Seq<char> {
    seq![']']
}

/// What [`Text::read`] makes of the outcome of reading a file.
pub open spec fn classify_read(outcome: Result<Seq<char>, Seq<char>>) -> TextView {
    match outcome {
        Ok(content) => classify(content),
        Err(reason) => TextView::ReadError(reason),
    }
}

/// `trimmed_len` marks the end of the last character that is no newline.
pub proof fn lemma_trimmed_len(s: Seq<char>)
    ensures
        trimmed_len(s) <= s.len(),
        trimmed_len(s) > 0 ==> s[trimmed_len(s) - 1] != newline(),
        forall|i: int| trimmed_len(s) <= i < s.len() ==> #[trigger] s[i] == newline(),
    decreases s.len(),
{
    if s.len() > 0 && s.last() == newline() {
        let front = s.drop_last();
        lemma_trimmed_len(front);
        assert forall|i: int| trimmed_len(s) <= i < s.len() implies #[trigger] s[i]
            == newline() by {
            if i < front.len() {
                assert(front[i] == newline());
            }
        }
    }
}

/// Whatever ends in a character that is no newline is already trimmed, and
/// a newline added to content only lengthens the run at its end.
pub proof fn lemma_trimmed_len_push(s: Seq<char>, c: char)
    ensures
        trimmed_len(s.push(c)) == if c == newline() {
            trimmed_len(s)
        } else {
            s.len() + 1
        },
{
    assert(s.push(c).drop_last() =~= s);
}

/// Reading one more character: a newline leaves the trimmed length as it
/// was; any other character moves it to the end, and the newlines that stood
/// between the two now stand inside.
proof fn lemma_scan_step(s: Seq<char>, count: int)
    requires
        0 <= count < s.len(),
    ensures
        s.subrange(0, count + 1) == s.subrange(0, count).push(s[count]),
        s[count] == newline() ==> trimmed_len(s.subrange(0, count + 1)) == trimmed_len(
            s.subrange(0, count),
        ),
        s[count] != newline() ==> trimmed_len(s.subrange(0, count + 1)) == count + 1,
        s[count] != newline() ==> (s.subrange(0, count + 1).contains(newline()) <==> (s.subrange(
            0,
            trimmed_len(s.subrange(0, count)) as int,
        ).contains(newline()) || trimmed_len(s.subrange(0, count)) < count)),
{
    let before = s.subrange(0, count);
    let after = s.subrange(0, count + 1);
    let kept = trimmed_len(before) as int;
    assert(after =~= before.push(s[count]));
    lemma_trimmed_len_push(before, s[count]);
    lemma_trimmed_len(before);
    if s[count] != newline() {
        let head = s.subrange(0, kept);
        if after.contains(newline()) {
            let j = choose|j: int| 0 <= j < after.len() && after[j] == newline();
            if j < kept {
                assert(head[j] == newline());
            }
        }
        if head.contains(newline()) {
            let j = choose|j: int| 0 <= j < head.len() && head[j] == newline();
            assert(after[j] == newline());
        }
        if kept < count {
            assert(before[kept] == newline());
            assert(after[kept] == newline());
        }
    }
}

/// What content with a line break inside becomes: it ends in exactly one
/// newline, and holds before it what the content held before the newlines
/// at its end.
pub proof fn lemma_closed(s: Seq<char>)
    requires
        trim_newlines(s).contains(newline()),
    ensures
        classify(s) == TextView::MultiLine(trim_newlines(s).push(newline())),
        classify(s).wf(),
        trim_newlines(classify(s).content()) == trim_newlines(s),
        classify(s).content().len() == trimmed_len(s) + 1,
{
    lemma_trimmed_len(s);
    let trimmed = trim_newlines(s);
    let closed = trimmed.push(newline());
    assert(trimmed.len() > 0);
    assert(trimmed.last() == s[trimmed_len(s) - 1]);
    assert(trimmed_len(trimmed) == trimmed.len());
    lemma_trimmed_len_push(trimmed, newline());
    assert(closed.drop_last() =~= trimmed);
    assert(closed[closed.len() - 2] == trimmed.last());
    assert(trim_newlines(closed) =~= trimmed);
}

impl Text {
    /// Classifies the content of a file.
    pub fn new(text: String) -> (r: Text)
        ensures
            r@ == classify(text@),
            r@.wf(),
    {
        broadcast use vstd::string::group_string_axioms;

        let len: usize = text.as_str().unicode_len();
        let mut it = text.as_str().chars();
        // characters read so far, the length of what is left of them once
        // trimmed, and whether that holds a newline
        let mut count: usize = 0;
        let mut kept: usize = 0;
        let mut inner = false;
        assert(text@.subrange(0, 0) =~= Seq::<char>::empty());
        assert(text@.subrange(0, len as int) =~= text@);
        while count < len
            invariant
                kept <= count <= len == text@.len(),
                it.remaining() == text@.subrange(count as int, len as int),
                kept == trimmed_len(text@.subrange(0, count as int)),
                inner == text@.subrange(0, kept as int).contains(newline()),
            decreases len - count,
        {
            let next = it.next();
            proof {
                lemma_scan_step(text@, count as int);
                lemma_trimmed_len(text@.subrange(0, count as int));
                assert(text@.subrange(count as int, len as int).drop_first() =~= text@.subrange(
                    count as int + 1,
                    len as int,
                ));
            }
            if next != Some('\n') {
                if kept < count {
                    inner = true;
                }
                kept = count + 1;
            }
            count = count + 1;
        }
        proof {
            lemma_trimmed_len(text@);
            reveal_strlit("\n");
        }
        if !inner {
            if kept == len {
                Text::OneLine(text)
            } else {
                Text::OneLine(text.as_str().substring_char(0, kept).to_owned())
            }
        } else {
            proof {
                lemma_closed(text@);
            }
            if kept == len {
                let closed = text.concat("\n");
                proof {
                    assert("\n"@ =~= seq![newline()]);
                    assert(trim_newlines(text@) =~= text@);
                    assert(closed@ =~= text@.push(newline()));
                }
                Text::MultiLine(closed)
            } else if kept + 1 == len {
                assert(text@ =~= trim_newlines(text@).push(newline()));
                Text::MultiLine(text)
            } else {
                let closed = text.as_str().substring_char(0, kept + 1).to_owned();
                assert(closed@ =~= trim_newlines(text@).push(newline()));
                Text::MultiLine(closed)
            }
        }
    }

    /// Classifies the outcome of reading a file as text: the content where
    /// the read succeeded, else the reason why it failed.
    pub fn read(outcome: Result<String, String>) -> (r: Text)
        ensures
            r@ == classify_read(
                match outcome {
                    Ok(content) => Ok(content@),
                    Err(reason) => Err(reason@),
                },
            ),
            r@.wf(),
    {
        match outcome {
            Ok(content) => Text::new(content),
            Err(reason) => Text::ReadError(reason),
        }
    }

    /// Whether the text has more than one line.
    #[inline]
    pub fn is_multiline(&self) -> (r: bool)
        ensures
            r == (self@ is MultiLine),
    {
        matches!(self, Text::MultiLine(_))
    }

    /// Whether the file could not be read.
    #[inline]
    pub fn is_err(&self) -> (r: bool)
        ensures
            r == (self@ is ReadError),
    {
        matches!(self, Text::ReadError(_))
    }

    /// The text as it is printed.
    pub fn display(&self) -> (r: String)
        ensures
            r@ == self@.display(),
    {
        match self {
            Text::OneLine(s) => s.clone(),
            Text::MultiLine(s) => s.clone(),
            Text::ReadError(e) => {
                proof {
                    reveal_strlit("[Error: ");
                    reveal_strlit("]");
                    assert("[Error: "@ =~= error_prefix());
                    assert("]"@ =~= error_suffix());
                }
                String::from_str("[Error: ").concat(e.as_str()).concat("]")
            },
        }
    }
}

/// Content without a newline is one line, and is kept as it is.
pub proof fn law_no_newline_is_one_line(t: Seq<char>)
    requires
        !t.contains(newline()),
    ensures
        classify(t) == TextView::OneLine(t),
{
    if t.len() > 0 {
        assert(t[t.len() - 1] != newline());
    }
    assert(trim_newlines(t) =~= t);
}

/// Content made of newlines alone is one empty line.
pub proof fn law_only_newlines_is_empty_line(t: Seq<char>)
    requires
        t.len() >= 1,
        forall|i: int| 0 <= i < t.len() ==> t[i] == newline(),
    ensures
        classify(t) == TextView::OneLine(Seq::<char>::empty()),
    decreases t.len(),
{
    lemma_trimmed_len(t);
    if trimmed_len(t) > 0 {
        assert(t[trimmed_len(t) - 1] == newline());
    }
    assert(trim_newlines(t) =~= Seq::<char>::empty());
}

/// Content of several lines that ends in a single newline is kept as it is:
/// it holds a newline before its last character, that character is a
/// newline, and the one before it is none.
pub proof fn law_normalized_is_unchanged(t: Seq<char>)
    requires
        t.len() >= 2,
        t.last() == newline(),
        t[t.len() - 2] != newline(),
        t.drop_last().contains(newline()),
    ensures
        classify(t) == TextView::MultiLine(t),
{
    let front = t.drop_last();
    assert(front.last() != newline());
    assert(trimmed_len(front) == front.len());
    assert(trimmed_len(t) == trimmed_len(front));
    assert(trim_newlines(t) =~= front);
    assert(front.push(newline()) =~= t);
}

/// Classifying is idempotent: the content of a classified text is classified
/// as that same text.
pub proof fn law_classified_is_fixed(v: TextView)
    requires
        v.wf(),
        !(v is ReadError),
    ensures
        classify(v.content()) == v,
{
    match v {
        TextView::OneLine(s) => law_no_newline_is_one_line(s),
        TextView::MultiLine(s) => law_normalized_is_unchanged(s),
        _ => {},
    }
}

/// Whatever the content, its classification meets the invariant, is no
/// failure, and is left as it is when its content is classified again.
pub proof fn law_classify_twice(s: Seq<char>)
    ensures
        classify(s).wf(),
        !(classify(s) is ReadError),
        classify(classify(s).content()) == classify(s),
{
    if trim_newlines(s).contains(newline()) {
        lemma_closed(s);
    }
    law_classified_is_fixed(classify(s));
}

/// Content of several lines ends in exactly one newline once classified,
/// and holds before it what the content held before the newlines at its
/// end, whatever their number.
pub proof fn law_multiline_is_closed(s: Seq<char>)
    requires
        classify(s) is MultiLine,
    ensures
        classify(s).content() == trim_newlines(s).push(newline()),
        classify(s).content().len() == trimmed_len(s) + 1,
        classify(s).content().last() == newline(),
        classify(s).content()[trimmed_len(s) - 1] != newline(),
        trim_newlines(classify(s).content()) == trim_newlines(s),
{
    lemma_closed(s);
    lemma_trimmed_len(s);
}

} // verus!
