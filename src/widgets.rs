use vstd::prelude::*;
use vstd::string::StrSliceExecFns;

verus! {

/// A label whose text is broken into lines of at most `width` columns where
/// it has spaces.
pub struct UIWrappingLabel {
    pub lines: Vec<String>,
    pub width: usize,
}

/// Progress of wrapping: the finished lines, where the current line and the
/// word being read start, and the column reached.
pub struct Wrap {
    pub lines: Seq<Seq<char>>,
    pub line_start: int,
    pub word_start: int,
    pub x: int,
}

/// Reads character `i`: a newline ends the line; a space or tab ends the
/// word (a tab moves to the next multiple of four); a character of a word
/// that starts past the width on a line that already holds something moves
/// that word to a new line.
pub open spec fn wrap_step(text: Seq<char>, width: int, st: Wrap, i: int) -> Wrap {
    let ch = text[i];
    if ch == '\n' {
        Wrap { lines: st.lines.push(text.subrange(st.line_start, i)), line_start: i + 1, word_start: i + 1, x: 0 }
    } else if ch == ' ' || ch == '\t' {
        Wrap {
            lines: st.lines,
            line_start: st.line_start,
            word_start: i + 1,
            x: if ch == '\t' { st.x + 4 - st.x % 4 } else { st.x + 1 },
        }
    } else if st.line_start < st.word_start && st.x >= width {
        Wrap {
            lines: st.lines.push(text.subrange(st.line_start, st.word_start)),
            line_start: st.word_start,
            word_start: st.word_start,
            x: i + 1 - st.word_start,
        }
    } else {
        Wrap { lines: st.lines, line_start: st.line_start, word_start: st.word_start, x: st.x + 1 }
    }
}

/// The state after the first `n` characters.
pub open spec fn wrap_prefix(text: Seq<char>, width: int, n: nat) -> Wrap
    decreases n,
{
    if n == 0 {
        Wrap { lines: Seq::empty(), line_start: 0, word_start: 0, x: 0 }
    } else {
        wrap_step(text, width, wrap_prefix(text, width, (n - 1) as nat), n - 1)
    }
}

/// The wrapped lines of `text`; the text after the last newline makes a
/// last line unless it is empty.
pub open spec fn spec_wrap_text(text: Seq<char>, width: int) -> Seq<Seq<char>> {
    let st = wrap_prefix(text, width, text.len());
    if st.line_start < text.len() {
        st.lines.push(text.subrange(st.line_start, text.len() as int))
    } else {
        st.lines
    }
}

pub proof fn lemma_wrap_bounds(text: Seq<char>, width: int, n: nat)
    requires
        n <= text.len(),
    ensures
        0 <= wrap_prefix(text, width, n).line_start <= wrap_prefix(text, width, n).word_start <= n,
        wrap_prefix(text, width, n).x >= 0,
    decreases n,
{
    if n > 0 {
        lemma_wrap_bounds(text, width, (n - 1) as nat);
    }
}

/// The text with its newlines taken out.
pub open spec fn strip_newlines(text: Seq<char>) -> Seq<char>
    decreases text.len(),
{
    if text.len() == 0 {
        Seq::empty()
    } else if text.last() == '\n' {
        strip_newlines(text.drop_last())
    } else {
        strip_newlines(text.drop_last()).push(text.last())
    }
}

/// The lines one after another.
pub open spec fn joined(lines: Seq<Seq<char>>) -> Seq<char>
    decreases lines.len(),
{
    if lines.len() == 0 {
        Seq::empty()
    } else {
        joined(lines.drop_last()) + lines.last()
    }
}

proof fn lemma_joined_push(lines: Seq<Seq<char>>, line: Seq<char>)
    ensures
        joined(lines.push(line)) == joined(lines) + line,
{
    assert(lines.push(line).drop_last() =~= lines);
}

/// So far, the finished lines and the current one hold the text read, less
/// its newlines; the current line holds no newline.
proof fn lemma_wrap_keeps_text(text: Seq<char>, width: int, n: nat)
    requires
        n <= text.len(),
    ensures
        joined(wrap_prefix(text, width, n).lines) + text.subrange(wrap_prefix(text, width, n).line_start, n as int)
            == strip_newlines(text.subrange(0, n as int)),
        forall|k: int| wrap_prefix(text, width, n).line_start <= k < n ==> text[k] != '\n',
    decreases n,
{
    if n > 0 {
        let i = (n - 1) as nat;
        lemma_wrap_keeps_text(text, width, i);
        lemma_wrap_bounds(text, width, i);
        let st = wrap_prefix(text, width, i);
        let c = text[i as int];
        assert(text.subrange(0, n as int).drop_last() =~= text.subrange(0, i as int));
        assert(text.subrange(0, n as int).last() == c);
        if c == '\n' {
            lemma_joined_push(st.lines, text.subrange(st.line_start, i as int));
            assert(text.subrange(n as int, n as int) =~= Seq::<char>::empty());
            assert(joined(wrap_prefix(text, width, n).lines) + text.subrange(n as int, n as int)
                =~= joined(st.lines) + text.subrange(st.line_start, i as int));
        } else if c == ' ' || c == '\t' || !(st.line_start < st.word_start && st.x >= width) {
            assert(text.subrange(st.line_start, n as int) =~= text.subrange(st.line_start, i as int).push(c));
            assert(joined(st.lines) + text.subrange(st.line_start, n as int)
                =~= (joined(st.lines) + text.subrange(st.line_start, i as int)).push(c));
        } else {
            lemma_joined_push(st.lines, text.subrange(st.line_start, st.word_start));
            assert(text.subrange(st.line_start, n as int) =~= text.subrange(st.line_start, i as int).push(c));
            assert(joined(st.lines) + text.subrange(st.line_start, st.word_start) + text.subrange(st.word_start, n as int)
                =~= (joined(st.lines) + text.subrange(st.line_start, i as int)).push(c));
        }
    }
}

/// Wrapping loses no character but the newlines, and adds none.
pub proof fn lemma_wrap_text_keeps_text(text: Seq<char>, width: int)
    ensures
        joined(spec_wrap_text(text, width)) == strip_newlines(text),
{
    lemma_wrap_keeps_text(text, width, text.len());
    lemma_wrap_bounds(text, width, text.len());
    let st = wrap_prefix(text, width, text.len());
    assert(text.subrange(0, text.len() as int) =~= text);
    if st.line_start < text.len() {
        lemma_joined_push(st.lines, text.subrange(st.line_start, text.len() as int));
    } else {
        assert(text.subrange(st.line_start, text.len() as int) =~= Seq::<char>::empty());
        assert(joined(st.lines) + Seq::<char>::empty() =~= joined(st.lines));
    }
}

pub open spec fn views(lines: Seq<String>) -> Seq<Seq<char>> {
    lines.map_values(|s: String| s@)
}

impl UIWrappingLabel {
    /// Breaks `text` into lines for a label `width` columns wide.
    #[verifier::rlimit(30)]
    pub fn wrap_text(text: &str, width: usize) -> (r: Vec<String>)
        ensures
            views(r@) == spec_wrap_text(text@, width as int),
            joined(views(r@)) == strip_newlines(text@),
    {
        let n = text.unicode_len();
        let mut lines: Vec<String> = Vec::new();
        let mut line_start: usize = 0;
        let mut word_start: usize = 0;
        let mut x: usize = 0;
        let mut i: usize = 0;
        while i < n
            invariant
                n == text@.len(),
                i <= n,
                views(lines@) == wrap_prefix(text@, width as int, i as nat).lines,
                line_start == wrap_prefix(text@, width as int, i as nat).line_start,
                word_start == wrap_prefix(text@, width as int, i as nat).word_start,
                x as int == if wrap_prefix(text@, width as int, i as nat).x < width {
                    wrap_prefix(text@, width as int, i as nat).x
                } else {
                    width as int
                },
            decreases n - i,
        {
            proof {
                lemma_wrap_bounds(text@, width as int, i as nat);
            }
            let ghost before = views(lines@);
            let ch = text.get_char(i);
            if ch == '\n' {
                lines.push(text.substring_char(line_start, i).to_owned());
                line_start = i + 1;
                word_start = i + 1;
                x = 0;
            } else if ch == ' ' || ch == '\t' {
                word_start = i + 1;
                if x < width {
                    let advance: usize = if ch == '\t' { 4 - x % 4 } else { 1 };
                    x = if advance >= width - x { width } else { x + advance };
                }
            } else if line_start < word_start && x >= width {
                lines.push(text.substring_char(line_start, word_start).to_owned());
                line_start = word_start;
                let taken = i + 1 - word_start;
                x = if taken >= width { width } else { taken };
            } else if x < width {
                x = x + 1;
            }
            proof {
                assert(views(lines@) =~= wrap_prefix(text@, width as int, (i + 1) as nat).lines);
            }
            i += 1;
        }
        proof {
            lemma_wrap_bounds(text@, width as int, n as nat);
        }
        if line_start < n {
            lines.push(text.substring_char(line_start, n).to_owned());
        }
        proof {
            assert(views(lines@) =~= spec_wrap_text(text@, width as int));
            lemma_wrap_text_keeps_text(text@, width as int);
        }
        lines
    }
}

} // verus!
