//! Output selection and the text helpers the human renderer uses.
//!
//! The table and JSON renderers themselves live at the boundary; the library
//! holds the format choice and the exactly-specified text helpers. Lengths
//! and widths are counted in characters.

use crate::text::{exec_is_space_char, is_space_char};
use vstd::prelude::*;

verus! {

/// How results are rendered at the boundary.
#[derive(Clone, Copy, Debug, PartialEq, Eq, Structural)]
pub enum OutputFormat {
    Human,
    Json,
}

/// Carries the chosen output format to the boundary's renderers.
#[derive(Clone, Copy, Debug)]
pub struct OutputFormatter {
    pub format: OutputFormat,
}

impl OutputFormatter {
    /// A formatter for the chosen format.
    pub fn new(format: OutputFormat) -> (r: OutputFormatter)
        ensures
            r.format == format,
    {
        OutputFormatter { format }
    }
}

/// `s` shortened to at most `max_len` characters: an over-long string keeps
/// its first `max_len - 3` characters and gains a three-dot ellipsis.
pub open spec fn truncate_spec(s: Seq<char>, max_len: int) -> Seq<char> {
    if s.len() > max_len {
        s.take(max_len - 3) + "..."@
    } else {
        s
    }
}

/// Shortens a string to at most `max_len` characters, marking the cut with
/// an ellipsis.
pub fn truncate(s: &str, max_len: usize) -> (r: String)
    requires
        3 <= max_len,
    ensures
        r@ == truncate_spec(s@, max_len as int),
{
    proof {
        reveal_strlit("...");
    }
    if s.unicode_len() > max_len {
        let cut = s.substring_char(0, max_len - 3);
        let mut out = cut.to_owned();
        out.append("...");
        out
    } else {
        s.to_owned()
    }
}

/// One step of splitting into words: a white-space character closes the
/// current word (if any); any other character extends it.
pub open spec fn words_step(
    acc: (Seq<Seq<char>>, Seq<char>),
    c: char,
) -> (Seq<Seq<char>>, Seq<char>) {
    if is_space_char(c) {
        if acc.1.len() > 0 {
            (acc.0.push(acc.1), Seq::empty())
        } else {
            acc
        }
    } else {
        (acc.0, acc.1.push(c))
    }
}

/// The completed words and the trailing unfinished word of `s`.
pub open spec fn words_fold(s: Seq<char>) -> (Seq<Seq<char>>, Seq<char>)
    decreases s.len(),
{
    if s.len() == 0 {
        (Seq::empty(), Seq::empty())
    } else {
        words_step(words_fold(s.drop_last()), s.last())
    }
}

/// The white-space-separated words of `s`, in order.
pub open spec fn words_of(s: Seq<char>) -> Seq<Seq<char>> {
    let folded = words_fold(s);
    if folded.1.len() > 0 {
        folded.0.push(folded.1)
    } else {
        folded.0
    }
}

/// One step of greedy wrapping: a word that would push the current nonempty
/// line past the width closes that line; otherwise it joins the line after a
/// single space (or starts it).
pub open spec fn wrap_step(
    acc: (Seq<Seq<char>>, Seq<char>),
    w: Seq<char>,
    width: int,
) -> (Seq<Seq<char>>, Seq<char>) {
    let cur = acc.1;
    if cur.len() + w.len() + 1 > width && cur.len() > 0 {
        (acc.0.push(cur), w)
    } else if cur.len() == 0 {
        (acc.0, w)
    } else {
        (acc.0, cur + seq![' '] + w)
    }
}

/// The completed lines and the trailing unfinished line after greedily
/// wrapping the words.
pub open spec fn wrap_fold(ws: Seq<Seq<char>>, width: int) -> (Seq<Seq<char>>, Seq<char>)
    decreases ws.len(),
{
    if ws.len() == 0 {
        (Seq::empty(), Seq::empty())
    } else {
        wrap_step(wrap_fold(ws.drop_last(), width), ws.last(), width)
    }
}

/// The lines of `s` greedily wrapped at `width` characters: each line joins
/// consecutive words with single spaces; a text without any word comes back
/// unchanged as the only line.
pub open spec fn wrap_text_spec(s: Seq<char>, width: int) -> Seq<Seq<char>> {
    let folded = wrap_fold(words_of(s), width);
    let lines = if folded.1.len() > 0 {
        folded.0.push(folded.1)
    } else {
        folded.0
    };
    if lines.len() == 0 {
        seq![s]
    } else {
        lines
    }
}

/// Splits a string into its white-space-separated words.
fn split_words(s: &str) -> (r: Vec<String>)
    ensures
        r.deep_view() == words_of(s@),
{
    let len = s.unicode_len();
    let mut out: Vec<String> = Vec::new();
    let mut start: usize = 0;
    let mut in_word: bool = false;
    proof {
        assert(s@.take(0) =~= Seq::<char>::empty());
        assert(out.deep_view() =~= words_fold(s@.take(0)).0);
    }
    let mut i: usize = 0;
    while i < len
        invariant
            i <= len,
            len == s@.len(),
            out.deep_view() == words_fold(s@.take(i as int)).0,
            out@.len() == words_fold(s@.take(i as int)).0.len(),
            in_word ==> start < i && words_fold(s@.take(i as int)).1 == s@.subrange(
                start as int,
                i as int,
            ) && s@.subrange(start as int, i as int).len() > 0,
            !in_word ==> words_fold(s@.take(i as int)).1.len() == 0,
        decreases len - i,
    {
        let c = s.get_char(i);
        proof {
            assert(s@.take(i as int + 1).drop_last() =~= s@.take(i as int));
            assert(s@.take(i as int + 1).last() == s@[i as int]);
        }
        if exec_is_space_char(c) {
            if in_word {
                let w = s.substring_char(start, i);
                proof {
                    assert(w@ =~= s@.subrange(start as int, i as int));
                }
                let ghost old_elems = out@;
                out.push(w.to_owned());
                proof {
                    assert forall|j: int| 0 <= j < out@.len() implies #[trigger] out@[j].deep_view()
                        == words_fold(s@.take(i as int + 1)).0[j] by {
                        if j < old_elems.len() {
                            assert(out@[j] == old_elems[j]);
                        }
                    }
                    assert(out.deep_view() =~= words_fold(s@.take(i as int + 1)).0);
                }
                in_word = false;
            }
        } else {
            if !in_word {
                start = i;
                in_word = true;
            }
            proof {
                assert(s@.subrange(start as int, i as int + 1) =~= s@.subrange(
                    start as int,
                    i as int,
                ).push(s@[i as int]));
            }
        }
        i = i + 1;
    }
    proof {
        assert(s@.take(len as int) =~= s@);
    }
    if in_word {
        let w = s.substring_char(start, len);
        proof {
            assert(w@ =~= s@.subrange(start as int, len as int));
        }
        let ghost old_elems = out@;
        out.push(w.to_owned());
        proof {
            assert forall|j: int| 0 <= j < out@.len() implies #[trigger] out@[j].deep_view()
                == words_of(s@)[j] by {
                if j < old_elems.len() {
                    assert(out@[j] == old_elems[j]);
                }
            }
            assert(out.deep_view() =~= words_of(s@));
        }
    }
    out
}

/// Wraps a text greedily at `width` characters: words join with single
/// spaces; a line is closed once the next word would push it past the width.
/// A single word longer than the width stands as its own over-long line, and
/// a text without any word comes back unchanged as the only line.
pub fn wrap_text(text: &str, width: usize) -> (r: Vec<String>)
    ensures
        r.deep_view() == wrap_text_spec(text@, width as int),
{
    let ws = split_words(text);
    let ghost wv = words_of(text@);
    let mut lines: Vec<String> = Vec::new();
    let mut current = String::new();
    proof {
        assert(wv.take(0) =~= Seq::<Seq<char>>::empty());
        assert(lines.deep_view() =~= wrap_fold(wv.take(0), width as int).0);
    }
    let mut i: usize = 0;
    while i < ws.len()
        invariant
            i <= ws@.len(),
            wv == words_of(text@),
            ws.deep_view() == wv,
            wv.len() == ws@.len(),
            lines.deep_view() == wrap_fold(wv.take(i as int), width as int).0,
            lines@.len() == wrap_fold(wv.take(i as int), width as int).0.len(),
            current@ == wrap_fold(wv.take(i as int), width as int).1,
        decreases ws@.len() - i,
    {
        proof {
            assert(wv.take(i as int + 1).drop_last() =~= wv.take(i as int));
            assert(wv.take(i as int + 1).last() == wv[i as int]);
            assert(ws@[i as int]@ == wv[i as int]);
        }
        let w = &ws[i];
        let cur_len = current.as_str().unicode_len();
        let w_len = w.as_str().unicode_len();
        let over = (cur_len as u128) + (w_len as u128) + 1 > (width as u128);
        if over && cur_len > 0 {
            let ghost old_elems = lines@;
            let finished = current;
            lines.push(finished);
            current = w.clone();
            proof {
                assert forall|j: int| 0 <= j < lines@.len() implies #[trigger] lines@[j].deep_view()
                    == wrap_fold(wv.take(i as int + 1), width as int).0[j] by {
                    if j < old_elems.len() {
                        assert(lines@[j] == old_elems[j]);
                    }
                }
                assert(lines.deep_view() =~= wrap_fold(wv.take(i as int + 1), width as int).0);
                assert(current@ == wrap_fold(wv.take(i as int + 1), width as int).1);
            }
        } else if cur_len == 0 {
            current = w.clone();
            proof {
                assert(current@ =~= wrap_fold(wv.take(i as int + 1), width as int).1);
            }
        } else {
            proof {
                reveal_strlit(" ");
            }
            current.append(" ");
            current.append(w.as_str());
            proof {
                assert(current@ =~= wrap_fold(wv.take(i as int + 1), width as int).1);
            }
        }
        i = i + 1;
    }
    proof {
        assert(wv.take(wv.len() as int) =~= wv);
    }
    if current.as_str().unicode_len() > 0 {
        let ghost old_elems = lines@;
        lines.push(current);
        proof {
            assert forall|j: int| 0 <= j < lines@.len() implies #[trigger] lines@[j].deep_view()
                == wrap_text_spec(text@, width as int)[j] by {
                if j < old_elems.len() {
                    assert(lines@[j] == old_elems[j]);
                }
            }
            assert(lines.deep_view() =~= wrap_text_spec(text@, width as int));
        }
        lines
    } else {
        if lines.len() == 0 {
            lines.push(text.to_owned());
            proof {
                assert(lines.deep_view() =~= wrap_text_spec(text@, width as int));
            }
        } else {
            proof {
                assert(lines.deep_view() =~= wrap_text_spec(text@, width as int));
            }
        }
        lines
    }
}

} // verus!
