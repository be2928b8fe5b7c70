//! The help screen's model: its title, scroll offset, and the height
//! of the help text it shows.  Rendering lives with the caller.

use vstd::prelude::*;

verus! {

/// Number of `\n` characters in `s`.
pub open spec fn newline_count(s: Seq<char>) -> int
    decreases s.len(),
{
    if s.len() == 0 {
        0
    } else {
        newline_count(s.drop_last()) + (if s.last() == '\n' {
            1int
        } else {
            0int
        })
    }
}

/// The number of lines of a text, counted as std's `str::lines` does:
/// an empty text has none, and a trailing newline opens no new line.
pub open spec fn spec_line_count(s: Seq<char>) -> int {
    if s.len() == 0 {
        0
    } else {
        newline_count(s) + (if s.last() == '\n' {
            0int
        } else {
            1int
        })
    }
}

proof fn lemma_newline_count_bound(s: Seq<char>)
    ensures
        0 <= newline_count(s) <= s.len(),
    decreases s.len(),
{
    if s.len() > 0 {
        lemma_newline_count_bound(s.drop_last());
    }
}

/// The help screen's state.
pub struct Help {
    pub title: String,
    pub scroll: u16,
    pub text_height: usize,
}

impl Help {
    /// A fresh help screen over the given help text: titled `Help`,
    /// unscrolled, with the text's line count as its height.
    pub fn new(text: &str) -> (r: Self)
        ensures
            r.title@ == "Help"@,
            r.scroll == 0,
            r.text_height == spec_line_count(text@),
    {
        let len = text.unicode_len();
        let mut count: usize = 0;
        let mut i: usize = 0;
        proof {
            assert(text@.subrange(0, 0) =~= Seq::<char>::empty());
        }
        while i < len
            invariant
                i <= len,
                len == text@.len(),
                count <= i,
                count == newline_count(text@.subrange(0, i as int)),
            decreases len - i,
        {
            let c = text.get_char(i);
            proof {
                let cur = text@.subrange(0, i + 1);
                assert(cur.drop_last() =~= text@.subrange(0, i as int));
                assert(cur.last() == text@[i as int]);
            }
            if c == '\n' {
                count += 1;
            }
            i += 1;
        }
        proof {
            assert(text@.subrange(0, len as int) =~= text@);
        }
        let height: usize = if len == 0 {
            0
        } else {
            let last = text.get_char(len - 1);
            proof {
                assert(text@.last() == text@[len - 1]);
            }
            if last == '\n' {
                count
            } else {
                proof {
                    lemma_newline_count_bound(text@.drop_last());
                    assert(newline_count(text@) == newline_count(text@.drop_last()));
                }
                count + 1
            }
        };
        Help { title: "Help".to_owned(), scroll: 0, text_height: height }
    }
}

impl Default for Help {
    /// A help screen over no text at all.
    fn default() -> (r: Self)
        ensures
            r.title@ == "Help"@,
            r.scroll == 0,
            r.text_height == 0,
    {
        proof {
            reveal_strlit("");
        }
        Help::new("")
    }
}

} // verus!
