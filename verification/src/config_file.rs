use vstd::prelude::*;
use crate::chars::{CharClass, is_unicode_whitespace, span_len, lemma_span_len_bound};
use crate::reader::{Reader, ReaderState, advance_while, skip_n, advanced, lemma_advanced_refl, lemma_advanced_trans};

verus! {

/// Where skipping whitespace and comment lines from `st` stops: runs of
/// whitespace, and lines whose first non-blank character is `#`, are passed
/// over together with the line feed that ends them.
pub open spec fn skip_blank_and_comments(text: Seq<char>, st: ReaderState) -> ReaderState
    decreases text.len() - st.cursor,
    when st.cursor <= text.len() <= usize::MAX
{
    let st1 = advance_while(text, st, CharClass::Whitespace);
    if st1.cursor >= text.len() || text[st1.cursor as int] != '#' {
        st1
    } else {
        let st2 = advance_while(text, st1, CharClass::NotNewline);
        let st3 = if st2.cursor < text.len() && text[st2.cursor as int] == '\n' {
            skip_n(text, st2, 1)
        } else {
            st2
        };
        proof {
            lemma_span_len_bound(text, st.cursor as int, CharClass::Whitespace);
            lemma_span_len_bound(text, st1.cursor as int, CharClass::NotNewline);
        }
        skip_blank_and_comments(text, st3)
    }
}

/// A stopping point: the end of the text, or a character that neither is
/// whitespace nor starts a comment.
pub open spec fn at_content(text: Seq<char>, st: ReaderState) -> bool {
    st.cursor >= text.len() || (!is_unicode_whitespace(text[st.cursor as int]) && text[st.cursor as int] != '#')
}

/// Skip whitespaces and comments
pub fn skip_whitespace_and_comments(reader: &mut Reader)
    requires
        old(reader).wf(),
    ensures
        final(reader).wf(),
        final(reader).text() == old(reader).text(),
        advanced(old(reader).text(), old(reader).state, final(reader).state),
        final(reader).state == skip_blank_and_comments(old(reader).text(), old(reader).state),
        at_content(old(reader).text(), final(reader).state),
{
    let ghost text = reader.text();
    let ghost start = reader.state;
    proof {
        lemma_advanced_refl(text, start);
    }
    loop
        invariant
            reader.wf(),
            reader.text() == text,
            advanced(text, start, reader.state),
            skip_blank_and_comments(text, start) == skip_blank_and_comments(text, reader.state),
        ensures
            reader.wf(),
            reader.text() == text,
            advanced(text, start, reader.state),
            reader.state == skip_blank_and_comments(text, start),
            at_content(text, reader.state),
        decreases text.len() - reader.state.cursor,
    {
        let ghost s0 = reader.state;
        reader.read_while(CharClass::Whitespace);
        proof {
            lemma_advanced_trans(text, start, s0, reader.state);
            lemma_span_len_bound(text, s0.cursor as int, CharClass::Whitespace);
        }
        if reader.is_eof() {
            break;
        }
        match reader.peek() {
            Some(c) => {
                if c != '#' {
                    break;
                }
            },
            None => {
                break;
            },
        }
        let ghost s1 = reader.state;
        reader.read_while(CharClass::NotNewline);
        proof {
            lemma_advanced_trans(text, start, s1, reader.state);
            lemma_span_len_bound(text, s1.cursor as int, CharClass::NotNewline);
        }
        match reader.peek() {
            Some(c) => {
                if c == '\n' {
                    let ghost s2 = reader.state;
                    reader.read();
                    proof {
                        lemma_advanced_trans(text, start, s2, reader.state);
                    }
                }
            },
            None => {},
        }
    }
}

/// Where skipping stops is a stopping point.
pub proof fn lemma_skip_reaches_content(text: Seq<char>, st: ReaderState)
    requires
        st.cursor <= text.len() <= usize::MAX,
    ensures
        at_content(text, skip_blank_and_comments(text, st)),
        skip_blank_and_comments(text, st).cursor <= text.len(),
    decreases text.len() - st.cursor,
{
    lemma_span_len_bound(text, st.cursor as int, CharClass::Whitespace);
    let st1 = advance_while(text, st, CharClass::Whitespace);
    if st1.cursor >= text.len() || text[st1.cursor as int] != '#' {
    } else {
        lemma_span_len_bound(text, st1.cursor as int, CharClass::NotNewline);
        let st2 = advance_while(text, st1, CharClass::NotNewline);
        let st3 = if st2.cursor < text.len() && text[st2.cursor as int] == '\n' {
            skip_n(text, st2, 1)
        } else {
            st2
        };
        lemma_skip_reaches_content(text, st3);
    }
}

/// Skipping whitespace and comments twice is skipping them once: the
/// second pass reads nothing.
pub proof fn lemma_skip_idempotent(text: Seq<char>, st: ReaderState)
    requires
        st.cursor <= text.len() <= usize::MAX,
    ensures
        skip_blank_and_comments(text, skip_blank_and_comments(text, st)) == skip_blank_and_comments(text, st),
{
    lemma_skip_reaches_content(text, st);
    let r = skip_blank_and_comments(text, st);
    let r1 = advance_while(text, r, CharClass::Whitespace);
    assert(span_len(text, r.cursor as int, CharClass::Whitespace) == 0);
    assert(text.subrange(r.cursor as int, r.cursor as int) =~= Seq::<char>::empty());
    assert(r1 == r);
}

} // verus!
